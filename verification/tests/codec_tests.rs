use esa_cli::codec::{decode, encode, Meta};
use esa_cli::post::Error;

fn tags(parts: &[&str]) -> Vec<Vec<u8>> {
    parts.iter().map(|p| p.as_bytes().to_vec()).collect()
}

fn meta(ts: &[&str], wip: bool, number: Option<u64>) -> Meta {
    Meta { tags: tags(ts), wip, number }
}

fn roundtrip(ts: &[&str], wip: bool, number: Option<u64>, body: &[u8]) {
    let m = meta(ts, wip, number);
    let text = encode(&m, &body.to_vec());
    let (m2, b2) = decode(&text).expect("encoded document must decode");
    assert_eq!(m2.tags, tags(ts));
    assert_eq!(m2.wip, wip);
    assert_eq!(m2.number, number);
    assert_eq!(b2, body.to_vec());
}

#[test]
fn decode_example_document() {
    let text = b"+++\ntags = []\nwip = false\n+++\n\nHello\n".to_vec();
    let (m, body) = decode(&text).expect("document must decode");
    assert_eq!(m.tags, tags(&[]));
    assert_eq!(m.wip, false);
    assert_eq!(m.number, None);
    assert_eq!(body, b"Hello\n".to_vec());
}

#[test]
fn encode_exact_text() {
    let m = meta(&[], true, None);
    let text = encode(&m, &Vec::new());
    assert_eq!(text, b"+++\ntags = []\nwip = true\n+++\n\n".to_vec());
}

#[test]
fn encode_exact_text_with_number_and_tags() {
    let m = meta(&["a", "b"], false, Some(123));
    let text = encode(&m, &b"body".to_vec());
    assert_eq!(
        text,
        b"+++\ntags = [\"a\", \"b\"]\nwip = false\nnumber = 123\n+++\n\nbody".to_vec()
    );
}

#[test]
fn roundtrip_plain() {
    roundtrip(&["a", "b"], true, Some(123), b"Hello\nWorld\n");
}

#[test]
fn roundtrip_no_number() {
    roundtrip(&["ops"], false, None, b"text");
}

#[test]
fn roundtrip_empty_everything() {
    roundtrip(&[], true, None, b"");
}

#[test]
fn roundtrip_escaped_tag() {
    roundtrip(&["a\"b\\c", "d, e]"], true, Some(1), b"x");
}

#[test]
fn roundtrip_body_with_leading_newline() {
    roundtrip(&[], false, None, b"\nindented start");
}

#[test]
fn roundtrip_body_with_delimiter_lines() {
    roundtrip(&[], false, None, b"+++\nnot a header\n+++\n");
}

#[test]
fn roundtrip_max_number() {
    roundtrip(&[], true, Some(u64::MAX), b"n");
}

#[test]
fn garbage_is_format_invalid() {
    assert!(matches!(
        decode(&b"no delimiters here".to_vec()),
        Err(Error::PostFormatInvalid)
    ));
}

#[test]
fn missing_closing_delimiter_is_format_invalid() {
    assert!(matches!(
        decode(&b"+++\ntags = []\nwip = true\n".to_vec()),
        Err(Error::PostFormatInvalid)
    ));
}

#[test]
fn empty_text_is_format_invalid() {
    assert!(matches!(decode(&Vec::new()), Err(Error::PostFormatInvalid)));
}

#[test]
fn missing_tags_is_meta_invalid() {
    assert!(matches!(
        decode(&b"+++\nwip = true\n+++\n\nx".to_vec()),
        Err(Error::MetaTomlInvalid)
    ));
}

#[test]
fn missing_wip_is_meta_invalid() {
    assert!(matches!(
        decode(&b"+++\ntags = []\n+++\n\nx".to_vec()),
        Err(Error::MetaTomlInvalid)
    ));
}

#[test]
fn unknown_key_is_meta_invalid() {
    assert!(matches!(
        decode(&b"+++\ntags = []\nwip = true\ncolor = 3\n+++\n\nx".to_vec()),
        Err(Error::MetaTomlInvalid)
    ));
}

#[test]
fn duplicate_key_is_meta_invalid() {
    assert!(matches!(
        decode(&b"+++\ntags = []\ntags = []\nwip = true\n+++\n\nx".to_vec()),
        Err(Error::MetaTomlInvalid)
    ));
}

#[test]
fn leading_zero_number_is_meta_invalid() {
    assert!(matches!(
        decode(&b"+++\ntags = []\nwip = true\nnumber = 007\n+++\n\nx".to_vec()),
        Err(Error::MetaTomlInvalid)
    ));
}

#[test]
fn oversized_number_is_meta_invalid() {
    assert!(matches!(
        decode(&b"+++\ntags = []\nwip = true\nnumber = 99999999999999999999\n+++\n\nx".to_vec()),
        Err(Error::MetaTomlInvalid)
    ));
}

#[test]
fn bad_wip_value_is_meta_invalid() {
    assert!(matches!(
        decode(&b"+++\ntags = []\nwip = maybe\n+++\n\nx".to_vec()),
        Err(Error::MetaTomlInvalid)
    ));
}

#[test]
fn unterminated_tag_is_meta_invalid() {
    assert!(matches!(
        decode(&b"+++\ntags = [\"a\nwip = true\n+++\n\nx".to_vec()),
        Err(Error::MetaTomlInvalid)
    ));
}

#[test]
fn delimiter_whitespace_is_tolerated() {
    let text = b"  +++ \ntags = []\nwip = true\n +++\t\nbody".to_vec();
    let (m, body) = decode(&text).expect("document must decode");
    assert_eq!(m.wip, true);
    assert_eq!(body, b"body".to_vec());
}

#[test]
fn leading_blank_lines_are_tolerated() {
    let text = b"\n  \n+++\ntags = []\nwip = true\n+++\n\nbody\n".to_vec();
    let (_, body) = decode(&text).expect("document must decode");
    assert_eq!(body, b"body\n".to_vec());
}

#[test]
fn blank_line_inside_meta_is_skipped() {
    let text = b"+++\ntags = []\n\nwip = true\n+++\n\nbody".to_vec();
    let (m, _) = decode(&text).expect("document must decode");
    assert_eq!(m.wip, true);
}

#[test]
fn parsed_number_is_kept() {
    let text = b"+++\ntags = [\"x\"]\nwip = false\nnumber = 42\n+++\n\nb".to_vec();
    let (m, _) = decode(&text).expect("document must decode");
    assert_eq!(m.number, Some(42));
    assert_eq!(m.tags, tags(&["x"]));
}

#[test]
fn max_number_parses() {
    let text = b"+++\ntags = []\nwip = true\nnumber = 18446744073709551615\n+++\n\nb".to_vec();
    let (m, _) = decode(&text).expect("document must decode");
    assert_eq!(m.number, Some(u64::MAX));
}

#[test]
fn crlf_line_endings_are_tolerated() {
    let text = b"+++\r\ntags = [\"a\"]\r\nwip = true\r\nnumber = 3\r\n+++\r\n\r\nbody\n".to_vec();
    let (m, body) = decode(&text).expect("document must decode");
    assert_eq!(m.tags, tags(&["a"]));
    assert_eq!(m.number, Some(3));
    assert_eq!(body, b"body\n".to_vec());
}

#[test]
fn body_absent_means_empty() {
    let text = b"+++\ntags = []\nwip = true\n+++".to_vec();
    let (_, body) = decode(&text).expect("document must decode");
    assert_eq!(body, Vec::<u8>::new());
}
