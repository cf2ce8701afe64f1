use esa_cli::name::is_post_name_valid;
use esa_cli::post::{Error, Post};

fn segs(parts: &[&str]) -> Vec<Vec<u8>> {
    parts.iter().map(|p| p.as_bytes().to_vec()).collect()
}

#[test]
fn two_segments_are_valid() {
    assert!(is_post_name_valid(&segs(&["infra", "runbook"])).is_ok());
}

#[test]
fn deep_names_are_valid() {
    assert!(is_post_name_valid(&segs(&["a", "b", "c", "d"])).is_ok());
}

#[test]
fn single_segment_is_invalid() {
    assert!(matches!(
        is_post_name_valid(&segs(&["runbook"])),
        Err(Error::NameInvalid)
    ));
}

#[test]
fn empty_name_is_invalid() {
    assert!(matches!(is_post_name_valid(&segs(&[])), Err(Error::NameInvalid)));
}

#[test]
fn empty_segment_is_invalid() {
    assert!(matches!(
        is_post_name_valid(&segs(&["", "runbook"])),
        Err(Error::NameInvalid)
    ));
    assert!(matches!(
        is_post_name_valid(&segs(&["infra", ""])),
        Err(Error::NameInvalid)
    ));
}

#[test]
fn current_dir_segment_is_invalid() {
    assert!(matches!(
        is_post_name_valid(&segs(&[".", "runbook"])),
        Err(Error::NameInvalid)
    ));
}

#[test]
fn parent_dir_segment_is_invalid() {
    assert!(matches!(
        is_post_name_valid(&segs(&["..", "runbook"])),
        Err(Error::NameInvalid)
    ));
}

#[test]
fn separator_inside_segment_is_invalid() {
    assert!(matches!(
        is_post_name_valid(&segs(&["a/b", "c"])),
        Err(Error::NameInvalid)
    ));
}

#[test]
fn post_validator_agrees() {
    assert!(Post::is_invalid_name(&segs(&["infra", "runbook"])).is_ok());
    assert!(matches!(
        Post::is_invalid_name(&segs(&["runbook"])),
        Err(Error::NameInvalid)
    ));
}

#[test]
fn dot_in_longer_segment_is_valid() {
    assert!(is_post_name_valid(&segs(&["notes", "v1.2"])).is_ok());
}
