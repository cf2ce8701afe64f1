use esa_cli::esa_client::{attachment_policy_request, fetch_path, policies_path, posts_path,
    update_path, upload_form_args, AttachmentPolicy, FetchParameter};
use esa_cli::user_config::UserConfig;

fn b(s: &str) -> Vec<u8> {
    s.as_bytes().to_vec()
}

#[test]
fn posts_path_is_exact() {
    assert_eq!(posts_path(&b("myteam")), b("/v1/teams/myteam/posts"));
}

#[test]
fn query_fetch_path_is_exact() {
    let q = FetchParameter::Qstring(vec![b("user:alice"), b("name:x")]);
    assert_eq!(
        fetch_path(&b("t"), &q),
        b("/v1/teams/t/posts?q=user:alice name:x")
    );
}

#[test]
fn number_fetch_path_is_exact() {
    let q = FetchParameter::PathNumber(42);
    assert_eq!(fetch_path(&b("t"), &q), b("/v1/teams/t/posts/42"));
}

#[test]
fn update_path_is_exact() {
    assert_eq!(update_path(&b("t"), 7), b("/v1/teams/t/posts/7"));
}

#[test]
fn policies_path_is_exact() {
    assert_eq!(policies_path(&b("t")), b("/v1/teams/t/attachments/policies"));
}

#[test]
fn auth_header_is_exact() {
    let cfg = UserConfig { api_key: b("k123"), team: b("t"), user: b("u") };
    assert_eq!(cfg.auth_header(), b("Bearer k123"));
}

#[test]
fn media_type_is_guessed_from_the_path() {
    let p = attachment_policy_request(&b("photo.png"), 100).expect("a known extension");
    assert_eq!(p.mime, b("image/png"));
    assert_eq!(p.size, 100);
    assert_eq!(p.name, b("photo.png"));
}

#[test]
fn unknown_extension_yields_no_policy_request() {
    assert!(attachment_policy_request(&b("archive.zzyzzx"), 1).is_none());
}

#[test]
fn upload_args_are_exact() {
    let p = AttachmentPolicy {
        form_key: b("K"),
        form_access_key: b("A"),
        form_signature: b("S"),
        form_policy: b("P"),
        form_content_type: b("image/png"),
        form_content_disposition: b("inline"),
        form_cache_control: b("max-age=1"),
        form_acl: b("public-read"),
        endpoint: b("https://bucket.example"),
    };
    let args = upload_form_args(&p, &b("img.png"));
    assert_eq!(args.len(), 20);
    assert_eq!(args[0], b("-F"));
    assert_eq!(args[1], b("key=K"));
    assert_eq!(args[3], b("AWSAccessKeyId=A"));
    assert_eq!(args[5], b("signature=S"));
    assert_eq!(args[7], b("policy=P"));
    assert_eq!(args[9], b("Content-Type=image/png"));
    assert_eq!(args[11], b("Content-Disposition=inline"));
    assert_eq!(args[13], b("Cache-Control=max-age=1"));
    assert_eq!(args[15], b("acl=public-read"));
    assert_eq!(args[17], b("file=@img.png"));
    assert_eq!(args[18], b("--include"));
    assert_eq!(args[19], b("https://bucket.example"));
}
