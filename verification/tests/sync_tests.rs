use esa_cli::cli::FetchCommand;
use esa_cli::codec::decode;
use esa_cli::esa_client::{FetchParameter, RemoteRecord};
use esa_cli::post::{Error, Post};
use esa_cli::run::{fetch, fetch_all, fetch_name, fetch_number, fetched_posts, fetched_to_post,
    push_plan, PushAction};

fn segs(parts: &[&str]) -> Vec<Vec<u8>> {
    parts.iter().map(|p| p.as_bytes().to_vec()).collect()
}

fn b(s: &str) -> Vec<u8> {
    s.as_bytes().to_vec()
}

fn record(
    number: Option<u64>,
    name: &str,
    category: Option<&str>,
    tags: &[&str],
    body_md: Option<&str>,
    wip: bool,
) -> RemoteRecord {
    RemoteRecord {
        number,
        name: b(name),
        category: category.map(b),
        tags: segs(tags),
        body_md: body_md.map(b),
        wip,
        url: b("https://x/posts/0"),
    }
}

#[test]
fn new_post_is_unsynced() {
    let p = Post::new(segs(&["infra", "runbook"]), false).expect("name is valid");
    assert_eq!(p.number(), None);
    assert_eq!(p.meta.tags, segs(&[]));
    assert!(p.meta.wip);
    assert_eq!(p.file_path(), b("infra/runbook.md"));
}

#[test]
fn new_post_over_existing_file_fails() {
    assert!(matches!(
        Post::new(segs(&["infra", "runbook"]), true),
        Err(Error::PostExists)
    ));
}

#[test]
fn new_post_with_bad_name_fails() {
    assert!(matches!(
        Post::new(segs(&["runbook"]), false),
        Err(Error::NameInvalid)
    ));
    // a malformed name is reported before the existence check
    assert!(matches!(
        Post::new(segs(&["runbook"]), true),
        Err(Error::NameInvalid)
    ));
}

#[test]
fn push_of_unsynced_post_creates_once() {
    let p = Post::new(segs(&["infra", "runbook"]), false).expect("name is valid");
    match push_plan(&p) {
        PushAction::Create(payload) => {
            assert_eq!(payload.category, b("infra"));
            assert_eq!(payload.name, b("runbook"));
            assert_eq!(payload.body_md, Vec::<u8>::new());
            assert!(payload.wip);
        }
        PushAction::Update(_, _) => panic!("an unsynced post must be created, never updated"),
    }
}

#[test]
fn push_of_synced_post_updates_at_its_number() {
    let text = b("+++\ntags = []\nwip = true\nnumber = 5\n+++\n\nbody");
    let p = Post::from_str(segs(&["infra", "runbook"]), &text).expect("document decodes");
    match push_plan(&p) {
        PushAction::Update(n, payload) => {
            assert_eq!(n, 5);
            assert_eq!(payload.category, b("infra"));
            assert_eq!(payload.name, b("runbook"));
            assert_eq!(payload.body_md, b("body"));
        }
        PushAction::Create(_) => panic!("a synced post must be updated, never created"),
    }
}

#[test]
fn push_response_assigns_number() {
    let mut p = Post::new(segs(&["infra", "runbook"]), false).expect("name is valid");
    p.apply_push_response(Some(7));
    assert_eq!(p.number(), Some(7));
}

#[test]
fn push_response_without_number_keeps_old_one() {
    let text = b("+++\ntags = []\nwip = true\nnumber = 5\n+++\n\nbody");
    let mut p = Post::from_str(segs(&["infra", "runbook"]), &text).expect("document decodes");
    p.apply_push_response(None);
    assert_eq!(p.number(), Some(5));
}

#[test]
fn create_then_push_scenario() {
    // create: the saved file carries no number
    let p = Post::new(segs(&["infra", "runbook"]), false).expect("name is valid");
    let saved = p.save_content();
    let (m, _) = decode(&saved).expect("saved document decodes");
    assert_eq!(m.number, None);

    // push: the mock response assigns number 7
    let mut p = Post::from_str(segs(&["infra", "runbook"]), &saved).expect("document decodes");
    match push_plan(&p) {
        PushAction::Create(_) => {}
        PushAction::Update(_, _) => panic!("first push must create"),
    }
    p.apply_push_response(Some(7));
    let saved2 = p.save_content();
    let (m2, _) = decode(&saved2).expect("saved document decodes");
    assert_eq!(m2.number, Some(7));

    // a second push after the successful create updates, never creates again
    let again = Post::from_str(segs(&["infra", "runbook"]), &saved2).expect("document decodes");
    match push_plan(&again) {
        PushAction::Update(n, _) => assert_eq!(n, 7),
        PushAction::Create(_) => panic!("second push must update"),
    }
}

#[test]
fn fetched_record_becomes_one_file() {
    let r = record(Some(42), "x", Some("diary"), &["t"], Some("remote body"), false);
    let p = fetched_to_post(r).expect("a filed record materializes");
    assert_eq!(p.fullname, segs(&["diary", "x"]));
    assert_eq!(p.file_path(), b("diary/x.md"));
    assert_eq!(p.number(), Some(42));
    let (m, body) = decode(&p.save_content()).expect("saved document decodes");
    assert_eq!(m.tags, segs(&["t"]));
    assert_eq!(body, b("remote body"));
}

#[test]
fn fetched_record_with_nested_category() {
    let r = record(Some(1), "x", Some("a/b"), &[], None, true);
    let p = fetched_to_post(r).expect("a filed record materializes");
    assert_eq!(p.fullname, segs(&["a", "b", "x"]));
    assert_eq!(p.file_path(), b("a/b/x.md"));
}

#[test]
fn unfiled_record_is_skipped() {
    let r = record(Some(1), "x", None, &[], None, true);
    assert!(fetched_to_post(r).is_none());
}

#[test]
fn bulk_fetch_skips_unfiled_records() {
    let rs = vec![
        record(Some(1), "a", Some("c1"), &[], None, true),
        record(Some(2), "b", None, &[], None, true),
        record(Some(3), "c", Some("c2"), &[], None, true),
    ];
    let posts = fetched_posts(rs);
    assert_eq!(posts.len(), 2);
    assert_eq!(posts[0].fullname, segs(&["c1", "a"]));
    assert_eq!(posts[1].fullname, segs(&["c2", "c"]));
}

#[test]
fn fetch_by_name_builds_query() {
    let r = fetch_name(&segs(&["diary", "x"]), &b("alice")).expect("name is valid");
    match r {
        FetchParameter::Qstring(q) => {
            assert_eq!(q, vec![b("user:alice"), b("category:diary"), b("name:x")]);
        }
        FetchParameter::PathNumber(_) => panic!("a name fetch must query"),
    }
}

#[test]
fn fetch_by_nested_name_builds_query() {
    let r = fetch_name(&segs(&["a", "b", "c"]), &b("alice")).expect("name is valid");
    match r {
        FetchParameter::Qstring(q) => {
            assert_eq!(q, vec![b("user:alice"), b("category:a/b"), b("name:c")]);
        }
        FetchParameter::PathNumber(_) => panic!("a name fetch must query"),
    }
}

#[test]
fn fetch_by_bad_name_fails() {
    assert!(matches!(
        fetch_name(&segs(&["x"]), &b("alice")),
        Err(Error::NameInvalid)
    ));
}

#[test]
fn fetch_by_number_addresses_the_post() {
    assert!(matches!(fetch_number(42), FetchParameter::PathNumber(42)));
}

#[test]
fn fetch_all_queries_the_user() {
    match fetch_all(&b("alice")) {
        FetchParameter::Qstring(q) => assert_eq!(q, vec![b("user:alice")]),
        FetchParameter::PathNumber(_) => panic!("a bulk fetch must query"),
    }
}

#[test]
fn fetch_dispatch_prefers_name() {
    let cmd = FetchCommand { name: Some(segs(&["d", "x"])), number: Some(9) };
    match fetch(&cmd, &b("u")).expect("name is valid") {
        FetchParameter::Qstring(q) => {
            assert_eq!(q, vec![b("user:u"), b("category:d"), b("name:x")]);
        }
        FetchParameter::PathNumber(_) => panic!("the name selector wins"),
    }
}

#[test]
fn fetch_dispatch_by_number() {
    let cmd = FetchCommand { name: None, number: Some(9) };
    assert!(matches!(
        fetch(&cmd, &b("u")).expect("number fetch succeeds"),
        FetchParameter::PathNumber(9)
    ));
}

#[test]
fn fetch_dispatch_default_is_all() {
    let cmd = FetchCommand { name: None, number: None };
    match fetch(&cmd, &b("u")).expect("bulk fetch succeeds") {
        FetchParameter::Qstring(q) => assert_eq!(q, vec![b("user:u")]),
        FetchParameter::PathNumber(_) => panic!("the default fetch queries the user"),
    }
}

#[test]
fn payload_never_carries_the_number() {
    let text = b("+++\ntags = [\"t\"]\nwip = false\nnumber = 5\n+++\n\nbody");
    let p = Post::from_str(segs(&["infra", "runbook"]), &text).expect("document decodes");
    let payload = p.to_remote_payload();
    // the payload type has no number field; what it carries is exactly this
    assert_eq!(payload.category, b("infra"));
    assert_eq!(payload.name, b("runbook"));
    assert_eq!(payload.body_md, b("body"));
    assert_eq!(payload.tags, segs(&["t"]));
    assert!(!payload.wip);
}
