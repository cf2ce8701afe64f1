//! The remote store's interface: record and payload shapes, request
//! paths, and the attachment upload helpers.
use vstd::prelude::*;

use crate::bytes::{copy_bytes, dec_of, u64_to_dec};

verus! {

/// How a fetch addresses the remote store: by a search query or by a
/// post number in the path.
pub enum FetchParameter {
    Qstring(Vec<Vec<u8>>),
    PathNumber(u64),
}

/// A record as the remote store returns it; fields the logic never reads
/// are not modelled.
pub struct RemoteRecord {
    pub number: Option<u64>,
    pub name: Vec<u8>,
    pub category: Option<Vec<u8>>,
    pub tags: Vec<Vec<u8>>,
    pub body_md: Option<Vec<u8>>,
    pub wip: bool,
    pub url: Vec<u8>,
}

/// The mathematical value of a `RemoteRecord`.
pub ghost struct RecordView {
    pub number: Option<u64>,
    pub name: Seq<u8>,
    pub category: Option<Seq<u8>>,
    pub tags: Seq<Seq<u8>>,
    pub body_md: Option<Seq<u8>>,
    pub wip: bool,
    pub url: Seq<u8>,
}

impl View for RemoteRecord {
    type V = RecordView;

    open spec fn view(&self) -> RecordView {
        RecordView {
            number: self.number,
            name: self.name@,
            category: self.category.deep_view(),
            tags: self.tags.deep_view(),
            body_md: self.body_md.deep_view(),
            wip: self.wip,
            url: self.url@,
        }
    }
}

impl DeepView for RemoteRecord {
    type V = RecordView;

    open spec fn deep_view(&self) -> RecordView {
        self.view()
    }
}

/// The payload sent on create and update; the post number never travels
/// in it — on update the resource address carries it.
pub struct RemotePayload {
    pub category: Vec<u8>,
    pub name: Vec<u8>,
    pub body_md: Vec<u8>,
    pub tags: Vec<Vec<u8>>,
    pub wip: bool,
}

/// The mathematical value of a `RemotePayload`.
pub ghost struct PayloadView {
    pub category: Seq<u8>,
    pub name: Seq<u8>,
    pub body_md: Seq<u8>,
    pub tags: Seq<Seq<u8>>,
    pub wip: bool,
}

impl View for RemotePayload {
    type V = PayloadView;

    open spec fn view(&self) -> PayloadView {
        PayloadView {
            category: self.category@,
            name: self.name@,
            body_md: self.body_md@,
            tags: self.tags.deep_view(),
            wip: self.wip,
        }
    }
}

/// `/v1/teams/`
pub open spec fn lit_teams_prefix() -> Seq<u8> {
    seq![47u8, 118u8, 49u8, 47u8, 116u8, 101u8, 97u8, 109u8, 115u8, 47u8]
}

/// `/posts`
pub open spec fn lit_posts() -> Seq<u8> {
    seq![47u8, 112u8, 111u8, 115u8, 116u8, 115u8]
}

/// `/attachments/policies`
pub open spec fn lit_policies() -> Seq<u8> {
    seq![
        47u8, 97u8, 116u8, 116u8, 97u8, 99u8, 104u8, 109u8, 101u8, 110u8, 116u8, 115u8, 47u8,
        112u8, 111u8, 108u8, 105u8, 99u8, 105u8, 101u8, 115u8,
    ]
}

/// `?q=`
pub open spec fn lit_query() -> Seq<u8> {
    seq![63u8, 113u8, 61u8]
}

/// The collection path for a team's posts.
pub open spec fn posts_path_spec(team: Seq<u8>) -> Seq<u8> {
    lit_teams_prefix() + team + lit_posts()
}

/// Query parts joined with single spaces.
pub open spec fn join_query(q: Seq<Seq<u8>>) -> Seq<u8>
    decreases q.len(),
{
    if q.len() == 0 {
        Seq::<u8>::empty()
    } else if q.len() == 1 {
        q[0]
    } else {
        join_query(q.drop_last()) + seq![32u8] + q.last()
    }
}

/// The request path a fetch uses: the search endpoint with the joined
/// query, or the single post addressed by number.
pub open spec fn fetch_path_spec(team: Seq<u8>, param: FetchParameter) -> Seq<u8> {
    match param {
        FetchParameter::Qstring(q) => posts_path_spec(team) + lit_query() + join_query(
            q.deep_view(),
        ),
        FetchParameter::PathNumber(n) => posts_path_spec(team) + seq![47u8] + dec_of(n as nat),
    }
}

/// The request path an update uses.
pub open spec fn update_path_spec(team: Seq<u8>, number: u64) -> Seq<u8> {
    posts_path_spec(team) + seq![47u8] + dec_of(number as nat)
}

/// The request path that asks for upload credentials.
pub open spec fn policies_path_spec(team: Seq<u8>) -> Seq<u8> {
    lit_teams_prefix() + team + lit_policies()
}

/// Appends `src` to `out`.
fn append_bytes(out: &mut Vec<u8>, src: &Vec<u8>)
    ensures
        final(out)@ == old(out)@ + src@,
{
    let ghost base = out@;
    let mut i: usize = 0;
    while i < src.len()
        invariant
            0 <= i <= src@.len(),
            out@ == base + src@.take(i as int),
        decreases src@.len() - i,
    {
        out.push(src[i]);
        proof {
            assert(src@.take(i + 1) =~= src@.take(i as int).push(src@[i as int]));
        }
        i = i + 1;
    }
    proof {
        assert(src@.take(i as int) =~= src@);
        assert(out@ =~= base + src@);
    }
}

fn lit_teams_prefix_vec() -> (r: Vec<u8>)
    ensures
        r@ == lit_teams_prefix(),
{
    let mut v: Vec<u8> = Vec::new();
    v.push(47);
    v.push(118);
    v.push(49);
    v.push(47);
    v.push(116);
    v.push(101);
    v.push(97);
    v.push(109);
    v.push(115);
    v.push(47);
    proof {
        assert(v@ =~= lit_teams_prefix());
    }
    v
}

fn lit_posts_vec() -> (r: Vec<u8>)
    ensures
        r@ == lit_posts(),
{
    let mut v: Vec<u8> = Vec::new();
    v.push(47);
    v.push(112);
    v.push(111);
    v.push(115);
    v.push(116);
    v.push(115);
    proof {
        assert(v@ =~= lit_posts());
    }
    v
}

fn lit_policies_vec() -> (r: Vec<u8>)
    ensures
        r@ == lit_policies(),
{
    let mut v: Vec<u8> = Vec::new();
    v.push(47);
    v.push(97);
    v.push(116);
    v.push(116);
    v.push(97);
    v.push(99);
    v.push(104);
    v.push(109);
    v.push(101);
    v.push(110);
    v.push(116);
    v.push(115);
    v.push(47);
    v.push(112);
    v.push(111);
    v.push(108);
    v.push(105);
    v.push(99);
    v.push(105);
    v.push(101);
    v.push(115);
    proof {
        assert(v@ =~= lit_policies());
    }
    v
}

/// Builds the collection path for a team's posts.
pub fn posts_path(team: &Vec<u8>) -> (r: Vec<u8>)
    ensures
        r@ == posts_path_spec(team@),
{
    let mut out = lit_teams_prefix_vec();
    append_bytes(&mut out, team);
    let tail = lit_posts_vec();
    append_bytes(&mut out, &tail);
    out
}

/// Joins query parts with single spaces.
pub fn join_query_vec(q: &Vec<Vec<u8>>) -> (r: Vec<u8>)
    ensures
        r@ == join_query(q.deep_view()),
{
    let ghost dv = q.deep_view();
    let mut out: Vec<u8> = Vec::new();
    let mut k: usize = 0;
    while k < q.len()
        invariant
            0 <= k <= q@.len(),
            dv == q.deep_view(),
            dv.len() == q@.len(),
            out@ == join_query(dv.subrange(0, k as int)),
        decreases q@.len() - k,
    {
        if k > 0 {
            out.push(32);
        }
        append_bytes(&mut out, &q[k]);
        proof {
            assert(q@[k as int]@ =~= dv[k as int]);
            let pre = dv.subrange(0, k as int);
            let post = dv.subrange(0, k + 1);
            assert(post.drop_last() =~~= pre);
            assert(post.last() == dv[k as int]);
            if k > 0 {
                assert(out@ =~= join_query(post));
            } else {
                assert(post.len() == 1);
                assert(out@ =~= join_query(post));
            }
        }
        k = k + 1;
    }
    proof {
        assert(dv.subrange(0, k as int) =~~= dv);
    }
    out
}

/// Builds the request path a fetch uses.
pub fn fetch_path(team: &Vec<u8>, param: &FetchParameter) -> (r: Vec<u8>)
    ensures
        r@ == fetch_path_spec(team@, *param),
{
    let mut out = posts_path(team);
    match param {
        FetchParameter::Qstring(q) => {
            out.push(63);
            out.push(113);
            out.push(61);
            let joined = join_query_vec(q);
            append_bytes(&mut out, &joined);
            proof {
                assert(out@ =~= posts_path_spec(team@) + lit_query() + join_query(q.deep_view()));
            }
        },
        FetchParameter::PathNumber(n) => {
            out.push(47);
            let digits = u64_to_dec(*n);
            append_bytes(&mut out, &digits);
            proof {
                assert(out@ =~= posts_path_spec(team@) + seq![47u8] + dec_of(*n as nat));
            }
        },
    }
    out
}

/// Builds the request path an update uses.
pub fn update_path(team: &Vec<u8>, number: u64) -> (r: Vec<u8>)
    ensures
        r@ == update_path_spec(team@, number),
{
    let mut out = posts_path(team);
    out.push(47);
    let digits = u64_to_dec(number);
    append_bytes(&mut out, &digits);
    proof {
        assert(out@ =~= update_path_spec(team@, number));
    }
    out
}

/// Builds the request path that asks for upload credentials.
pub fn policies_path(team: &Vec<u8>) -> (r: Vec<u8>)
    ensures
        r@ == policies_path_spec(team@),
{
    let mut out = lit_teams_prefix_vec();
    append_bytes(&mut out, team);
    let tail = lit_policies_vec();
    append_bytes(&mut out, &tail);
    out
}

/// The media type that the type-guessing library derives from a file
/// path; it depends on the path alone.
pub uninterp spec fn mime_of(path: Seq<u8>) -> Option<Seq<u8>>;

/// Relies on mime_guess::from_path: guesses the media type from the
/// path's extension; the result is a function of the path alone.
#[verifier::external_body]
fn guess_mime(path: &Vec<u8>) -> (r: Option<Vec<u8>>)
    ensures
        r.deep_view() == mime_of(path@),
{
    let s = match core::str::from_utf8(path.as_slice()) {
        Ok(s) => s,
        Err(_) => {
            return None;
        },
    };
    mime_guess::from_path(std::path::Path::new(s)).first().map(|m| m.to_string().into_bytes())
}

/// What a request for upload credentials sends: the file's media type,
/// its size, and its name.
pub struct PolicyRequest {
    pub mime: Vec<u8>,
    pub size: u64,
    pub name: Vec<u8>,
}

/// The mathematical value of a `PolicyRequest`.
pub ghost struct PolicyRequestView {
    pub mime: Seq<u8>,
    pub size: u64,
    pub name: Seq<u8>,
}

impl View for PolicyRequest {
    type V = PolicyRequestView;

    open spec fn view(&self) -> PolicyRequestView {
        PolicyRequestView { mime: self.mime@, size: self.size, name: self.name@ }
    }
}

/// Assembles a credentials request from a known media type, size and
/// name.
pub fn policy_request_of(mime: Vec<u8>, size: u64, name: Vec<u8>) -> (r: PolicyRequest)
    ensures
        r@.mime == mime@,
        r@.size == size,
        r@.name == name@,
{
    PolicyRequest { mime, size, name }
}

/// Derives the credentials request for a file: its media type is
/// guessed from the path; a path without a known type yields none.
pub fn attachment_policy_request(image_file: &Vec<u8>, size: u64) -> (r: Option<PolicyRequest>)
    ensures
        match mime_of(image_file@) {
            Some(m) => match r {
                Some(p) => p@.mime == m && p@.size == size && p@.name == image_file@,
                None => false,
            },
            None => r is None,
        },
{
    match guess_mime(image_file) {
        Some(m) => Some(policy_request_of(m, size, copy_bytes(image_file))),
        None => None,
    }
}

/// The upload credentials the remote store hands back: the form fields
/// of the pre-signed request and the endpoint to send it to.
pub struct AttachmentPolicy {
    pub form_key: Vec<u8>,
    pub form_access_key: Vec<u8>,
    pub form_signature: Vec<u8>,
    pub form_policy: Vec<u8>,
    pub form_content_type: Vec<u8>,
    pub form_content_disposition: Vec<u8>,
    pub form_cache_control: Vec<u8>,
    pub form_acl: Vec<u8>,
    pub endpoint: Vec<u8>,
}

/// The transfer-tool argument list for a pre-signed upload: one form
/// field per credential, the file itself, and the endpoint.
pub open spec fn upload_args_spec(p: AttachmentPolicy, image_file: Seq<u8>) -> Seq<Seq<u8>> {
    seq![
        seq![45u8, 70u8],
        seq![107u8, 101u8, 121u8, 61u8] + p.form_key@,
        seq![45u8, 70u8],
        seq![
            65u8, 87u8, 83u8, 65u8, 99u8, 99u8, 101u8, 115u8, 115u8, 75u8, 101u8, 121u8, 73u8,
            100u8, 61u8,
        ] + p.form_access_key@,
        seq![45u8, 70u8],
        seq![115u8, 105u8, 103u8, 110u8, 97u8, 116u8, 117u8, 114u8, 101u8, 61u8]
            + p.form_signature@,
        seq![45u8, 70u8],
        seq![112u8, 111u8, 108u8, 105u8, 99u8, 121u8, 61u8] + p.form_policy@,
        seq![45u8, 70u8],
        seq![
            67u8, 111u8, 110u8, 116u8, 101u8, 110u8, 116u8, 45u8, 84u8, 121u8, 112u8, 101u8, 61u8,
        ] + p.form_content_type@,
        seq![45u8, 70u8],
        seq![
            67u8, 111u8, 110u8, 116u8, 101u8, 110u8, 116u8, 45u8, 68u8, 105u8, 115u8, 112u8,
            111u8, 115u8, 105u8, 116u8, 105u8, 111u8, 110u8, 61u8,
        ] + p.form_content_disposition@,
        seq![45u8, 70u8],
        seq![
            67u8, 97u8, 99u8, 104u8, 101u8, 45u8, 67u8, 111u8, 110u8, 116u8, 114u8, 111u8, 108u8,
            61u8,
        ] + p.form_cache_control@,
        seq![45u8, 70u8],
        seq![97u8, 99u8, 108u8, 61u8] + p.form_acl@,
        seq![45u8, 70u8],
        seq![102u8, 105u8, 108u8, 101u8, 61u8, 64u8] + image_file,
        seq![45u8, 45u8, 105u8, 110u8, 99u8, 108u8, 117u8, 100u8, 101u8],
        p.endpoint@,
    ]
}

fn form_field(prefix: Vec<u8>, value: &Vec<u8>) -> (r: Vec<u8>)
    ensures
        r@ == prefix@ + value@,
{
    let mut out = prefix;
    append_bytes(&mut out, value);
    out
}

fn lit_dash_f() -> (r: Vec<u8>)
    ensures
        r@ == seq![45u8, 70u8],
{
    let mut v: Vec<u8> = Vec::new();
    v.push(45);
    v.push(70);
    proof {
        assert(v@ =~= seq![45u8, 70u8]);
    }
    v
}

fn lit_key_eq() -> (r: Vec<u8>)
    ensures
        r@ == seq![107u8, 101u8, 121u8, 61u8],
{
    let mut v: Vec<u8> = Vec::new();
    v.push(107);
    v.push(101);
    v.push(121);
    v.push(61);
    proof {
        assert(v@ =~= seq![107u8, 101u8, 121u8, 61u8]);
    }
    v
}

fn lit_access_key_eq() -> (r: Vec<u8>)
    ensures
        r@ == seq![
            65u8, 87u8, 83u8, 65u8, 99u8, 99u8, 101u8, 115u8, 115u8, 75u8, 101u8, 121u8, 73u8,
            100u8, 61u8,
        ],
{
    let mut v: Vec<u8> = Vec::new();
    v.push(65);
    v.push(87);
    v.push(83);
    v.push(65);
    v.push(99);
    v.push(99);
    v.push(101);
    v.push(115);
    v.push(115);
    v.push(75);
    v.push(101);
    v.push(121);
    v.push(73);
    v.push(100);
    v.push(61);
    proof {
        assert(v@ =~= seq![
            65u8, 87u8, 83u8, 65u8, 99u8, 99u8, 101u8, 115u8, 115u8, 75u8, 101u8, 121u8, 73u8,
            100u8, 61u8,
        ]);
    }
    v
}

fn lit_signature_eq() -> (r: Vec<u8>)
    ensures
        r@ == seq![115u8, 105u8, 103u8, 110u8, 97u8, 116u8, 117u8, 114u8, 101u8, 61u8],
{
    let mut v: Vec<u8> = Vec::new();
    v.push(115);
    v.push(105);
    v.push(103);
    v.push(110);
    v.push(97);
    v.push(116);
    v.push(117);
    v.push(114);
    v.push(101);
    v.push(61);
    proof {
        assert(v@ =~= seq![115u8, 105u8, 103u8, 110u8, 97u8, 116u8, 117u8, 114u8, 101u8, 61u8]);
    }
    v
}

fn lit_policy_eq() -> (r: Vec<u8>)
    ensures
        r@ == seq![112u8, 111u8, 108u8, 105u8, 99u8, 121u8, 61u8],
{
    let mut v: Vec<u8> = Vec::new();
    v.push(112);
    v.push(111);
    v.push(108);
    v.push(105);
    v.push(99);
    v.push(121);
    v.push(61);
    proof {
        assert(v@ =~= seq![112u8, 111u8, 108u8, 105u8, 99u8, 121u8, 61u8]);
    }
    v
}

fn lit_content_type_eq() -> (r: Vec<u8>)
    ensures
        r@ == seq![
            67u8, 111u8, 110u8, 116u8, 101u8, 110u8, 116u8, 45u8, 84u8, 121u8, 112u8, 101u8, 61u8,
        ],
{
    let mut v: Vec<u8> = Vec::new();
    v.push(67);
    v.push(111);
    v.push(110);
    v.push(116);
    v.push(101);
    v.push(110);
    v.push(116);
    v.push(45);
    v.push(84);
    v.push(121);
    v.push(112);
    v.push(101);
    v.push(61);
    proof {
        assert(v@ =~= seq![
            67u8, 111u8, 110u8, 116u8, 101u8, 110u8, 116u8, 45u8, 84u8, 121u8, 112u8, 101u8, 61u8,
        ]);
    }
    v
}

fn lit_content_disposition_eq() -> (r: Vec<u8>)
    ensures
        r@ == seq![
            67u8, 111u8, 110u8, 116u8, 101u8, 110u8, 116u8, 45u8, 68u8, 105u8, 115u8, 112u8,
            111u8, 115u8, 105u8, 116u8, 105u8, 111u8, 110u8, 61u8,
        ],
{
    let mut v: Vec<u8> = Vec::new();
    v.push(67);
    v.push(111);
    v.push(110);
    v.push(116);
    v.push(101);
    v.push(110);
    v.push(116);
    v.push(45);
    v.push(68);
    v.push(105);
    v.push(115);
    v.push(112);
    v.push(111);
    v.push(115);
    v.push(105);
    v.push(116);
    v.push(105);
    v.push(111);
    v.push(110);
    v.push(61);
    proof {
        assert(v@ =~= seq![
            67u8, 111u8, 110u8, 116u8, 101u8, 110u8, 116u8, 45u8, 68u8, 105u8, 115u8, 112u8,
            111u8, 115u8, 105u8, 116u8, 105u8, 111u8, 110u8, 61u8,
        ]);
    }
    v
}

fn lit_cache_control_eq() -> (r: Vec<u8>)
    ensures
        r@ == seq![
            67u8, 97u8, 99u8, 104u8, 101u8, 45u8, 67u8, 111u8, 110u8, 116u8, 114u8, 111u8, 108u8,
            61u8,
        ],
{
    let mut v: Vec<u8> = Vec::new();
    v.push(67);
    v.push(97);
    v.push(99);
    v.push(104);
    v.push(101);
    v.push(45);
    v.push(67);
    v.push(111);
    v.push(110);
    v.push(116);
    v.push(114);
    v.push(111);
    v.push(108);
    v.push(61);
    proof {
        assert(v@ =~= seq![
            67u8, 97u8, 99u8, 104u8, 101u8, 45u8, 67u8, 111u8, 110u8, 116u8, 114u8, 111u8, 108u8,
            61u8,
        ]);
    }
    v
}

fn lit_acl_eq() -> (r: Vec<u8>)
    ensures
        r@ == seq![97u8, 99u8, 108u8, 61u8],
{
    let mut v: Vec<u8> = Vec::new();
    v.push(97);
    v.push(99);
    v.push(108);
    v.push(61);
    proof {
        assert(v@ =~= seq![97u8, 99u8, 108u8, 61u8]);
    }
    v
}

fn lit_file_at() -> (r: Vec<u8>)
    ensures
        r@ == seq![102u8, 105u8, 108u8, 101u8, 61u8, 64u8],
{
    let mut v: Vec<u8> = Vec::new();
    v.push(102);
    v.push(105);
    v.push(108);
    v.push(101);
    v.push(61);
    v.push(64);
    proof {
        assert(v@ =~= seq![102u8, 105u8, 108u8, 101u8, 61u8, 64u8]);
    }
    v
}

fn lit_include() -> (r: Vec<u8>)
    ensures
        r@ == seq![45u8, 45u8, 105u8, 110u8, 99u8, 108u8, 117u8, 100u8, 101u8],
{
    let mut v: Vec<u8> = Vec::new();
    v.push(45);
    v.push(45);
    v.push(105);
    v.push(110);
    v.push(99);
    v.push(108);
    v.push(117);
    v.push(100);
    v.push(101);
    proof {
        assert(v@ =~= seq![45u8, 45u8, 105u8, 110u8, 99u8, 108u8, 117u8, 100u8, 101u8]);
    }
    v
}

/// Assembles the transfer-tool argument list for a pre-signed upload,
/// one form field per credential, ending with the file and the endpoint.
#[verifier::rlimit(80)]
pub fn upload_form_args(p: &AttachmentPolicy, image_file: &Vec<u8>) -> (r: Vec<Vec<u8>>)
    ensures
        r.deep_view() == upload_args_spec(*p, image_file@),
{
    let mut out: Vec<Vec<u8>> = Vec::new();
    out.push(lit_dash_f());
    out.push(form_field(lit_key_eq(), &p.form_key));
    out.push(lit_dash_f());
    out.push(form_field(lit_access_key_eq(), &p.form_access_key));
    out.push(lit_dash_f());
    out.push(form_field(lit_signature_eq(), &p.form_signature));
    out.push(lit_dash_f());
    out.push(form_field(lit_policy_eq(), &p.form_policy));
    out.push(lit_dash_f());
    out.push(form_field(lit_content_type_eq(), &p.form_content_type));
    out.push(lit_dash_f());
    out.push(form_field(lit_content_disposition_eq(), &p.form_content_disposition));
    out.push(lit_dash_f());
    out.push(form_field(lit_cache_control_eq(), &p.form_cache_control));
    out.push(lit_dash_f());
    out.push(form_field(lit_acl_eq(), &p.form_acl));
    out.push(lit_dash_f());
    out.push(form_field(lit_file_at(), image_file));
    out.push(lit_include());
    out.push(copy_bytes(&p.endpoint));
    proof {
        assert(out.deep_view() =~~= upload_args_spec(*p, image_file@));
    }
    out
}

} // verus!
