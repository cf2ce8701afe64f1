//! Reconciliation decisions: what a push sends, what a fetch asks for,
//! and how fetched records become local posts.
use vstd::prelude::*;

use crate::bytes::copy_bytes;
use crate::cli::FetchCommand;
use crate::esa_client::{FetchParameter, RecordView, RemotePayload, RemoteRecord};
use crate::name::{join_segs, name_ok, split_segs, split_segs_vec};
use crate::post::{payload_of, Error, Post, PostView};

verus! {

/// The one remote call a push performs: a create for a post that has
/// never been pushed, an update of the stored number otherwise.
pub enum PushAction {
    Create(RemotePayload),
    Update(u64, RemotePayload),
}

/// Decides the push call. A post without a number is created, exactly
/// once and never updated; a post with number `n` is updated at `n` and
/// never created. Either payload is the post's projection, which never
/// carries the number.
pub fn push_plan(post: &Post) -> (r: PushAction)
    requires
        post@.fullname.len() >= 1,
    ensures
        match r {
            PushAction::Create(p) => post@.meta.number is None && p@ == payload_of(post@),
            PushAction::Update(n, p) => post@.meta.number == Some(n) && p@ == payload_of(post@),
        },
{
    let payload = post.to_remote_payload();
    match post.number() {
        Some(n) => PushAction::Update(n, payload),
        None => PushAction::Create(payload),
    }
}

/// `user:`
pub open spec fn lit_user_q() -> Seq<u8> {
    seq![117u8, 115u8, 101u8, 114u8, 58u8]
}

/// `category:`
pub open spec fn lit_category_q() -> Seq<u8> {
    seq![99u8, 97u8, 116u8, 101u8, 103u8, 111u8, 114u8, 121u8, 58u8]
}

/// `name:`
pub open spec fn lit_name_q() -> Seq<u8> {
    seq![110u8, 97u8, 109u8, 101u8, 58u8]
}

/// The query parts a fetch by name sends: the user filter, the category
/// filter from the parent segments, and the name filter from the last.
pub open spec fn name_query(segs: Seq<Seq<u8>>, user: Seq<u8>) -> Seq<Seq<u8>> {
    seq![
        lit_user_q() + user,
        lit_category_q() + join_segs(segs.drop_last()),
        lit_name_q() + segs.last(),
    ]
}

fn lit_user_q_vec() -> (r: Vec<u8>)
    ensures
        r@ == lit_user_q(),
{
    let mut v: Vec<u8> = Vec::new();
    v.push(117);
    v.push(115);
    v.push(101);
    v.push(114);
    v.push(58);
    proof {
        assert(v@ =~= lit_user_q());
    }
    v
}

fn lit_category_q_vec() -> (r: Vec<u8>)
    ensures
        r@ == lit_category_q(),
{
    let mut v: Vec<u8> = Vec::new();
    v.push(99);
    v.push(97);
    v.push(116);
    v.push(101);
    v.push(103);
    v.push(111);
    v.push(114);
    v.push(121);
    v.push(58);
    proof {
        assert(v@ =~= lit_category_q());
    }
    v
}

fn lit_name_q_vec() -> (r: Vec<u8>)
    ensures
        r@ == lit_name_q(),
{
    let mut v: Vec<u8> = Vec::new();
    v.push(110);
    v.push(97);
    v.push(109);
    v.push(101);
    v.push(58);
    proof {
        assert(v@ =~= lit_name_q());
    }
    v
}

fn append_to(mut base: Vec<u8>, tail: &Vec<u8>) -> (r: Vec<u8>)
    ensures
        r@ == base@ + tail@,
{
    let ghost b0 = base@;
    let mut i: usize = 0;
    while i < tail.len()
        invariant
            0 <= i <= tail@.len(),
            base@ == b0 + tail@.take(i as int),
        decreases tail@.len() - i,
    {
        base.push(tail[i]);
        proof {
            assert(tail@.take(i + 1) =~= tail@.take(i as int).push(tail@[i as int]));
        }
        i = i + 1;
    }
    proof {
        assert(tail@.take(i as int) =~= tail@);
    }
    base
}

/// Builds the fetch parameter for a fetch by hierarchical name: the
/// name is validated, then the user, category and name filters are
/// combined into one query.
pub fn fetch_name(post_name: &Vec<Vec<u8>>, user: &Vec<u8>) -> (r: Result<FetchParameter, Error>)
    ensures
        match r {
            Ok(p) => {
                &&& name_ok(post_name.deep_view())
                &&& (p matches FetchParameter::Qstring(q) && q.deep_view() == name_query(
                    post_name.deep_view(),
                    user@,
                ))
            },
            Err(e) => !name_ok(post_name.deep_view()) && e == Error::NameInvalid,
        },
{
    if Post::is_invalid_name(post_name).is_err() {
        return Err(Error::NameInvalid);
    }
    let parent = crate::bytes::parent_segs(post_name);
    let category = crate::name::join_segs_vec(&parent);
    let last = crate::bytes::last_seg(post_name);
    let mut q: Vec<Vec<u8>> = Vec::new();
    q.push(append_to(lit_user_q_vec(), user));
    q.push(append_to(lit_category_q_vec(), &category));
    q.push(append_to(lit_name_q_vec(), &last));
    proof {
        assert(q.deep_view() =~~= name_query(post_name.deep_view(), user@));
    }
    Ok(FetchParameter::Qstring(q))
}

/// Builds the fetch parameter for a fetch by post number.
pub fn fetch_number(number: u64) -> (r: FetchParameter)
    ensures
        r == FetchParameter::PathNumber(number),
{
    FetchParameter::PathNumber(number)
}

/// Builds the fetch parameter that asks for all of the user's posts.
pub fn fetch_all(user: &Vec<u8>) -> (r: FetchParameter)
    ensures
        r matches FetchParameter::Qstring(q) && q.deep_view() == seq![lit_user_q() + user@],
{
    let mut q: Vec<Vec<u8>> = Vec::new();
    q.push(append_to(lit_user_q_vec(), user));
    proof {
        assert(q.deep_view() =~~= seq![lit_user_q() + user@]);
    }
    FetchParameter::Qstring(q)
}

/// Dispatches a fetch command: a name takes precedence, then a number,
/// else everything of the user is fetched.
pub fn fetch(command: &FetchCommand, user: &Vec<u8>) -> (r: Result<FetchParameter, Error>)
    ensures
        match command.name {
            Some(_) => match r {
                Ok(p) => {
                    &&& name_ok(command.name.deep_view()->Some_0)
                    &&& (p matches FetchParameter::Qstring(q) && q.deep_view() == name_query(
                        command.name.deep_view()->Some_0,
                        user@,
                    ))
                },
                Err(e) => !name_ok(command.name.deep_view()->Some_0) && e == Error::NameInvalid,
            },
            None => match command.number {
                Some(n) => r == Ok::<FetchParameter, Error>(FetchParameter::PathNumber(n)),
                None => match r {
                    Ok(p) => p matches FetchParameter::Qstring(q) && q.deep_view() == seq![
                        lit_user_q() + user@,
                    ],
                    Err(_) => false,
                },
            },
        },
{
    match &command.name {
        Some(post_name) => fetch_name(post_name, user),
        None => match command.number {
            Some(n) => Ok(fetch_number(n)),
            None => Ok(fetch_all(user)),
        },
    }
}

/// The post a fetched record materializes as: its path is the record's
/// category split into segments plus its name, and body, tags, flag and
/// number carry over.
pub open spec fn fetched_post_of(r: RecordView) -> PostView {
    PostView {
        fullname: split_segs(r.category->Some_0).push(r.name),
        body: r.body_md,
        meta: crate::codec::MetaView { tags: r.tags, wip: r.wip, number: r.number },
    }
}

/// Materializes one fetched record; a record with a null category is
/// unfiled and yields no post.
pub fn fetched_to_post(record: RemoteRecord) -> (r: Option<Post>)
    ensures
        match record@.category {
            Some(_) => match r {
                Some(p) => p@ == fetched_post_of(record@),
                None => false,
            },
            None => r is None,
        },
{
    let cat = match &record.category {
        None => {
            return None;
        },
        Some(c) => copy_bytes(c),
    };
    let name_copy = copy_bytes(&record.name);
    let ghost catv = cat@;
    let ghost namev = name_copy@;
    let mut segs = split_segs_vec(&cat);
    let ghost sv = segs.deep_view();
    segs.push(name_copy);
    proof {
        assert(segs.deep_view() =~~= sv.push(namev));
        assert(record@.category == Some(catv)) by {
            assert(record@.category matches Some(x) && x =~= catv);
        };
    }
    let p = Post::from_remote(segs, record);
    Some(p)
}

/// The posts that a multi-record response materializes: records with a
/// null category are skipped; every other record yields one post, in
/// response order.
pub open spec fn fetched_posts_spec(rs: Seq<RecordView>) -> Seq<PostView>
    decreases rs.len(),
{
    if rs.len() == 0 {
        Seq::<PostView>::empty()
    } else if rs.last().category is Some {
        fetched_posts_spec(rs.drop_last()).push(fetched_post_of(rs.last()))
    } else {
        fetched_posts_spec(rs.drop_last())
    }
}

/// Materializes a multi-record response.
pub fn fetched_posts(records: Vec<RemoteRecord>) -> (r: Vec<Post>)
    ensures
        r.deep_view() == fetched_posts_spec(records.deep_view()),
{
    let ghost dv = records.deep_view();
    let count = records.len();
    let mut rest = records;
    let mut out: Vec<Post> = Vec::new();
    let mut i: usize = 0;
    while rest.len() > 0
        invariant
            0 <= i <= dv.len(),
            dv.len() == count,
            i + rest@.len() == dv.len(),
            rest.deep_view() == dv.skip(i as int),
            out.deep_view() == fetched_posts_spec(dv.take(i as int)),
        decreases rest@.len(),
    {
        let ghost old_rest = rest.deep_view();
        let ghost old_out = out.deep_view();
        let rec = rest.remove(0);
        let ghost rv = rec.deep_view();
        proof {
            assert(rv == old_rest[0]);
            assert(rv == dv[i as int]);
            assert(rest.deep_view() =~~= old_rest.drop_first());
            assert(old_rest.drop_first() =~~= dv.skip(i + 1));
            assert(dv.take(i + 1).drop_last() =~~= dv.take(i as int));
            assert(dv.take(i + 1).last() == dv[i as int]);
        }
        match fetched_to_post(rec) {
            Some(p) => {
                let ghost pv = p@;
                out.push(p);
                proof {
                    assert(out.deep_view() =~~= old_out.push(pv));
                    assert(out.deep_view() == fetched_posts_spec(dv.take(i + 1)));
                }
            },
            None => {
                proof {
                    assert(out.deep_view() == fetched_posts_spec(dv.take(i + 1)));
                }
            },
        }
        i = i + 1;
    }
    proof {
        assert(dv.take(i as int) =~~= dv);
    }
    out
}

} // verus!
