//! Validation of hierarchical post names and the derivation of local
//! paths from them.
use vstd::prelude::*;

use crate::post::Error;

verus! {

/// A name segment is acceptable when it is a plain literal component:
/// nonempty, not `.`, not `..`, and free of separator bytes.
pub open spec fn seg_ok(s: Seq<u8>) -> bool {
    &&& s.len() > 0
    &&& s != seq![46u8]
    &&& s != seq![46u8, 46u8]
    &&& forall|i: int| 0 <= i < s.len() ==> s[i] != 47u8
}

/// A post name is acceptable when it has at least two segments, all of
/// them acceptable.
pub open spec fn name_ok(segs: Seq<Seq<u8>>) -> bool {
    segs.len() >= 2 && forall|k: int| 0 <= k < segs.len() ==> seg_ok(#[trigger] segs[k])
}

/// The segments joined with `/` separators.
pub open spec fn join_segs(segs: Seq<Seq<u8>>) -> Seq<u8>
    decreases segs.len(),
{
    if segs.len() == 0 {
        Seq::<u8>::empty()
    } else if segs.len() == 1 {
        segs[0]
    } else {
        join_segs(segs.drop_last()) + seq![47u8] + segs.last()
    }
}

/// The pieces of `s` split on `/` bytes.
pub open spec fn split_segs(s: Seq<u8>) -> Seq<Seq<u8>>
    decreases s.len(),
{
    if s.len() == 0 {
        seq![Seq::<u8>::empty()]
    } else if s.last() == 47 {
        split_segs(s.drop_last()).push(Seq::<u8>::empty())
    } else {
        let r = split_segs(s.drop_last());
        r.update(r.len() - 1, r.last().push(s.last()))
    }
}

/// The on-disk artifact for a name adds a fixed `.md` extension to the
/// joined segments.
pub open spec fn file_path_spec(segs: Seq<Seq<u8>>) -> Seq<u8> {
    join_segs(segs) + seq![46u8, 109u8, 100u8]
}

/// Reports whether one segment is acceptable.
fn check_seg(s: &Vec<u8>) -> (r: bool)
    ensures
        r == seg_ok(s@),
{
    if s.len() == 0 {
        return false;
    }
    if s.len() == 1 && s[0] == 46 {
        proof {
            assert(s@ =~= seq![46u8]);
        }
        return false;
    }
    if s.len() == 2 && s[0] == 46 && s[1] == 46 {
        proof {
            assert(s@ =~= seq![46u8, 46u8]);
        }
        return false;
    }
    let mut i: usize = 0;
    while i < s.len()
        invariant
            0 <= i <= s@.len(),
            forall|j: int| 0 <= j < i ==> s@[j] != 47u8,
        decreases s@.len() - i,
    {
        if s[i] == 47 {
            return false;
        }
        i = i + 1;
    }
    proof {
        if s@ == seq![46u8] {
            assert(s@.len() == 1 && s@[0] == 46);
        }
        if s@ == seq![46u8, 46u8] {
            assert(s@.len() == 2 && s@[0] == 46 && s@[1] == 46);
        }
    }
    true
}

/// Validates the shape of a hierarchical post name: it succeeds exactly
/// on names with at least two segments, every segment a plain literal
/// component; on every other name it fails with `NameInvalid`.
pub fn is_post_name_valid(name: &Vec<Vec<u8>>) -> (r: Result<(), Error>)
    ensures
        r is Ok <==> name_ok(name.deep_view()),
        r is Err ==> r == Err::<(), Error>(Error::NameInvalid),
{
    let ghost dv = name.deep_view();
    proof {
        assert forall|k: int| 0 <= k < dv.len() implies dv[k] == name@[k]@ by {
            assert(dv[k] =~= name@[k]@);
        };
    }
    if name.len() < 2 {
        return Err(Error::NameInvalid);
    }
    let mut k: usize = 0;
    while k < name.len()
        invariant
            0 <= k <= name@.len(),
            dv == name.deep_view(),
            dv.len() == name@.len(),
            forall|j: int| 0 <= j < dv.len() ==> dv[j] == name@[j]@,
            forall|j: int| 0 <= j < k ==> seg_ok(#[trigger] dv[j]),
        decreases name@.len() - k,
    {
        if !check_seg(&name[k]) {
            proof {
                assert(!seg_ok(dv[k as int]));
            }
            return Err(Error::NameInvalid);
        }
        k = k + 1;
    }
    Ok(())
}

/// Joins segments with `/` separators.
pub fn join_segs_vec(segs: &Vec<Vec<u8>>) -> (r: Vec<u8>)
    ensures
        r@ == join_segs(segs.deep_view()),
{
    let ghost dv = segs.deep_view();
    let mut out: Vec<u8> = Vec::new();
    let mut k: usize = 0;
    while k < segs.len()
        invariant
            0 <= k <= segs@.len(),
            dv == segs.deep_view(),
            dv.len() == segs@.len(),
            out@ == join_segs(dv.subrange(0, k as int)),
        decreases segs@.len() - k,
    {
        if k > 0 {
            out.push(47);
        }
        let ghost mid = out@;
        let piece = &segs[k];
        let mut t: usize = 0;
        while t < piece.len()
            invariant
                0 <= t <= piece@.len(),
                out@ == mid + piece@.take(t as int),
            decreases piece@.len() - t,
        {
            out.push(piece[t]);
            proof {
                assert(piece@.take(t + 1) =~= piece@.take(t as int).push(piece@[t as int]));
            }
            t = t + 1;
        }
        proof {
            assert(piece@.take(t as int) =~= piece@);
            assert(piece@ =~= dv[k as int]);
            let pre = dv.subrange(0, k as int);
            let post = dv.subrange(0, k + 1);
            assert(post.drop_last() =~~= pre);
            assert(post.last() == dv[k as int]);
            if k > 0 {
                assert(out@ =~= join_segs(post));
            } else {
                assert(post.len() == 1);
                assert(out@ =~= join_segs(post));
            }
        }
        k = k + 1;
    }
    proof {
        assert(dv.subrange(0, k as int) =~~= dv);
    }
    out
}

/// Derives the on-disk path for a name: the segments joined with `/`,
/// plus the fixed extension.
pub fn file_path_vec(name: &Vec<Vec<u8>>) -> (r: Vec<u8>)
    ensures
        r@ == file_path_spec(name.deep_view()),
{
    let mut out = join_segs_vec(name);
    out.push(46);
    out.push(109);
    out.push(100);
    proof {
        assert(out@ =~= file_path_spec(name.deep_view()));
    }
    out
}

/// Splits a path on `/` bytes.
pub fn split_segs_vec(s: &Vec<u8>) -> (r: Vec<Vec<u8>>)
    ensures
        r.deep_view() == split_segs(s@),
        r.len() >= 1,
{
    let mut segs: Vec<Vec<u8>> = Vec::new();
    let mut cur: Vec<u8> = Vec::new();
    let mut i: usize = 0;
    while i < s.len()
        invariant
            0 <= i <= s@.len(),
            split_segs(s@.take(i as int)) == segs.deep_view().push(cur@),
        decreases s@.len() - i,
    {
        let b = s[i];
        proof {
            assert(s@.take(i + 1).drop_last() =~= s@.take(i as int));
            assert(s@.take(i + 1).last() == s@[i as int]);
        }
        let ghost old_segs = segs.deep_view();
        let ghost old_cur = cur@;
        if b == 47 {
            segs.push(cur);
            cur = Vec::new();
            proof {
                lemma_split_segs_len(s@.take(i as int));
                assert(segs.deep_view() =~~= old_segs.push(old_cur));
                assert(split_segs(s@.take(i + 1)) == split_segs(s@.take(i as int)).push(
                    Seq::<u8>::empty()));
                assert(split_segs(s@.take(i + 1)) =~~= segs.deep_view().push(cur@));
            }
        } else {
            cur.push(b);
            proof {
                let r = split_segs(s@.take(i as int));
                lemma_split_segs_len(s@.take(i as int));
                assert(split_segs(s@.take(i + 1)) == r.update(r.len() - 1, r.last().push(b)));
                assert(r.last() == old_cur);
                assert(split_segs(s@.take(i + 1)) =~~= segs.deep_view().push(cur@));
            }
        }
        i = i + 1;
    }
    proof {
        assert(s@.take(i as int) =~= s@);
    }
    let ghost old_segs = segs.deep_view();
    let ghost cv = cur@;
    segs.push(cur);
    proof {
        lemma_split_segs_len(s@);
        assert(segs.deep_view() =~~= old_segs.push(cv));
    }
    segs
}

pub proof fn lemma_split_segs_len(s: Seq<u8>)
    ensures
        split_segs(s).len() >= 1,
    decreases s.len(),
{
    if s.len() > 0 {
        lemma_split_segs_len(s.drop_last());
    }
}

/// Splitting distributes over a separator between two paths.
proof fn lemma_split_segs_app(a: Seq<u8>, b: Seq<u8>)
    ensures
        split_segs(a + seq![47u8] + b) == split_segs(a) + split_segs(b),
    decreases b.len(),
{
    lemma_split_segs_len(a);
    lemma_split_segs_len(b);
    if b.len() == 0 {
        let s = a + seq![47u8] + b;
        assert(s.drop_last() =~= a);
        assert(s.last() == 47);
        assert(split_segs(s) == split_segs(a).push(Seq::<u8>::empty()));
        assert(split_segs(b) =~~= seq![Seq::<u8>::empty()]);
        assert(split_segs(s) =~~= split_segs(a) + split_segs(b));
    } else {
        let b2 = b.drop_last();
        lemma_split_segs_app(a, b2);
        lemma_split_segs_len(b2);
        let s = a + seq![47u8] + b;
        let s2 = a + seq![47u8] + b2;
        assert(s.drop_last() =~= s2);
        assert(s.last() == b.last());
        if b.last() == 47 {
            assert(split_segs(s) == split_segs(s2).push(Seq::<u8>::empty()));
            assert(split_segs(b) == split_segs(b2).push(Seq::<u8>::empty()));
            assert(split_segs(s) =~~= split_segs(a) + split_segs(b));
        } else {
            let r = split_segs(s2);
            let rb = split_segs(b2);
            assert(split_segs(s) == r.update(r.len() - 1, r.last().push(b.last())));
            assert(split_segs(b) == rb.update(rb.len() - 1, rb.last().push(b.last())));
            assert(r == split_segs(a) + rb);
            assert(r.last() == rb.last());
            assert(split_segs(s) =~~= split_segs(a) + split_segs(b));
        }
    }
}

/// A path without separator bytes is a single segment.
proof fn lemma_split_segs_single(s: Seq<u8>)
    requires
        forall|i: int| 0 <= i < s.len() ==> s[i] != 47,
    ensures
        split_segs(s) == seq![s],
    decreases s.len(),
{
    if s.len() == 0 {
        assert(split_segs(s) =~~= seq![s]);
    } else {
        lemma_split_segs_single(s.drop_last());
        let r = split_segs(s.drop_last());
        assert(r == seq![s.drop_last()]);
        assert(s.last() != 47);
        assert(split_segs(s) == r.update(0, r[0].push(s.last())));
        assert(r[0].push(s.last()) =~= s);
        assert(split_segs(s) =~~= seq![s]);
    }
}

/// Splitting the join of separator-free segments gives the segments
/// back.
pub proof fn lemma_split_join_segs(segs: Seq<Seq<u8>>)
    requires
        segs.len() >= 1,
        forall|k: int, i: int|
            0 <= k < segs.len() && 0 <= i < segs[k].len() ==> #[trigger] segs[k][i] != 47,
    ensures
        split_segs(join_segs(segs)) == segs,
    decreases segs.len(),
{
    if segs.len() == 1 {
        lemma_split_segs_single(segs[0]);
        assert(split_segs(join_segs(segs)) =~~= segs);
    } else {
        lemma_split_join_segs(segs.drop_last());
        lemma_split_segs_single(segs.last());
        lemma_split_segs_app(join_segs(segs.drop_last()), segs.last());
        assert(split_segs(join_segs(segs)) =~~= segs);
    }
}

/// The derived local path determines the name: two acceptable names
/// with the same on-disk path are the same name. Path derivation is
/// one-to-one on acceptable names.
pub proof fn lemma_file_path_injective(a: Seq<Seq<u8>>, b: Seq<Seq<u8>>)
    requires
        name_ok(a),
        name_ok(b),
        file_path_spec(a) == file_path_spec(b),
    ensures
        a == b,
{
    let ja = join_segs(a);
    let jb = join_segs(b);
    assert(ja.len() + 3 == file_path_spec(a).len());
    assert(jb.len() + 3 == file_path_spec(b).len());
    assert(ja =~= jb) by {
        let fa = file_path_spec(a);
        let fb = file_path_spec(b);
        assert(ja.len() == jb.len());
        assert forall|i: int| 0 <= i < ja.len() implies ja[i] == jb[i] by {
            assert(fa[i] == ja[i]);
            assert(fb[i] == jb[i]);
        };
    };
    lemma_split_join_segs(a);
    lemma_split_join_segs(b);
}

} // verus!
