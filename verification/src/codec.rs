//! The document codec: a post is stored as a metadata block between `+++`
//! delimiter lines, a blank separator line, and the body verbatim.
use vstd::prelude::*;

use crate::bytes::{
    dec_of, is_blank, is_blank_vec, is_delim, is_delim_vec, join_from, join_lines,
    lemma_dec_digits, lemma_join_split, lemma_split_app, lemma_split_join, num_ok, parse_num_spec,
    parse_u64_digits, split_lines, split_lines_vec, strip_cr, strip_cr_vec, trim_back,
    trim_front, u64_to_dec,
};
use crate::post::Error;

verus! {

/// Post metadata: a tag list, a work-in-progress flag, and the remote
/// identifier once one has been assigned.
pub struct Meta {
    pub tags: Vec<Vec<u8>>,
    pub wip: bool,
    pub number: Option<u64>,
}

/// The mathematical value of a `Meta`.
pub ghost struct MetaView {
    pub tags: Seq<Seq<u8>>,
    pub wip: bool,
    pub number: Option<u64>,
}

impl View for Meta {
    type V = MetaView;

    open spec fn view(&self) -> MetaView {
        MetaView { tags: self.tags.deep_view(), wip: self.wip, number: self.number }
    }
}

/// `tags = ` — the key of the tag-list line.
pub open spec fn lit_tags_eq() -> Seq<u8> {
    seq![116u8, 97u8, 103u8, 115u8, 32u8, 61u8, 32u8]
}

/// `wip = ` — the key of the flag line.
pub open spec fn lit_wip_eq() -> Seq<u8> {
    seq![119u8, 105u8, 112u8, 32u8, 61u8, 32u8]
}

/// `number = ` — the key of the identifier line.
pub open spec fn lit_num_eq() -> Seq<u8> {
    seq![110u8, 117u8, 109u8, 98u8, 101u8, 114u8, 32u8, 61u8, 32u8]
}

pub open spec fn lit_true() -> Seq<u8> {
    seq![116u8, 114u8, 117u8, 101u8]
}

pub open spec fn lit_false() -> Seq<u8> {
    seq![102u8, 97u8, 108u8, 115u8, 101u8]
}

/// `+++` — a delimiter line as written by the encoder.
pub open spec fn lit_ppp() -> Seq<u8> {
    seq![43u8, 43u8, 43u8]
}

/// A quote or backslash inside a tag is escaped; every other byte stands
/// for itself.
pub open spec fn esc_byte(b: u8) -> Seq<u8> {
    if b == 34 || b == 92 {
        seq![92u8, b]
    } else {
        seq![b]
    }
}

/// A tag's bytes with quotes and backslashes escaped.
pub open spec fn esc(t: Seq<u8>) -> Seq<u8>
    decreases t.len(),
{
    if t.len() == 0 {
        Seq::<u8>::empty()
    } else {
        esc(t.drop_last()) + esc_byte(t.last())
    }
}

/// One rendered tag: the escaped bytes between double quotes.
pub open spec fn item(t: Seq<u8>) -> Seq<u8> {
    seq![34u8] + esc(t) + seq![34u8]
}

/// The rendered tags, separated by `, `.
pub open spec fn inner_items(ts: Seq<Seq<u8>>) -> Seq<u8>
    decreases ts.len(),
{
    if ts.len() == 0 {
        Seq::<u8>::empty()
    } else if ts.len() == 1 {
        item(ts[0])
    } else {
        inner_items(ts.drop_last()) + seq![44u8, 32u8] + item(ts.last())
    }
}

/// The rendered tag array, brackets included.
pub open spec fn render_tags(ts: Seq<Seq<u8>>) -> Seq<u8> {
    seq![91u8] + inner_items(ts) + seq![93u8]
}

pub open spec fn tags_line(ts: Seq<Seq<u8>>) -> Seq<u8> {
    lit_tags_eq() + render_tags(ts)
}

pub open spec fn wip_line(w: bool) -> Seq<u8> {
    lit_wip_eq() + if w {
        lit_true()
    } else {
        lit_false()
    }
}

pub open spec fn num_line(n: u64) -> Seq<u8> {
    lit_num_eq() + dec_of(n as nat)
}

/// The metadata lines in canonical order; the identifier line is present
/// exactly when a number is.
pub open spec fn meta_lines(m: MetaView) -> Seq<Seq<u8>> {
    match m.number {
        Some(n) => seq![tags_line(m.tags), wip_line(m.wip), num_line(n)],
        None => seq![tags_line(m.tags), wip_line(m.wip)],
    }
}

/// The encoded document: delimited metadata block, one blank line, then
/// the body verbatim.
pub open spec fn encode_spec(m: MetaView, body: Seq<u8>) -> Seq<u8> {
    join_lines(seq![lit_ppp()] + meta_lines(m) + seq![lit_ppp()]) + seq![10u8, 10u8] + body
}

/// States of the tag-array scanner.
#[derive(Debug, Clone, Copy, PartialEq, Eq, Structural)]
pub enum TagSt {
    /// Just after `[`: a first tag or the closing bracket may follow.
    Start,
    /// Inside a quoted tag.
    Str,
    /// Just after a backslash inside a quoted tag.
    Esc,
    /// Just after a closing quote: a comma or the closing bracket follows.
    After,
    /// Just after a comma: the single separating space follows.
    Sp,
    /// Just after `, `: the next tag follows.
    Elem,
    /// Just after `]`: nothing may follow.
    Done,
}

/// Runs the tag-array scanner over `s`. `cur` is the tag being read and
/// `acc` the tags already read.
pub open spec fn tags_sm(s: Seq<u8>, st: TagSt, cur: Seq<u8>, acc: Seq<Seq<u8>>) -> Option<
    Seq<Seq<u8>>,
>
    decreases s.len(),
{
    if s.len() == 0 {
        if st is Done {
            Some(acc)
        } else {
            None
        }
    } else {
        let b = s[0];
        let r = s.drop_first();
        match st {
            TagSt::Start => if b == 34 {
                tags_sm(r, TagSt::Str, cur, acc)
            } else if b == 93 {
                tags_sm(r, TagSt::Done, cur, acc)
            } else {
                None
            },
            TagSt::Str => if b == 34 {
                tags_sm(r, TagSt::After, Seq::<u8>::empty(), acc.push(cur))
            } else if b == 92 {
                tags_sm(r, TagSt::Esc, cur, acc)
            } else {
                tags_sm(r, TagSt::Str, cur.push(b), acc)
            },
            TagSt::Esc => if b == 34 || b == 92 {
                tags_sm(r, TagSt::Str, cur.push(b), acc)
            } else {
                None
            },
            TagSt::After => if b == 44 {
                tags_sm(r, TagSt::Sp, cur, acc)
            } else if b == 93 {
                tags_sm(r, TagSt::Done, cur, acc)
            } else {
                None
            },
            TagSt::Sp => if b == 32 {
                tags_sm(r, TagSt::Elem, cur, acc)
            } else {
                None
            },
            TagSt::Elem => if b == 34 {
                tags_sm(r, TagSt::Str, cur, acc)
            } else {
                None
            },
            TagSt::Done => None,
        }
    }
}

/// Parses a rendered tag array, brackets included.
pub open spec fn parse_tags(v: Seq<u8>) -> Option<Seq<Seq<u8>>> {
    if v.len() >= 1 && v[0] == 91 {
        tags_sm(v.drop_first(), TagSt::Start, Seq::<u8>::empty(), Seq::<Seq<u8>>::empty())
    } else {
        None
    }
}

pub open spec fn starts_with(l: Seq<u8>, p: Seq<u8>) -> bool {
    l.len() >= p.len() && l.subrange(0, p.len() as int) == p
}

/// Folds the metadata lines into the three fields, rejecting a duplicate
/// or unknown key and any malformed value.
pub open spec fn meta_fold(
    ls: Seq<Seq<u8>>,
    ot: Option<Seq<Seq<u8>>>,
    ow: Option<bool>,
    on: Option<u64>,
) -> Option<(Option<Seq<Seq<u8>>>, Option<bool>, Option<u64>)>
    decreases ls.len(),
{
    if ls.len() == 0 {
        Some((ot, ow, on))
    } else {
        let l = strip_cr(ls[0]);
        let r = ls.drop_first();
        if is_blank(l) {
            meta_fold(r, ot, ow, on)
        } else if starts_with(l, lit_tags_eq()) {
            if ot is Some {
                None
            } else {
                match parse_tags(l.skip(7)) {
                    Some(ts) => meta_fold(r, Some(ts), ow, on),
                    None => None,
                }
            }
        } else if starts_with(l, lit_wip_eq()) {
            if ow is Some {
                None
            } else if l.skip(6) == lit_true() {
                meta_fold(r, ot, Some(true), on)
            } else if l.skip(6) == lit_false() {
                meta_fold(r, ot, Some(false), on)
            } else {
                None
            }
        } else if starts_with(l, lit_num_eq()) {
            if on is Some {
                None
            } else {
                match parse_num_spec(l.skip(9)) {
                    Some(n) => meta_fold(r, ot, ow, Some(n)),
                    None => None,
                }
            }
        } else {
            None
        }
    }
}

/// The metadata denoted by the lines of a metadata block, if any. The tag
/// list and the flag are required; the identifier is optional.
pub open spec fn meta_of(ls: Seq<Seq<u8>>) -> Option<MetaView> {
    match meta_fold(ls, None, None, None) {
        Some((Some(ts), Some(w), on)) => Some(MetaView { tags: ts, wip: w, number: on }),
        _ => None,
    }
}

/// The index of the first non-blank line.
pub open spec fn first_nonblank(ls: Seq<Seq<u8>>) -> int
    decreases ls.len(),
{
    if ls.len() == 0 {
        0
    } else if is_blank(ls[0]) {
        1 + first_nonblank(ls.drop_first())
    } else {
        0
    }
}

/// The offset of the first delimiter line, if any.
pub open spec fn find_delim(ls: Seq<Seq<u8>>) -> Option<int>
    decreases ls.len(),
{
    if ls.len() == 0 {
        None
    } else if is_delim(ls[0]) {
        Some(0int)
    } else {
        match find_delim(ls.drop_first()) {
            Some(k) => Some(k + 1),
            None => None,
        }
    }
}

/// The meaning of a document text: its metadata and body, or the error
/// that rejecting it produces. Blank lines may precede the opening
/// delimiter; the metadata block runs to the next delimiter line; after
/// it, at most one leading empty line is stripped from the body.
pub open spec fn doc_of(text: Seq<u8>) -> Result<(MetaView, Seq<u8>), Error> {
    let ls = split_lines(text);
    let i0 = first_nonblank(ls);
    if i0 == ls.len() {
        Err(Error::PostFormatInvalid)
    } else if !is_delim(ls[i0]) {
        Err(Error::PostFormatInvalid)
    } else {
        match find_delim(ls.skip(i0 + 1)) {
            None => Err(Error::PostFormatInvalid),
            Some(k) => {
                let j = i0 + 1 + k;
                match meta_of(ls.subrange(i0 + 1, j)) {
                    None => Err(Error::MetaTomlInvalid),
                    Some(m) => {
                        let rest = ls.skip(j + 1);
                        let body = if rest.len() == 0 {
                            Seq::<u8>::empty()
                        } else if strip_cr(rest[0]).len() == 0 {
                            join_lines(rest.drop_first())
                        } else {
                            join_lines(rest)
                        };
                        Ok((m, body))
                    },
                }
            },
        }
    }
}

proof fn lemma_first_nonblank_bounds(ls: Seq<Seq<u8>>)
    ensures
        0 <= first_nonblank(ls) <= ls.len(),
        first_nonblank(ls) < ls.len() ==> !is_blank(ls[first_nonblank(ls)]),
        forall|k: int| 0 <= k < first_nonblank(ls) ==> is_blank(ls[k]),
    decreases ls.len(),
{
    if ls.len() > 0 && is_blank(ls[0]) {
        lemma_first_nonblank_bounds(ls.drop_first());
        let r = ls.drop_first();
        assert forall|k: int| 0 <= k < first_nonblank(ls) implies is_blank(ls[k]) by {
            if k >= 1 {
                assert(is_blank(r[k - 1]));
            }
        };
    }
}

/// Connects a linear scan for the first non-blank line to the spec.
proof fn lemma_first_nonblank_char(ls: Seq<Seq<u8>>, i: int)
    requires
        0 <= i <= ls.len(),
        forall|k: int| 0 <= k < i ==> is_blank(ls[k]),
        i < ls.len() ==> !is_blank(ls[i]),
    ensures
        first_nonblank(ls) == i,
    decreases ls.len(),
{
    if ls.len() == 0 {
    } else if is_blank(ls[0]) {
        assert(i >= 1);
        lemma_first_nonblank_char(ls.drop_first(), i - 1);
    } else {
        assert(i == 0);
    }
}

/// Connects a linear scan for the first delimiter line to the spec.
proof fn lemma_find_delim_char(ls: Seq<Seq<u8>>, i: int)
    requires
        0 <= i <= ls.len(),
        forall|k: int| 0 <= k < i ==> !is_delim(ls[k]),
        i < ls.len() ==> is_delim(ls[i]),
    ensures
        i < ls.len() ==> find_delim(ls) == Some(i),
        i == ls.len() ==> find_delim(ls) == None::<int>,
    decreases ls.len(),
{
    if ls.len() == 0 {
    } else if is_delim(ls[0]) {
        assert(i == 0);
    } else {
        assert(i >= 1);
        lemma_find_delim_char(ls.drop_first(), i - 1);
    }
}

/// Appends one rendered tag to `out`.
fn push_item(out: &mut Vec<u8>, t: &Vec<u8>)
    ensures
        final(out)@ == old(out)@ + item(t@),
{
    let ghost base = out@;
    out.push(34);
    let mut i: usize = 0;
    while i < t.len()
        invariant
            0 <= i <= t@.len(),
            out@ == base + seq![34u8] + esc(t@.take(i as int)),
        decreases t@.len() - i,
    {
        let b = t[i];
        proof {
            assert(t@.take(i + 1).drop_last() =~= t@.take(i as int));
            assert(t@.take(i + 1).last() == t@[i as int]);
        }
        if b == 34 || b == 92 {
            out.push(92);
            out.push(b);
        } else {
            out.push(b);
        }
        proof {
            assert(out@ =~= base + seq![34u8] + esc(t@.take(i + 1)));
        }
        i = i + 1;
    }
    out.push(34);
    proof {
        assert(t@.take(i as int) =~= t@);
        assert(out@ =~= base + item(t@));
    }
}

/// Renders the tag array, brackets included.
fn render_tags_vec(tags: &Vec<Vec<u8>>) -> (r: Vec<u8>)
    ensures
        r@ == render_tags(tags.deep_view()),
{
    let ghost dv = tags.deep_view();
    let mut out: Vec<u8> = Vec::new();
    out.push(91);
    proof {
        assert(out@ =~= seq![91u8] + inner_items(dv.take(0)));
    }
    let mut k: usize = 0;
    while k < tags.len()
        invariant
            0 <= k <= tags@.len(),
            dv == tags.deep_view(),
            dv.len() == tags@.len(),
            out@ == seq![91u8] + inner_items(dv.take(k as int)),
        decreases tags@.len() - k,
    {
        if k > 0 {
            out.push(44);
            out.push(32);
        }
        push_item(&mut out, &tags[k]);
        proof {
            assert(dv[k as int] == tags@[k as int]@);
            assert(dv.take(k + 1).drop_last() =~~= dv.take(k as int));
            assert(dv.take(k + 1).last() == dv[k as int]);
            if k == 0 {
                assert(inner_items(dv.take(1)) == item(dv[0]));
                assert(out@ =~= seq![91u8] + inner_items(dv.take(k + 1)));
            } else {
                assert(inner_items(dv.take(k + 1)) == inner_items(dv.take(k as int)) + seq![
                    44u8,
                    32u8,
                ] + item(dv[k as int]));
                assert(out@ =~= seq![91u8] + inner_items(dv.take(k + 1)));
            }
        }
        k = k + 1;
    }
    out.push(93);
    proof {
        assert(dv.take(k as int) =~~= dv);
        assert(out@ =~= render_tags(dv));
    }
    out
}

/// The flat shape of an encoded document.
pub proof fn lemma_encode_flat(m: MetaView, body: Seq<u8>)
    ensures
        encode_spec(m, body) == lit_ppp() + seq![10u8] + tags_line(m.tags) + seq![10u8] + wip_line(
            m.wip,
        ) + seq![10u8] + (match m.number {
            Some(n) => num_line(n) + seq![10u8],
            None => Seq::<u8>::empty(),
        }) + lit_ppp() + seq![10u8, 10u8] + body,
{
    let all = seq![lit_ppp()] + meta_lines(m) + seq![lit_ppp()];
    match m.number {
        Some(n) => {
            assert(all.len() == 5);
            assert(all =~~= seq![lit_ppp(), tags_line(m.tags), wip_line(m.wip), num_line(n), lit_ppp()]);
            assert(all.drop_last() =~~= seq![lit_ppp(), tags_line(m.tags), wip_line(m.wip), num_line(n)]);
            let a4 = seq![lit_ppp(), tags_line(m.tags), wip_line(m.wip), num_line(n)];
            assert(a4.drop_last() =~~= seq![lit_ppp(), tags_line(m.tags), wip_line(m.wip)]);
            let a3 = seq![lit_ppp(), tags_line(m.tags), wip_line(m.wip)];
            assert(a3.drop_last() =~~= seq![lit_ppp(), tags_line(m.tags)]);
            let a2 = seq![lit_ppp(), tags_line(m.tags)];
            assert(a2.drop_last() =~~= seq![lit_ppp()]);
            assert(join_lines(seq![lit_ppp()]) == lit_ppp());
            assert(join_lines(a2) == lit_ppp() + seq![10u8] + tags_line(m.tags));
            assert(join_lines(a3) == join_lines(a2) + seq![10u8] + wip_line(m.wip));
            assert(join_lines(a4) == join_lines(a3) + seq![10u8] + num_line(n));
            assert(join_lines(all) == join_lines(a4) + seq![10u8] + lit_ppp());
            assert(encode_spec(m, body) =~= lit_ppp() + seq![10u8] + tags_line(m.tags) + seq![10u8]
                + wip_line(m.wip) + seq![10u8] + (num_line(n) + seq![10u8]) + lit_ppp() + seq![
                10u8,
                10u8,
            ] + body);
        },
        None => {
            assert(all.len() == 4);
            assert(all =~~= seq![lit_ppp(), tags_line(m.tags), wip_line(m.wip), lit_ppp()]);
            assert(all.drop_last() =~~= seq![lit_ppp(), tags_line(m.tags), wip_line(m.wip)]);
            let a3 = seq![lit_ppp(), tags_line(m.tags), wip_line(m.wip)];
            assert(a3.drop_last() =~~= seq![lit_ppp(), tags_line(m.tags)]);
            let a2 = seq![lit_ppp(), tags_line(m.tags)];
            assert(a2.drop_last() =~~= seq![lit_ppp()]);
            assert(join_lines(seq![lit_ppp()]) == lit_ppp());
            assert(join_lines(a2) == lit_ppp() + seq![10u8] + tags_line(m.tags));
            assert(join_lines(a3) == join_lines(a2) + seq![10u8] + wip_line(m.wip));
            assert(join_lines(all) == join_lines(a3) + seq![10u8] + lit_ppp());
            assert(encode_spec(m, body) =~= lit_ppp() + seq![10u8] + tags_line(m.tags) + seq![10u8]
                + wip_line(m.wip) + seq![10u8] + Seq::<u8>::empty() + lit_ppp() + seq![10u8, 10u8]
                + body);
        },
    }
}

/// Serializes metadata and body into the canonical document text.
#[verifier::rlimit(60)]
pub fn encode(meta: &Meta, body: &Vec<u8>) -> (r: Vec<u8>)
    ensures
        r@ == encode_spec(meta@, body@),
{
    let mut out: Vec<u8> = Vec::new();
    out.push(43);
    out.push(43);
    out.push(43);
    out.push(10);
    // tags line
    out.push(116);
    out.push(97);
    out.push(103);
    out.push(115);
    out.push(32);
    out.push(61);
    out.push(32);
    let mut arr = render_tags_vec(&meta.tags);
    out.append(&mut arr);
    out.push(10);
    proof {
        assert(out@ =~= lit_ppp() + seq![10u8] + tags_line(meta@.tags) + seq![10u8]);
    }
    let ghost pre_tags = out@;
    // wip line
    out.push(119);
    out.push(105);
    out.push(112);
    out.push(32);
    out.push(61);
    out.push(32);
    if meta.wip {
        out.push(116);
        out.push(114);
        out.push(117);
        out.push(101);
    } else {
        out.push(102);
        out.push(97);
        out.push(108);
        out.push(115);
        out.push(101);
    }
    out.push(10);
    proof {
        assert(out@ =~= pre_tags + wip_line(meta@.wip) + seq![10u8]);
    }
    let ghost pre_wip = out@;
    // number line, when a number is present
    match meta.number {
        Some(n) => {
            out.push(110);
            out.push(117);
            out.push(109);
            out.push(98);
            out.push(101);
            out.push(114);
            out.push(32);
            out.push(61);
            out.push(32);
            let mut digits = u64_to_dec(n);
            out.append(&mut digits);
            out.push(10);
            proof {
                assert(out@ =~= pre_wip + num_line(n) + seq![10u8]);
            }
        },
        None => {},
    }
    let ghost pre_num = out@;
    // closing delimiter and the blank separator line
    out.push(43);
    out.push(43);
    out.push(43);
    out.push(10);
    out.push(10);
    let ghost pre_body = out@;
    let mut t: usize = 0;
    while t < body.len()
        invariant
            0 <= t <= body@.len(),
            out@ == pre_body + body@.take(t as int),
        decreases body@.len() - t,
    {
        out.push(body[t]);
        proof {
            assert(body@.take(t + 1) =~= body@.take(t as int).push(body@[t as int]));
        }
        t = t + 1;
    }
    proof {
        lemma_encode_flat(meta@, body@);
        assert(body@.take(t as int) =~= body@);
        assert(out@ =~= pre_num + lit_ppp() + seq![10u8, 10u8] + body@);
        match meta@.number {
            Some(n) => {
                assert(out@ =~= encode_spec(meta@, body@));
            },
            None => {
                assert(pre_num =~= pre_wip + Seq::<u8>::empty());
                assert(out@ =~= encode_spec(meta@, body@));
            },
        }
    }
    out
}

/// No tag may contain a newline byte; a newline would break the line
/// structure of the rendered metadata block.
pub open spec fn tags_no_newline(ts: Seq<Seq<u8>>) -> bool {
    forall|k: int, i: int|
        0 <= k < ts.len() && 0 <= i < ts[k].len() ==> #[trigger] ts[k][i] != 10
}

proof fn lemma_esc_cons(t: Seq<u8>)
    requires
        t.len() >= 1,
    ensures
        esc(t) == esc_byte(t[0]) + esc(t.drop_first()),
    decreases t.len(),
{
    if t.len() == 1 {
        assert(t.drop_last() =~= Seq::<u8>::empty());
        assert(t.drop_first() =~= Seq::<u8>::empty());
        assert(t.last() == t[0]);
        assert(esc(t) =~= esc_byte(t[0]) + esc(t.drop_first()));
    } else {
        let p = t.drop_last();
        lemma_esc_cons(p);
        assert(t.drop_first().drop_last() =~= p.drop_first());
        assert(t.drop_first().last() == t.last());
        assert(esc(t.drop_first()) == esc(p.drop_first()) + esc_byte(t.last()));
        assert(p[0] == t[0]);
        assert(esc(t) == esc(p) + esc_byte(t.last()));
        assert(esc(t) =~= esc_byte(t[0]) + esc(t.drop_first()));
    }
}

/// Scanning the escaped bytes of `t` from inside a quoted tag appends `t`
/// to the tag being read.
proof fn lemma_sm_esc(t: Seq<u8>, suf: Seq<u8>, cur: Seq<u8>, acc: Seq<Seq<u8>>)
    ensures
        tags_sm(esc(t) + suf, TagSt::Str, cur, acc) == tags_sm(suf, TagSt::Str, cur + t, acc),
    decreases t.len(),
{
    if t.len() == 0 {
        assert(esc(t) + suf =~= suf);
        assert(cur + t =~= cur);
    } else {
        lemma_esc_cons(t);
        let b = t[0];
        let t2 = t.drop_first();
        let s = esc(t) + suf;
        if b == 34 || b == 92 {
            assert(s =~= seq![92u8, b] + (esc(t2) + suf));
            let s2 = seq![b] + (esc(t2) + suf);
            assert(s[0] == 92 && s.drop_first() =~= s2);
            assert(tags_sm(s, TagSt::Str, cur, acc) == tags_sm(s2, TagSt::Esc, cur, acc));
            assert(s2[0] == b && s2.drop_first() =~= esc(t2) + suf);
            assert(tags_sm(s2, TagSt::Esc, cur, acc) == tags_sm(
                esc(t2) + suf,
                TagSt::Str,
                cur.push(b),
                acc,
            ));
        } else {
            assert(s =~= seq![b] + (esc(t2) + suf));
            assert(s[0] == b && s.drop_first() =~= esc(t2) + suf);
            assert(tags_sm(s, TagSt::Str, cur, acc) == tags_sm(
                esc(t2) + suf,
                TagSt::Str,
                cur.push(b),
                acc,
            ));
        }
        lemma_sm_esc(t2, suf, cur.push(b), acc);
        assert(cur.push(b) + t2 =~= cur + t);
    }
}

/// Scanning the rendered items of a nonempty tag list reads exactly those
/// tags, leaving the scanner just after a closing quote.
proof fn lemma_sm_items(ts: Seq<Seq<u8>>, suf: Seq<u8>, acc: Seq<Seq<u8>>)
    requires
        ts.len() >= 1,
    ensures
        tags_sm(inner_items(ts) + suf, TagSt::Start, Seq::<u8>::empty(), acc) == tags_sm(
            suf,
            TagSt::After,
            Seq::<u8>::empty(),
            acc + ts,
        ),
    decreases ts.len(),
{
    if ts.len() == 1 {
        let t = ts[0];
        let s = inner_items(ts) + suf;
        assert(inner_items(ts) == item(t));
        assert(s =~= seq![34u8] + (esc(t) + (seq![34u8] + suf)));
        assert(s[0] == 34 && s.drop_first() =~= esc(t) + (seq![34u8] + suf));
        assert(tags_sm(s, TagSt::Start, Seq::<u8>::empty(), acc) == tags_sm(
            esc(t) + (seq![34u8] + suf),
            TagSt::Str,
            Seq::<u8>::empty(),
            acc,
        ));
        lemma_sm_esc(t, seq![34u8] + suf, Seq::<u8>::empty(), acc);
        assert(Seq::<u8>::empty() + t =~= t);
        let s3 = seq![34u8] + suf;
        assert(s3[0] == 34 && s3.drop_first() =~= suf);
        assert(tags_sm(s3, TagSt::Str, t, acc) == tags_sm(
            suf,
            TagSt::After,
            Seq::<u8>::empty(),
            acc.push(t),
        ));
        assert(acc.push(t) =~~= acc + ts);
    } else {
        let p = ts.drop_last();
        let t = ts.last();
        assert(inner_items(ts) == inner_items(p) + seq![44u8, 32u8] + item(t));
        let mid = seq![44u8, 32u8] + (item(t) + suf);
        assert(inner_items(ts) + suf =~= inner_items(p) + mid);
        lemma_sm_items(p, mid, acc);
        // after the items of `p`: `, "t"` then `suf`
        let s2 = seq![32u8] + (item(t) + suf);
        assert(mid[0] == 44 && mid.drop_first() =~= s2);
        assert(tags_sm(mid, TagSt::After, Seq::<u8>::empty(), acc + p) == tags_sm(
            s2,
            TagSt::Sp,
            Seq::<u8>::empty(),
            acc + p,
        ));
        let s3 = item(t) + suf;
        assert(s2[0] == 32 && s2.drop_first() =~= s3);
        assert(tags_sm(s2, TagSt::Sp, Seq::<u8>::empty(), acc + p) == tags_sm(
            s3,
            TagSt::Elem,
            Seq::<u8>::empty(),
            acc + p,
        ));
        assert(s3 =~= seq![34u8] + (esc(t) + (seq![34u8] + suf)));
        assert(s3[0] == 34 && s3.drop_first() =~= esc(t) + (seq![34u8] + suf));
        assert(tags_sm(s3, TagSt::Elem, Seq::<u8>::empty(), acc + p) == tags_sm(
            esc(t) + (seq![34u8] + suf),
            TagSt::Str,
            Seq::<u8>::empty(),
            acc + p,
        ));
        lemma_sm_esc(t, seq![34u8] + suf, Seq::<u8>::empty(), acc + p);
        assert(Seq::<u8>::empty() + t =~= t);
        let s4 = seq![34u8] + suf;
        assert(s4[0] == 34 && s4.drop_first() =~= suf);
        assert(tags_sm(s4, TagSt::Str, t, acc + p) == tags_sm(
            suf,
            TagSt::After,
            Seq::<u8>::empty(),
            (acc + p).push(t),
        ));
        assert((acc + p).push(t) =~~= acc + ts);
    }
}

/// Parsing a rendered tag array gives the tags back.
proof fn lemma_parse_render(ts: Seq<Seq<u8>>)
    ensures
        parse_tags(render_tags(ts)) == Some(ts),
{
    let v = render_tags(ts);
    assert(v[0] == 91);
    assert(v.len() >= 1);
    let e = Seq::<Seq<u8>>::empty();
    let s = seq![93u8];
    assert(s[0] == 93 && s.drop_first() =~= Seq::<u8>::empty());
    if ts.len() == 0 {
        assert(inner_items(ts) == Seq::<u8>::empty());
        assert(v.drop_first() =~= s);
        assert(tags_sm(s, TagSt::Start, Seq::<u8>::empty(), e) == tags_sm(
            Seq::<u8>::empty(),
            TagSt::Done,
            Seq::<u8>::empty(),
            e,
        ));
        assert(tags_sm(Seq::<u8>::empty(), TagSt::Done, Seq::<u8>::empty(), e) == Some(e));
        assert(e =~~= ts);
    } else {
        assert(v.drop_first() =~= inner_items(ts) + s);
        lemma_sm_items(ts, s, e);
        assert(tags_sm(s, TagSt::After, Seq::<u8>::empty(), e + ts) == tags_sm(
            Seq::<u8>::empty(),
            TagSt::Done,
            Seq::<u8>::empty(),
            e + ts,
        ));
        assert(tags_sm(Seq::<u8>::empty(), TagSt::Done, Seq::<u8>::empty(), e + ts) == Some(
            e + ts,
        ));
        assert(e + ts =~~= ts);
    }
}

proof fn lemma_esc_no_newline(t: Seq<u8>)
    requires
        forall|i: int| 0 <= i < t.len() ==> t[i] != 10,
    ensures
        forall|i: int| 0 <= i < esc(t).len() ==> esc(t)[i] != 10,
    decreases t.len(),
{
    if t.len() > 0 {
        let p = t.drop_last();
        assert(forall|i: int| 0 <= i < p.len() ==> p[i] != 10);
        lemma_esc_no_newline(p);
        assert(t.last() != 10);
        assert(forall|i: int|
            0 <= i < esc(t).len() ==> esc(t)[i] == if i < esc(p).len() {
                esc(p)[i]
            } else {
                esc_byte(t.last())[i - esc(p).len()]
            });
    }
}

proof fn lemma_inner_no_newline(ts: Seq<Seq<u8>>)
    requires
        tags_no_newline(ts),
    ensures
        forall|i: int| 0 <= i < inner_items(ts).len() ==> inner_items(ts)[i] != 10,
    decreases ts.len(),
{
    if ts.len() == 0 {
    } else if ts.len() == 1 {
        assert(forall|i: int| 0 <= i < ts[0].len() ==> ts[0][i] != 10);
        lemma_esc_no_newline(ts[0]);
        let t = ts[0];
        assert(inner_items(ts) == seq![34u8] + esc(t) + seq![34u8]);
        assert forall|i: int| 0 <= i < inner_items(ts).len() implies inner_items(ts)[i] != 10 by {
            if 1 <= i < 1 + esc(t).len() {
                assert(inner_items(ts)[i] == esc(t)[i - 1]);
            }
        };
    } else {
        let p = ts.drop_last();
        assert(tags_no_newline(p)) by {
            assert(forall|k: int, i: int|
                0 <= k < p.len() && 0 <= i < p[k].len() ==> #[trigger] p[k][i] == ts[k][i]);
        };
        lemma_inner_no_newline(p);
        let t = ts.last();
        assert(forall|i: int| 0 <= i < t.len() ==> t[i] != 10);
        lemma_esc_no_newline(t);
        let pre = inner_items(p) + seq![44u8, 32u8];
        assert(inner_items(ts) == pre + item(t));
        assert forall|i: int| 0 <= i < inner_items(ts).len() implies inner_items(ts)[i] != 10 by {
            if i < pre.len() {
                assert(inner_items(ts)[i] == pre[i]);
                if i < inner_items(p).len() {
                    assert(pre[i] == inner_items(p)[i]);
                }
            } else {
                assert(inner_items(ts)[i] == item(t)[i - pre.len()]);
                let k = i - pre.len();
                if 1 <= k < 1 + esc(t).len() {
                    assert(item(t)[k] == esc(t)[k - 1]);
                }
            }
        };
    }
}

/// Shape of the tag-list line: its key, its first and last bytes, and
/// that it is free of newline bytes.
proof fn lemma_tags_line_shape(ts: Seq<Seq<u8>>)
    requires
        tags_no_newline(ts),
    ensures
        !is_blank(tags_line(ts)),
        !is_delim(tags_line(ts)),
        strip_cr(tags_line(ts)) == tags_line(ts),
        forall|i: int| 0 <= i < tags_line(ts).len() ==> tags_line(ts)[i] != 10,
        starts_with(tags_line(ts), lit_tags_eq()),
        !starts_with(tags_line(ts), lit_wip_eq()),
        !starts_with(tags_line(ts), lit_num_eq()),
        tags_line(ts).skip(7) == render_tags(ts),
{
    let tl = tags_line(ts);
    assert(tl[0] == 116);
    assert(!is_blank(tl));
    lemma_inner_no_newline(ts);
    let rt = render_tags(ts);
    assert(rt[0] == 91);
    assert(rt.last() == 93);
    assert forall|i: int| 0 <= i < tl.len() implies tl[i] != 10 by {
        if i >= 7 {
            assert(tl[i] == rt[i - 7]);
            if 1 <= i - 7 < rt.len() - 1 {
                assert(rt[i - 7] == inner_items(ts)[i - 8]);
            }
        }
    };
    assert(tl.last() == 93);
    assert(trim_front(tl) == tl);
    assert(trim_back(tl) == tl);
    if is_delim(tl) {
        assert(tl == seq![43u8, 43u8, 43u8]);
        assert(tl[0] == 43);
    }
    assert(tl.subrange(0, 7) =~= lit_tags_eq());
    if starts_with(tl, lit_wip_eq()) {
        assert(tl.subrange(0, 6)[0] == tl[0]);
    }
    if starts_with(tl, lit_num_eq()) {
        assert(tl.subrange(0, 9)[0] == tl[0]);
    }
    assert(tl.skip(7) =~= render_tags(ts));
}

/// Shape of the flag line.
proof fn lemma_wip_line_shape(w: bool)
    ensures
        !is_blank(wip_line(w)),
        !is_delim(wip_line(w)),
        strip_cr(wip_line(w)) == wip_line(w),
        forall|i: int| 0 <= i < wip_line(w).len() ==> wip_line(w)[i] != 10,
        !starts_with(wip_line(w), lit_tags_eq()),
        starts_with(wip_line(w), lit_wip_eq()),
        !starts_with(wip_line(w), lit_num_eq()),
        w ==> wip_line(w).skip(6) == lit_true(),
        !w ==> wip_line(w).skip(6) == lit_false() && wip_line(w).skip(6) != lit_true(),
{
    let wl = wip_line(w);
    assert(wl[0] == 119);
    assert(!is_blank(wl));
    if w {
        assert(wl.last() == lit_true().last());
        assert(wl.skip(6) =~= lit_true());
    } else {
        assert(wl.last() == lit_false().last());
        assert(wl.skip(6) =~= lit_false());
        assert(lit_false().len() != lit_true().len());
    }
    assert(wl.last() == 101);
    assert(forall|i: int| 0 <= i < wl.len() ==> wl[i] != 10);
    assert(trim_front(wl) == wl);
    assert(trim_back(wl) == wl);
    if is_delim(wl) {
        assert(wl == seq![43u8, 43u8, 43u8]);
        assert(wl[0] == 43);
    }
    assert(wl.subrange(0, 6) =~= lit_wip_eq());
    if starts_with(wl, lit_tags_eq()) {
        assert(wl.subrange(0, 7)[0] == wl[0]);
    }
    if starts_with(wl, lit_num_eq()) {
        assert(wl.subrange(0, 9)[0] == wl[0]);
    }
}

/// Shape of the identifier line.
proof fn lemma_num_line_shape(n: u64)
    ensures
        !is_blank(num_line(n)),
        !is_delim(num_line(n)),
        strip_cr(num_line(n)) == num_line(n),
        forall|i: int| 0 <= i < num_line(n).len() ==> num_line(n)[i] != 10,
        !starts_with(num_line(n), lit_tags_eq()),
        !starts_with(num_line(n), lit_wip_eq()),
        starts_with(num_line(n), lit_num_eq()),
        num_line(n).skip(9) == dec_of(n as nat),
        parse_num_spec(dec_of(n as nat)) == Some(n),
{
    let nl = num_line(n);
    lemma_dec_digits(n as nat);
    assert(nl[0] == 110);
    assert(!is_blank(nl));
    let d = dec_of(n as nat);
    assert(nl.last() == d.last()) by {
        assert(d.len() >= 1);
    };
    assert(48 <= d.last() <= 57);
    assert forall|i: int| 0 <= i < nl.len() implies nl[i] != 10 by {
        if i >= 9 {
            assert(nl[i] == d[i - 9]);
        }
    };
    assert(trim_front(nl) == nl);
    assert(trim_back(nl) == nl);
    if is_delim(nl) {
        assert(nl == seq![43u8, 43u8, 43u8]);
        assert(nl[0] == 43);
    }
    assert(nl.subrange(0, 9) =~= lit_num_eq());
    if starts_with(nl, lit_tags_eq()) {
        assert(nl.subrange(0, 7)[0] == nl[0]);
    }
    if starts_with(nl, lit_wip_eq()) {
        assert(nl.subrange(0, 6)[0] == nl[0]);
    }
    assert(nl.skip(9) =~= d);
    assert(num_ok(d));
}

/// Parsing the rendered metadata lines gives the metadata back.
proof fn lemma_meta_lines_parse(m: MetaView)
    requires
        tags_no_newline(m.tags),
    ensures
        meta_of(meta_lines(m)) == Some(m),
{
    let tl = tags_line(m.tags);
    let wl = wip_line(m.wip);
    lemma_tags_line_shape(m.tags);
    lemma_wip_line_shape(m.wip);
    lemma_parse_render(m.tags);
    let mls = meta_lines(m);
    let e = Seq::<Seq<u8>>::empty();
    match m.number {
        Some(n) => {
            let nl = num_line(n);
            lemma_num_line_shape(n);
            assert(mls[0] == tl && mls.drop_first() =~~= seq![wl, nl]);
            assert(meta_fold(mls, None, None, None) == meta_fold(
                seq![wl, nl],
                Some(m.tags),
                None,
                None,
            ));
            assert(seq![wl, nl][0] == wl && seq![wl, nl].drop_first() =~~= seq![nl]);
            assert(meta_fold(seq![wl, nl], Some(m.tags), None, None) == meta_fold(
                seq![nl],
                Some(m.tags),
                Some(m.wip),
                None,
            ));
            assert(seq![nl][0] == nl && seq![nl].drop_first() =~~= e);
            assert(meta_fold(seq![nl], Some(m.tags), Some(m.wip), None) == meta_fold(
                e,
                Some(m.tags),
                Some(m.wip),
                Some(n),
            ));
            assert(meta_fold(e, Some(m.tags), Some(m.wip), Some(n)) == Some(
                (Some(m.tags), Some(m.wip), Some(n)),
            ));
            assert(MetaView { tags: m.tags, wip: m.wip, number: m.number } == m);
        },
        None => {
            assert(mls[0] == tl && mls.drop_first() =~~= seq![wl]);
            assert(meta_fold(mls, None, None, None) == meta_fold(
                seq![wl],
                Some(m.tags),
                None,
                None,
            ));
            assert(seq![wl][0] == wl && seq![wl].drop_first() =~~= e);
            assert(meta_fold(seq![wl], Some(m.tags), None, None) == meta_fold(
                e,
                Some(m.tags),
                Some(m.wip),
                None,
            ));
            assert(meta_fold(e, Some(m.tags), Some(m.wip), None) == Some(
                (Some(m.tags), Some(m.wip), None::<u64>),
            ));
            assert(MetaView { tags: m.tags, wip: m.wip, number: m.number } == m);
        },
    }
}

/// The metadata lines are neither blank nor delimiter lines and hold no
/// newline byte.
proof fn lemma_meta_lines_shape(m: MetaView)
    requires
        tags_no_newline(m.tags),
    ensures
        forall|k: int| 0 <= k < meta_lines(m).len() ==> !is_blank(meta_lines(m)[k]),
        forall|k: int| 0 <= k < meta_lines(m).len() ==> !is_delim(meta_lines(m)[k]),
        forall|k: int, i: int|
            0 <= k < meta_lines(m).len() && 0 <= i < meta_lines(m)[k].len()
                ==> #[trigger] meta_lines(m)[k][i] != 10,
        meta_of(meta_lines(m)) == Some(m),
{
    lemma_tags_line_shape(m.tags);
    lemma_wip_line_shape(m.wip);
    lemma_meta_lines_parse(m);
    let mls = meta_lines(m);
    match m.number {
        Some(n) => {
            lemma_num_line_shape(n);
            assert(mls.len() == 3);
            assert(mls[0] == tags_line(m.tags));
            assert(mls[1] == wip_line(m.wip));
            assert(mls[2] == num_line(n));
        },
        None => {
            assert(mls.len() == 2);
            assert(mls[0] == tags_line(m.tags));
            assert(mls[1] == wip_line(m.wip));
        },
    }
}

/// Round trip: decoding an encoded document gives the metadata and body
/// back exactly, for every metadata value whose tags are free of newline
/// bytes and for every body.
pub proof fn lemma_round_trip(m: MetaView, body: Seq<u8>)
    requires
        tags_no_newline(m.tags),
    ensures
        doc_of(encode_spec(m, body)) == Ok::<(MetaView, Seq<u8>), Error>((m, body)),
{
    let hdr = seq![lit_ppp()] + meta_lines(m) + seq![lit_ppp()];
    let text = encode_spec(m, body);
    lemma_meta_lines_shape(m);
    // split the text back into its lines
    assert(forall|k: int, i: int|
        0 <= k < hdr.len() && 0 <= i < hdr[k].len() ==> #[trigger] hdr[k][i] != 10) by {
        assert(hdr[0] == lit_ppp());
        assert(hdr.last() == lit_ppp());
        assert(forall|k: int|
            1 <= k < hdr.len() - 1 ==> hdr[k] == meta_lines(m)[k - 1]);
    };
    lemma_split_join(hdr);
    lemma_split_app(join_lines(hdr), seq![10u8] + body);
    assert(text =~= join_lines(hdr) + seq![10u8] + (seq![10u8] + body));
    lemma_split_app(Seq::<u8>::empty(), body);
    assert(Seq::<u8>::empty() + seq![10u8] + body =~= seq![10u8] + body);
    assert(split_lines(Seq::<u8>::empty()) =~~= seq![Seq::<u8>::empty()]);
    let ls = split_lines(text);
    assert(ls =~~= hdr + (seq![Seq::<u8>::empty()] + split_lines(body)));
    let lm = meta_lines(m).len() as int;
    assert(ls.len() == hdr.len() + 1 + split_lines(body).len());
    // the opening delimiter is the first non-blank line
    assert(ls[0] == lit_ppp());
    assert(!is_blank(lit_ppp()));
    assert(first_nonblank(ls) == 0);
    assert(is_delim(lit_ppp())) by {
        assert(trim_front(lit_ppp()) == lit_ppp());
        assert(trim_back(lit_ppp()) == lit_ppp());
    };
    // the closing delimiter is found right after the metadata lines
    let sk = ls.skip(1);
    assert(forall|k: int| 0 <= k < lm ==> sk[k] == meta_lines(m)[k]);
    assert(sk[lm] == lit_ppp());
    lemma_find_delim_char(sk, lm);
    assert(find_delim(sk) == Some(lm));
    let j = 1 + lm;
    // the metadata block parses back
    assert(ls.subrange(1, j) =~~= meta_lines(m));
    // the body follows the one blank separator line
    let rest = ls.skip(j + 1);
    assert(rest =~~= seq![Seq::<u8>::empty()] + split_lines(body));
    assert(rest[0].len() == 0);
    bytes_rest_join(body, rest);
    assert(doc_of(text) == Ok::<(MetaView, Seq<u8>), Error>((m, body)));
}

proof fn bytes_rest_join(body: Seq<u8>, rest: Seq<Seq<u8>>)
    requires
        rest == seq![Seq::<u8>::empty()] + split_lines(body),
    ensures
        join_lines(rest.drop_first()) == body,
{
    assert(rest.drop_first() =~~= split_lines(body));
    lemma_join_split(body);
}

fn has_prefix(l: &Vec<u8>, p: &Vec<u8>) -> (r: bool)
    ensures
        r == starts_with(l@, p@),
{
    if l.len() < p.len() {
        return false;
    }
    let mut i: usize = 0;
    while i < p.len()
        invariant
            0 <= i <= p@.len(),
            p@.len() <= l@.len(),
            forall|j: int| 0 <= j < i ==> l@[j] == p@[j],
        decreases p@.len() - i,
    {
        if l[i] != p[i] {
            proof {
                assert(l@.subrange(0, p@.len() as int)[i as int] == l@[i as int]);
            }
            return false;
        }
        i = i + 1;
    }
    proof {
        assert(l@.subrange(0, p@.len() as int) =~= p@);
    }
    true
}

/// Reports whether `l[from..]` equals `p` exactly.
fn tail_eq(l: &Vec<u8>, from: usize, p: &Vec<u8>) -> (r: bool)
    requires
        from <= l@.len(),
    ensures
        r == (l@.skip(from as int) == p@),
{
    if l.len() - from != p.len() {
        proof {
            assert(l@.skip(from as int).len() != p@.len());
        }
        return false;
    }
    let mut i: usize = 0;
    while i < p.len()
        invariant
            0 <= i <= p@.len(),
            from + p@.len() == l@.len(),
            l@.len() <= usize::MAX,
            forall|j: int| 0 <= j < i ==> l@[from + j] == p@[j],
        decreases p@.len() - i,
    {
        if l[from + i] != p[i] {
            proof {
                assert(l@.skip(from as int)[i as int] == l@[from + i]);
            }
            return false;
        }
        i = i + 1;
    }
    proof {
        assert(l@.skip(from as int) =~= p@);
    }
    true
}

/// Copies `l[from..]` out.
fn tail_vec(l: &Vec<u8>, from: usize) -> (r: Vec<u8>)
    requires
        from <= l@.len(),
    ensures
        r@ == l@.skip(from as int),
{
    let mut out: Vec<u8> = Vec::new();
    let mut i: usize = from;
    while i < l.len()
        invariant
            from <= i <= l@.len(),
            out@ == l@.subrange(from as int, i as int),
        decreases l@.len() - i,
    {
        out.push(l[i]);
        proof {
            assert(l@.subrange(from as int, i + 1) =~= l@.subrange(from as int, i as int).push(
                l@[i as int],
            ));
        }
        i = i + 1;
    }
    proof {
        assert(l@.subrange(from as int, l@.len() as int) =~= l@.skip(from as int));
    }
    out
}

fn lit_tags_vec() -> (r: Vec<u8>)
    ensures
        r@ == lit_tags_eq(),
{
    let mut v: Vec<u8> = Vec::new();
    v.push(116);
    v.push(97);
    v.push(103);
    v.push(115);
    v.push(32);
    v.push(61);
    v.push(32);
    proof {
        assert(v@ =~= lit_tags_eq());
    }
    v
}

fn lit_wip_vec() -> (r: Vec<u8>)
    ensures
        r@ == lit_wip_eq(),
{
    let mut v: Vec<u8> = Vec::new();
    v.push(119);
    v.push(105);
    v.push(112);
    v.push(32);
    v.push(61);
    v.push(32);
    proof {
        assert(v@ =~= lit_wip_eq());
    }
    v
}

fn lit_num_vec() -> (r: Vec<u8>)
    ensures
        r@ == lit_num_eq(),
{
    let mut v: Vec<u8> = Vec::new();
    v.push(110);
    v.push(117);
    v.push(109);
    v.push(98);
    v.push(101);
    v.push(114);
    v.push(32);
    v.push(61);
    v.push(32);
    proof {
        assert(v@ =~= lit_num_eq());
    }
    v
}

fn lit_true_vec() -> (r: Vec<u8>)
    ensures
        r@ == lit_true(),
{
    let mut v: Vec<u8> = Vec::new();
    v.push(116);
    v.push(114);
    v.push(117);
    v.push(101);
    proof {
        assert(v@ =~= lit_true());
    }
    v
}

fn lit_false_vec() -> (r: Vec<u8>)
    ensures
        r@ == lit_false(),
{
    let mut v: Vec<u8> = Vec::new();
    v.push(102);
    v.push(97);
    v.push(108);
    v.push(115);
    v.push(101);
    proof {
        assert(v@ =~= lit_false());
    }
    v
}

/// Runs the tag-array scanner over `l[from..]`.
fn parse_tags_vec(l: &Vec<u8>, from: usize) -> (r: Option<Vec<Vec<u8>>>)
    requires
        from <= l@.len(),
    ensures
        match r {
            Some(ts) => parse_tags(l@.skip(from as int)) == Some(ts.deep_view()),
            None => parse_tags(l@.skip(from as int)) == None::<Seq<Seq<u8>>>,
        },
{
    let ghost v = l@.skip(from as int);
    if from == l.len() {
        return None;
    }
    if l[from] != 91 {
        proof {
            assert(v[0] == l@[from as int]);
        }
        return None;
    }
    proof {
        assert(v[0] == l@[from as int]);
        assert(v.drop_first() =~= l@.skip(from + 1));
    }
    let ghost target = parse_tags(v);
    let mut st = TagSt::Start;
    let mut cur: Vec<u8> = Vec::new();
    let mut acc: Vec<Vec<u8>> = Vec::new();
    let mut i: usize = from + 1;
    proof {
        assert(acc.deep_view() =~~= Seq::<Seq<u8>>::empty());
        assert(l@.skip(i as int) == v.drop_first());
        assert(tags_sm(l@.skip(i as int), st, cur@, acc.deep_view()) == target);
    }
    while i < l.len()
        invariant
            from + 1 <= i <= l@.len(),
            tags_sm(l@.skip(i as int), st, cur@, acc.deep_view()) == target,
            target == parse_tags(l@.skip(from as int)),
        decreases l@.len() - i,
    {
        let b = l[i];
        proof {
            assert(l@.skip(i as int)[0] == l@[i as int]);
            assert(l@.skip(i as int).drop_first() =~= l@.skip(i + 1));
        }
        let ghost old_cur = cur@;
        let ghost old_acc = acc.deep_view();
        match st {
            TagSt::Start => {
                if b == 34 {
                    st = TagSt::Str;
                } else if b == 93 {
                    st = TagSt::Done;
                } else {
                    return None;
                }
            },
            TagSt::Str => {
                if b == 34 {
                    acc.push(cur);
                    cur = Vec::new();
                    st = TagSt::After;
                    proof {
                        assert(acc.deep_view() =~~= old_acc.push(old_cur));
                    }
                } else if b == 92 {
                    st = TagSt::Esc;
                } else {
                    cur.push(b);
                }
            },
            TagSt::Esc => {
                if b == 34 || b == 92 {
                    cur.push(b);
                    st = TagSt::Str;
                } else {
                    return None;
                }
            },
            TagSt::After => {
                if b == 44 {
                    st = TagSt::Sp;
                } else if b == 93 {
                    st = TagSt::Done;
                } else {
                    return None;
                }
            },
            TagSt::Sp => {
                if b == 32 {
                    st = TagSt::Elem;
                } else {
                    return None;
                }
            },
            TagSt::Elem => {
                if b == 34 {
                    st = TagSt::Str;
                } else {
                    return None;
                }
            },
            TagSt::Done => {
                return None;
            },
        }
        i = i + 1;
    }
    proof {
        assert(l@.skip(i as int).len() == 0);
    }
    match st {
        TagSt::Done => Some(acc),
        _ => None,
    }
}

/// Parses the metadata lines `ls[from..to]`.
fn parse_meta_range(ls: &Vec<Vec<u8>>, from: usize, to: usize) -> (r: Option<Meta>)
    requires
        from <= to <= ls@.len(),
    ensures
        match r {
            Some(m) => meta_of(ls.deep_view().subrange(from as int, to as int)) == Some(m@),
            None => meta_of(ls.deep_view().subrange(from as int, to as int)) == None::<MetaView>,
        },
{
    let ghost dv = ls.deep_view();
    let ghost target = meta_fold(dv.subrange(from as int, to as int), None, None, None);
    proof {
        assert forall|k: int| 0 <= k < dv.len() implies dv[k] == ls@[k]@ by {
            assert(dv[k] =~= ls@[k]@);
        };
    }
    let tags_key = lit_tags_vec();
    let wip_key = lit_wip_vec();
    let num_key = lit_num_vec();
    let true_lit = lit_true_vec();
    let false_lit = lit_false_vec();
    let mut ot: Option<Vec<Vec<u8>>> = None;
    let mut ow: Option<bool> = None;
    let mut on: Option<u64> = None;
    let mut i: usize = from;
    while i < to
        invariant
            from <= i <= to <= ls@.len(),
            dv == ls.deep_view(),
            dv.len() == ls@.len(),
            forall|k: int| 0 <= k < dv.len() ==> dv[k] == ls@[k]@,
            tags_key@ == lit_tags_eq(),
            wip_key@ == lit_wip_eq(),
            num_key@ == lit_num_eq(),
            true_lit@ == lit_true(),
            false_lit@ == lit_false(),
            meta_fold(dv.subrange(i as int, to as int), ot.deep_view(), ow, on) == target,
            target == meta_fold(dv.subrange(from as int, to as int), None, None, None),
        decreases to - i,
    {
        let l = strip_cr_vec(&ls[i]);
        let l = &l;
        let ghost lv = strip_cr(dv[i as int]);
        proof {
            assert(dv.subrange(i as int, to as int)[0] == dv[i as int]);
            assert(lv == l@);
            assert(dv.subrange(i as int, to as int).drop_first() =~~= dv.subrange(
                i + 1,
                to as int,
            ));
        }
        let ghost old_ot = ot.deep_view();
        if is_blank_vec(l) {
            // the fold skips a blank line
        } else if has_prefix(l, &tags_key) {
            if ot.is_some() {
                return None;
            }
            proof {
                assert(lv.skip(7) == l@.skip(7));
            }
            match parse_tags_vec(l, 7) {
                Some(ts) => {
                    ot = Some(ts);
                    proof {
                        assert(ot.deep_view() =~~= Some(ts.deep_view()));
                    }
                },
                None => {
                    return None;
                },
            }
        } else if has_prefix(l, &wip_key) {
            if ow.is_some() {
                return None;
            }
            proof {
                assert(lv.skip(6) == l@.skip(6));
            }
            if tail_eq(l, 6, &true_lit) {
                ow = Some(true);
            } else if tail_eq(l, 6, &false_lit) {
                ow = Some(false);
            } else {
                return None;
            }
        } else if has_prefix(l, &num_key) {
            if on.is_some() {
                return None;
            }
            proof {
                assert(lv.skip(9) == l@.skip(9));
            }
            let digits = tail_vec(l, 9);
            match parse_u64_digits(&digits) {
                Some(n) => {
                    on = Some(n);
                },
                None => {
                    return None;
                },
            }
        } else {
            return None;
        }
        i = i + 1;
    }
    proof {
        assert(dv.subrange(i as int, to as int).len() == 0);
        assert(meta_fold(dv.subrange(i as int, to as int), ot.deep_view(), ow, on) == Some(
            (ot.deep_view(), ow, on),
        ));
    }
    match (ot, ow) {
        (Some(ts), Some(w)) => {
            let m = Meta { tags: ts, wip: w, number: on };
            proof {
                assert(m@.tags == m.tags.deep_view());
            }
            Some(m)
        },
        _ => None,
    }
}

/// Parses a document text into its metadata and body, exactly as
/// `doc_of` reads it.
pub fn decode(text: &Vec<u8>) -> (r: Result<(Meta, Vec<u8>), Error>)
    ensures
        match r {
            Ok(p) => doc_of(text@) == Ok::<(MetaView, Seq<u8>), Error>((p.0@, p.1@)),
            Err(e) => doc_of(text@) == Err::<(MetaView, Seq<u8>), Error>(e),
        },
{
    let ls = split_lines_vec(text);
    let ghost dv = ls.deep_view();
    proof {
        assert forall|k: int| 0 <= k < dv.len() implies dv[k] == ls@[k]@ by {
            assert(dv[k] =~= ls@[k]@);
        };
    }
    let n = ls.len();
    let mut i0: usize = 0;
    while i0 < n && is_blank_vec(&ls[i0])
        invariant
            0 <= i0 <= n,
            n == ls@.len(),
            dv == ls.deep_view(),
            dv == split_lines(text@),
            dv.len() == n,
            forall|k: int| 0 <= k < dv.len() ==> dv[k] == ls@[k]@,
            forall|k: int| 0 <= k < i0 ==> is_blank(dv[k]),
        decreases n - i0,
    {
        i0 = i0 + 1;
    }
    proof {
        lemma_first_nonblank_char(dv, i0 as int);
    }
    if i0 == n {
        return Err(Error::PostFormatInvalid);
    }
    if !is_delim_vec(&ls[i0]) {
        return Err(Error::PostFormatInvalid);
    }
    let mut j: usize = i0 + 1;
    while j < n && !is_delim_vec(&ls[j])
        invariant
            i0 + 1 <= j <= n,
            n == ls@.len(),
            dv == ls.deep_view(),
            dv == split_lines(text@),
            dv.len() == n,
            forall|k: int| 0 <= k < dv.len() ==> dv[k] == ls@[k]@,
            forall|k: int| i0 + 1 <= k < j ==> !is_delim(dv[k]),
        decreases n - j,
    {
        j = j + 1;
    }
    let ghost sk = dv.skip(i0 + 1);
    proof {
        assert forall|k: int| 0 <= k < j - (i0 + 1) implies !is_delim(sk[k]) by {
            assert(sk[k] == dv[i0 + 1 + k]);
        };
        if j < n {
            assert(sk[j - (i0 + 1)] == dv[j as int]);
        }
        lemma_find_delim_char(sk, j - (i0 + 1));
    }
    if j == n {
        return Err(Error::PostFormatInvalid);
    }
    let m = match parse_meta_range(&ls, i0 + 1, j) {
        Some(m) => m,
        None => {
            return Err(Error::MetaTomlInvalid);
        },
    };
    let body: Vec<u8> = if j + 1 >= n {
        Vec::new()
    } else if ls[j + 1].len() == 0 || (ls[j + 1].len() == 1 && ls[j + 1][0] == 13) {
        proof {
            assert(strip_cr(dv[j + 1]).len() == 0);
            assert(dv.skip(j + 1).drop_first() =~~= dv.skip(j + 2));
            assert(dv.skip(j + 1)[0] == dv[j + 1]);
        }
        join_from(&ls, j + 2)
    } else {
        proof {
            assert(dv.skip(j + 1)[0] == dv[j + 1]);
            assert(strip_cr(dv[j + 1]).len() != 0);
        }
        join_from(&ls, j + 1)
    };
    Ok((m, body))
}

} // verus!
