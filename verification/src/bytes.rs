//! Byte-sequence utilities: line splitting and joining, whitespace
//! trimming, and decimal rendering/parsing for unsigned identifiers.
use vstd::prelude::*;

verus! {

/// Horizontal whitespace tolerated around delimiter lines.
pub open spec fn is_ws(b: u8) -> bool {
    b == 32 || b == 9 || b == 13
}

/// The lines of `s`, split on newline bytes. A text with no newline is one
/// line; every trailing newline opens one further (possibly empty) line.
pub open spec fn split_lines(s: Seq<u8>) -> Seq<Seq<u8>>
    decreases s.len(),
{
    if s.len() == 0 {
        seq![Seq::<u8>::empty()]
    } else if s.last() == 10 {
        split_lines(s.drop_last()).push(Seq::<u8>::empty())
    } else {
        let r = split_lines(s.drop_last());
        r.update(r.len() - 1, r.last().push(s.last()))
    }
}

/// The lines joined back with newline bytes between them.
pub open spec fn join_lines(ls: Seq<Seq<u8>>) -> Seq<u8>
    decreases ls.len(),
{
    if ls.len() == 0 {
        Seq::<u8>::empty()
    } else if ls.len() == 1 {
        ls[0]
    } else {
        join_lines(ls.drop_last()) + seq![10u8] + ls.last()
    }
}

pub proof fn lemma_split_lines_len(s: Seq<u8>)
    ensures
        split_lines(s).len() >= 1,
    decreases s.len(),
{
    if s.len() > 0 {
        lemma_split_lines_len(s.drop_last());
    }
}

/// Joining the lines of a text gives the text back.
pub proof fn lemma_join_split(s: Seq<u8>)
    ensures
        join_lines(split_lines(s)) == s,
    decreases s.len(),
{
    if s.len() == 0 {
        assert(join_lines(split_lines(s)) =~= s);
    } else {
        let p = s.drop_last();
        lemma_join_split(p);
        lemma_split_lines_len(p);
        let r = split_lines(p);
        if s.last() == 10 {
            assert(split_lines(s) == r.push(Seq::<u8>::empty()));
            assert(r.push(Seq::<u8>::empty()).drop_last() =~~= r);
            assert(r.push(Seq::<u8>::empty()).len() >= 2);
            assert(join_lines(r.push(Seq::<u8>::empty())) == join_lines(r) + seq![10u8]
                + Seq::<u8>::empty());
            assert(join_lines(r) == p);
            assert(p + seq![10u8] + Seq::<u8>::empty() =~= s);
            assert(join_lines(split_lines(s)) == s);
        } else {
            let r2 = r.update(r.len() - 1, r.last().push(s.last()));
            assert(split_lines(s) == r2);
            if r.len() == 1 {
                assert(join_lines(r2) == r2[0]);
                assert(join_lines(r) == r[0]);
                assert(r2[0] == r[0].push(s.last()));
                assert(p.push(s.last()) =~= s);
                assert(join_lines(split_lines(s)) == s);
            } else {
                assert(r2.drop_last() =~~= r.drop_last());
                assert(r2.last() == r.last().push(s.last()));
                assert(join_lines(r2) == join_lines(r.drop_last()) + seq![10u8]
                    + r.last().push(s.last()));
                assert(join_lines(r) == join_lines(r.drop_last()) + seq![10u8] + r.last());
                assert(join_lines(r2) =~= join_lines(r) + seq![s.last()]);
                assert(p + seq![s.last()] =~= s);
                assert(join_lines(split_lines(s)) == s);
            }
        }
    }
}

/// Splitting distributes over a newline between two texts.
pub proof fn lemma_split_app(a: Seq<u8>, b: Seq<u8>)
    ensures
        split_lines(a + seq![10u8] + b) == split_lines(a) + split_lines(b),
    decreases b.len(),
{
    lemma_split_lines_len(a);
    lemma_split_lines_len(b);
    if b.len() == 0 {
        let s = a + seq![10u8] + b;
        assert(s.drop_last() =~= a);
        assert(s.last() == 10);
        assert(split_lines(s) == split_lines(a).push(Seq::<u8>::empty()));
        assert(split_lines(b) =~= seq![Seq::<u8>::empty()]);
        assert(split_lines(s) =~= split_lines(a) + split_lines(b));
    } else {
        let b2 = b.drop_last();
        lemma_split_app(a, b2);
        lemma_split_lines_len(b2);
        let s = a + seq![10u8] + b;
        let s2 = a + seq![10u8] + b2;
        assert(s.drop_last() =~= s2);
        assert(s.last() == b.last());
        if b.last() == 10 {
            assert(split_lines(s) == split_lines(s2).push(Seq::<u8>::empty()));
            assert(split_lines(b) == split_lines(b2).push(Seq::<u8>::empty()));
            assert(split_lines(s) =~= split_lines(a) + split_lines(b));
        } else {
            let r = split_lines(s2);
            let rb = split_lines(b2);
            assert(split_lines(s) == r.update(r.len() - 1, r.last().push(b.last())));
            assert(split_lines(b) == rb.update(rb.len() - 1, rb.last().push(b.last())));
            assert(r == split_lines(a) + rb);
            assert(r.last() == rb.last());
            assert(split_lines(s) =~= split_lines(a) + split_lines(b));
        }
    }
}

/// A text without newline bytes is a single line.
pub proof fn lemma_split_single(s: Seq<u8>)
    requires
        forall|i: int| 0 <= i < s.len() ==> s[i] != 10,
    ensures
        split_lines(s) == seq![s],
    decreases s.len(),
{
    if s.len() == 0 {
        assert(split_lines(s) =~~= seq![s]);
    } else {
        lemma_split_single(s.drop_last());
        let r = split_lines(s.drop_last());
        assert(r == seq![s.drop_last()]);
        assert(s.last() != 10);
        assert(split_lines(s) == r.update(0, r[0].push(s.last())));
        assert(r[0].push(s.last()) =~= s);
        assert(split_lines(s) =~~= seq![s]);
    }
}

/// Splitting the join of newline-free lines gives the lines back.
pub proof fn lemma_split_join(ls: Seq<Seq<u8>>)
    requires
        ls.len() >= 1,
        forall|k: int, i: int|
            0 <= k < ls.len() && 0 <= i < ls[k].len() ==> #[trigger] ls[k][i] != 10,
    ensures
        split_lines(join_lines(ls)) == ls,
    decreases ls.len(),
{
    if ls.len() == 1 {
        lemma_split_single(ls[0]);
        assert(split_lines(join_lines(ls)) =~= ls);
    } else {
        lemma_split_join(ls.drop_last());
        lemma_split_single(ls.last());
        lemma_split_app(join_lines(ls.drop_last()), ls.last());
        assert(split_lines(join_lines(ls)) =~= ls);
    }
}

/// `s` without its leading whitespace.
pub open spec fn trim_front(s: Seq<u8>) -> Seq<u8>
    decreases s.len(),
{
    if s.len() > 0 && is_ws(s[0]) {
        trim_front(s.drop_first())
    } else {
        s
    }
}

/// `s` without its trailing whitespace.
pub open spec fn trim_back(s: Seq<u8>) -> Seq<u8>
    decreases s.len(),
{
    if s.len() > 0 && is_ws(s.last()) {
        trim_back(s.drop_last())
    } else {
        s
    }
}

/// `s` without leading and trailing whitespace.
pub open spec fn trim(s: Seq<u8>) -> Seq<u8> {
    trim_back(trim_front(s))
}

/// A line is blank when it holds only whitespace.
pub open spec fn is_blank(l: Seq<u8>) -> bool {
    forall|i: int| 0 <= i < l.len() ==> is_ws(l[i])
}

/// The decimal digits of `n`, most significant first.
pub open spec fn dec_of(n: nat) -> Seq<u8>
    decreases n,
{
    if n < 10 {
        seq![(n + 48) as u8]
    } else {
        dec_of(n / 10).push(((n % 10) + 48) as u8)
    }
}

pub open spec fn all_digits(s: Seq<u8>) -> bool {
    forall|i: int| 0 <= i < s.len() ==> 48 <= #[trigger] s[i] <= 57
}

/// The numeric value of a digit string, most significant first.
pub open spec fn val_of(s: Seq<u8>) -> int
    decreases s.len(),
{
    if s.len() == 0 {
        0
    } else {
        val_of(s.drop_last()) * 10 + s.last() - 48
    }
}

/// A digit string denotes an unsigned 64-bit number exactly when it is
/// nonempty, all digits, has no leading zero, and its value fits.
pub open spec fn num_ok(s: Seq<u8>) -> bool {
    &&& s.len() >= 1
    &&& all_digits(s)
    &&& (s.len() == 1 || s[0] != 48)
    &&& val_of(s) <= u64::MAX
}

pub open spec fn parse_num_spec(s: Seq<u8>) -> Option<u64> {
    if num_ok(s) {
        Some(val_of(s) as u64)
    } else {
        None
    }
}

pub proof fn lemma_dec_digits(n: nat)
    ensures
        all_digits(dec_of(n)),
        dec_of(n).len() >= 1,
        val_of(dec_of(n)) == n,
        n >= 1 ==> dec_of(n)[0] != 48,
        n < 10 ==> dec_of(n).len() == 1,
        n >= 10 ==> dec_of(n).len() >= 2,
    decreases n,
{
    if n < 10 {
        assert(val_of(dec_of(n)) == n) by {
            assert(dec_of(n) == seq![(n + 48) as u8]);
            assert(dec_of(n).drop_last() =~= Seq::<u8>::empty());
            assert(val_of(Seq::<u8>::empty()) == 0);
            assert(dec_of(n).last() == (n + 48) as u8);
        };
    } else {
        lemma_dec_digits(n / 10);
        let p = dec_of(n / 10);
        let d = dec_of(n);
        assert(d == p.push(((n % 10) + 48) as u8));
        assert(d.drop_last() =~= p);
        assert(val_of(d) == val_of(p) * 10 + (n % 10));
        assert(n == (n / 10) * 10 + (n % 10)) by (nonlinear_arith);
        assert(d[0] == p[0]);
        assert(n / 10 >= 1);
        assert(all_digits(d)) by {
            assert(forall|i: int|
                0 <= i < d.len() ==> #[trigger] d[i] == if i < p.len() {
                    p[i]
                } else {
                    ((n % 10) + 48) as u8
                });
        };
    }
}

pub proof fn lemma_val_nonneg(s: Seq<u8>)
    requires
        all_digits(s),
    ensures
        val_of(s) >= 0,
    decreases s.len(),
{
    if s.len() > 0 {
        assert(all_digits(s.drop_last()));
        lemma_val_nonneg(s.drop_last());
    }
}

/// Extending a digit string can only grow its value.
pub proof fn lemma_val_extend(s: Seq<u8>, i: int)
    requires
        all_digits(s),
        0 <= i <= s.len(),
    ensures
        val_of(s.take(i)) <= val_of(s),
    decreases s.len() - i,
{
    if i < s.len() {
        lemma_val_extend(s, i + 1);
        let t = s.take(i + 1);
        assert(t.drop_last() =~= s.take(i));
        assert(all_digits(s.take(i)));
        lemma_val_nonneg(s.take(i));
        assert(val_of(t) == val_of(s.take(i)) * 10 + s[i] - 48);
        assert(val_of(s.take(i)) * 10 >= val_of(s.take(i)));
    } else {
        assert(s.take(i) =~= s);
    }
}

/// Renders `n` in decimal.
pub fn u64_to_dec(n: u64) -> (r: Vec<u8>)
    ensures
        r@ == dec_of(n as nat),
    decreases n,
{
    if n < 10 {
        let mut v: Vec<u8> = Vec::new();
        v.push((n as u8) + 48);
        proof {
            assert(v@ =~= dec_of(n as nat));
        }
        v
    } else {
        let mut v = u64_to_dec(n / 10);
        v.push(((n % 10) as u8) + 48);
        v
    }
}

/// Parses a decimal digit string into an unsigned 64-bit number.
pub fn parse_u64_digits(s: &Vec<u8>) -> (r: Option<u64>)
    ensures
        r == parse_num_spec(s@),
{
    if s.len() == 0 {
        return None;
    }
    if s.len() > 1 && s[0] == 48 {
        return None;
    }
    let mut acc: u64 = 0;
    let mut i: usize = 0;
    while i < s.len()
        invariant
            0 <= i <= s@.len(),
            s@.len() >= 1,
            s@.len() == 1 || s@[0] != 48,
            all_digits(s@.take(i as int)),
            acc == val_of(s@.take(i as int)),
        decreases s@.len() - i,
    {
        let b = s[i];
        if b < 48 || b > 57 {
            proof {
                assert(!all_digits(s@));
            }
            return None;
        }
        let d: u64 = (b - 48) as u64;
        proof {
            assert(s@.take(i + 1).drop_last() =~= s@.take(i as int));
            assert(s@.take(i + 1).last() == s@[i as int]);
            assert(all_digits(s@.take(i + 1))) by {
                assert(forall|j: int|
                    0 <= j < i + 1 ==> #[trigger] s@.take(i + 1)[j] == s@[j]);
            };
            assert(val_of(s@.take(i + 1)) == acc * 10 + d);
            lemma_val_nonneg(s@.take(i as int));
        }
        let m = acc.checked_mul(10);
        let over: bool = match m {
            Some(m0) => m0.checked_add(d).is_none(),
            None => true,
        };
        if over {
            proof {
                assert(acc * 10 + d > u64::MAX);
                assert(!num_ok(s@)) by {
                    if all_digits(s@) {
                        lemma_val_extend(s@, i + 1);
                        assert(val_of(s@) > u64::MAX);
                    }
                };
            }
            return None;
        }
        acc = acc * 10 + d;
        proof {
            assert(acc == val_of(s@.take(i + 1)));
        }
        i = i + 1;
    }
    proof {
        assert(s@.take(i as int) =~= s@);
        assert(num_ok(s@));
    }
    Some(acc)
}

/// Splits a text into its lines.
pub fn split_lines_vec(s: &Vec<u8>) -> (r: Vec<Vec<u8>>)
    ensures
        r.deep_view() == split_lines(s@),
        r.len() >= 1,
{
    let mut lines: Vec<Vec<u8>> = Vec::new();
    let mut cur: Vec<u8> = Vec::new();
    let mut i: usize = 0;
    while i < s.len()
        invariant
            0 <= i <= s@.len(),
            split_lines(s@.take(i as int)) == lines.deep_view().push(cur@),
        decreases s@.len() - i,
    {
        let b = s[i];
        proof {
            assert(s@.take(i + 1).drop_last() =~= s@.take(i as int));
            assert(s@.take(i + 1).last() == s@[i as int]);
        }
        let ghost old_lines = lines.deep_view();
        let ghost old_cur = cur@;
        if b == 10 {
            lines.push(cur);
            cur = Vec::new();
            proof {
                lemma_split_lines_len(s@.take(i as int));
                assert(lines.deep_view() =~~= old_lines.push(old_cur));
                assert(split_lines(s@.take(i + 1)) == split_lines(s@.take(i as int)).push(
                    Seq::<u8>::empty()));
                assert(split_lines(s@.take(i + 1)) =~~= lines.deep_view().push(cur@));
            }
        } else {
            cur.push(b);
            proof {
                let r = split_lines(s@.take(i as int));
                lemma_split_lines_len(s@.take(i as int));
                assert(split_lines(s@.take(i + 1)) == r.update(r.len() - 1, r.last().push(b)));
                assert(r.last() == old_cur);
                assert(cur@ == old_cur.push(b));
                assert(split_lines(s@.take(i + 1)) =~~= lines.deep_view().push(cur@));
            }
        }
        i = i + 1;
    }
    proof {
        assert(s@.take(i as int) =~= s@);
    }
    let ghost old_lines = lines.deep_view();
    let ghost cv = cur@;
    lines.push(cur);
    proof {
        lemma_split_lines_len(s@);
        assert(lines.deep_view() =~~= old_lines.push(cv));
    }
    lines
}

/// Joins `lines[from..]` with newline bytes.
pub fn join_from(lines: &Vec<Vec<u8>>, from: usize) -> (r: Vec<u8>)
    requires
        from <= lines@.len(),
    ensures
        r@ == join_lines(lines.deep_view().skip(from as int)),
{
    let ghost dv = lines.deep_view();
    let mut out: Vec<u8> = Vec::new();
    let mut k: usize = from;
    while k < lines.len()
        invariant
            from <= k <= lines@.len(),
            dv == lines.deep_view(),
            dv.len() == lines@.len(),
            out@ == join_lines(dv.subrange(from as int, k as int)),
        decreases lines@.len() - k,
    {
        if k > from {
            out.push(10);
        }
        let ghost mid = out@;
        let piece = &lines[k];
        let mut t: usize = 0;
        while t < piece.len()
            invariant
                0 <= t <= piece@.len(),
                out@ == mid + piece@.take(t as int),
            decreases piece@.len() - t,
        {
            out.push(piece[t]);
            proof {
                assert(piece@.take(t + 1) =~= piece@.take(t as int).push(piece@[t as int]));
            }
            t = t + 1;
        }
        proof {
            assert(piece@.take(t as int) =~= piece@);
            assert(piece@ =~= dv[k as int]);
        }
        proof {
            let pre = dv.subrange(from as int, k as int);
            let post = dv.subrange(from as int, k + 1);
            assert(post.drop_last() =~= pre);
            assert(post.last() == dv[k as int]);
            if k > from {
                assert(out@ =~= join_lines(post));
            } else {
                assert(post.len() == 1);
                assert(out@ =~= join_lines(post));
            }
        }
        k = k + 1;
    }
    proof {
        assert(dv.subrange(from as int, k as int) =~= dv.skip(from as int));
    }
    out
}

/// Reports whether a line is blank.
pub fn is_blank_vec(l: &Vec<u8>) -> (r: bool)
    ensures
        r == is_blank(l@),
{
    let mut i: usize = 0;
    while i < l.len()
        invariant
            0 <= i <= l@.len(),
            forall|j: int| 0 <= j < i ==> is_ws(l@[j]),
        decreases l@.len() - i,
    {
        let b = l[i];
        if !(b == 32 || b == 9 || b == 13) {
            proof {
                assert(!is_blank(l@));
            }
            return false;
        }
        i = i + 1;
    }
    true
}

/// A line without its trailing carriage return, if it has one; lines of
/// a text with CRLF endings keep a stray CR after splitting on newlines.
pub open spec fn strip_cr(l: Seq<u8>) -> Seq<u8> {
    if l.len() > 0 && l.last() == 13 {
        l.drop_last()
    } else {
        l
    }
}

/// Drops a trailing carriage return.
pub fn strip_cr_vec(l: &Vec<u8>) -> (r: Vec<u8>)
    ensures
        r@ == strip_cr(l@),
{
    let end: usize = if l.len() > 0 && l[l.len() - 1] == 13 {
        l.len() - 1
    } else {
        l.len()
    };
    let mut out: Vec<u8> = Vec::new();
    let mut i: usize = 0;
    while i < end
        invariant
            0 <= i <= end <= l@.len(),
            out@ == l@.take(i as int),
        decreases end - i,
    {
        out.push(l[i]);
        proof {
            assert(l@.take(i + 1) =~= l@.take(i as int).push(l@[i as int]));
        }
        i = i + 1;
    }
    proof {
        assert(out@ =~= strip_cr(l@));
    }
    out
}

/// Copies a byte string.
pub fn copy_bytes(src: &Vec<u8>) -> (r: Vec<u8>)
    ensures
        r@ == src@,
{
    let mut out: Vec<u8> = Vec::new();
    let mut i: usize = 0;
    while i < src.len()
        invariant
            0 <= i <= src@.len(),
            out@ == src@.take(i as int),
        decreases src@.len() - i,
    {
        out.push(src[i]);
        proof {
            assert(src@.take(i + 1) =~= src@.take(i as int).push(src@[i as int]));
        }
        i = i + 1;
    }
    proof {
        assert(src@.take(i as int) =~= src@);
    }
    out
}

/// Copies a list of byte strings.
pub fn copy_segs(src: &Vec<Vec<u8>>) -> (r: Vec<Vec<u8>>)
    ensures
        r.deep_view() == src.deep_view(),
{
    let ghost dv = src.deep_view();
    let mut out: Vec<Vec<u8>> = Vec::new();
    let mut k: usize = 0;
    while k < src.len()
        invariant
            0 <= k <= src@.len(),
            dv == src.deep_view(),
            dv.len() == src@.len(),
            out.deep_view() == dv.take(k as int),
        decreases src@.len() - k,
    {
        let ghost old_out = out.deep_view();
        let piece = copy_bytes(&src[k]);
        let ghost pv = piece@;
        out.push(piece);
        proof {
            assert(pv =~= dv[k as int]);
            assert(out.deep_view() =~~= old_out.push(pv));
            assert(dv.take(k + 1) =~~= dv.take(k as int).push(dv[k as int]));
        }
        k = k + 1;
    }
    proof {
        assert(dv.take(k as int) =~~= dv);
    }
    out
}

/// All segments but the last.
pub fn parent_segs(src: &Vec<Vec<u8>>) -> (r: Vec<Vec<u8>>)
    requires
        src@.len() >= 1,
    ensures
        r.deep_view() == src.deep_view().drop_last(),
{
    let ghost dv = src.deep_view();
    let mut out: Vec<Vec<u8>> = Vec::new();
    let mut k: usize = 0;
    while k < src.len() - 1
        invariant
            src@.len() >= 1,
            0 <= k <= src@.len() - 1,
            dv == src.deep_view(),
            dv.len() == src@.len(),
            out.deep_view() == dv.take(k as int),
        decreases src@.len() - 1 - k,
    {
        let ghost old_out = out.deep_view();
        let piece = copy_bytes(&src[k]);
        let ghost pv = piece@;
        out.push(piece);
        proof {
            assert(pv =~= dv[k as int]);
            assert(out.deep_view() =~~= old_out.push(pv));
            assert(dv.take(k + 1) =~~= dv.take(k as int).push(dv[k as int]));
        }
        k = k + 1;
    }
    proof {
        assert(dv.take(k as int) =~~= dv.drop_last());
    }
    out
}

/// The last segment.
pub fn last_seg(src: &Vec<Vec<u8>>) -> (r: Vec<u8>)
    requires
        src@.len() >= 1,
    ensures
        r@ == src.deep_view().last(),
{
    let r = copy_bytes(&src[src.len() - 1]);
    proof {
        assert(r@ =~= src.deep_view().last());
    }
    r
}

/// A delimiter line holds exactly `+++` once surrounding whitespace is
/// dropped.
pub open spec fn is_delim(l: Seq<u8>) -> bool {
    trim(l) == seq![43u8, 43u8, 43u8]
}

/// Reports whether a line is a delimiter line.
pub fn is_delim_vec(l: &Vec<u8>) -> (r: bool)
    ensures
        r == is_delim(l@),
{
    proof {
        assert(l@.skip(0) =~= l@);
    }
    let mut a: usize = 0;
    while a < l.len() && (l[a] == 32 || l[a] == 9 || l[a] == 13)
        invariant
            0 <= a <= l@.len(),
            trim_front(l@) == trim_front(l@.skip(a as int)),
        decreases l@.len() - a,
    {
        proof {
            assert(l@.skip(a as int)[0] == l@[a as int]);
            assert(l@.skip(a as int).drop_first() =~= l@.skip(a + 1));
        }
        a = a + 1;
    }
    proof {
        if a < l@.len() {
            assert(l@.skip(a as int)[0] == l@[a as int]);
        }
        assert(trim_front(l@.skip(a as int)) == l@.skip(a as int));
        assert(l@.subrange(a as int, l@.len() as int) =~= l@.skip(a as int));
    }
    let mut b: usize = l.len();
    while b > a && (l[b - 1] == 32 || l[b - 1] == 9 || l[b - 1] == 13)
        invariant
            a <= b <= l@.len(),
            trim_front(l@) == l@.skip(a as int),
            trim(l@) == trim_back(l@.subrange(a as int, b as int)),
        decreases b,
    {
        proof {
            let cur = l@.subrange(a as int, b as int);
            assert(cur.last() == l@[b - 1]);
            assert(cur.drop_last() =~= l@.subrange(a as int, b - 1));
        }
        b = b - 1;
    }
    proof {
        let cur = l@.subrange(a as int, b as int);
        if b > a {
            assert(cur.last() == l@[b - 1]);
        }
        assert(trim(l@) == cur);
    }
    if b - a == 3 && l[a] == 43 && l[a + 1] == 43 && l[a + 2] == 43 {
        proof {
            assert(l@.subrange(a as int, b as int) =~= seq![43u8, 43u8, 43u8]);
        }
        true
    } else {
        proof {
            if is_delim(l@) {
                assert(l@.subrange(a as int, b as int) == seq![43u8, 43u8, 43u8]);
                assert(b - a == 3);
                assert(l@[a as int] == l@.subrange(a as int, b as int)[0]);
                assert(l@[a + 1] == l@.subrange(a as int, b as int)[1]);
                assert(l@[a + 2] == l@.subrange(a as int, b as int)[2]);
            }
        }
        false
    }
}

} // verus!
