//! Moving `null` to the end of a union type is idempotent: a type that has
//! been rewritten is left as it is.
use vstd::prelude::*;

use crate::docblock::parts::{depth_at, depth_step, is_close_bracket, is_open_bracket};
use crate::docblock::types::{
    bar, has_null_part, is_cut, is_null_part, non_null_parts, null_last, null_word,
    reordered_null, split_top, split_top_from,
};
use crate::text::{
    has_byte, is_ascii_ws, is_ws2, is_ws3, join, starts_with, trim, trim_end, trim_start,
    ws_prefix_len, ws_suffix_len,
};

verus! {

/// The depth after a prefix and then more text is the depth after the
/// prefix plus the depth of the rest.
pub proof fn lemma_depth_concat(a: Seq<u8>, b: Seq<u8>, x: int)
    requires
        0 <= x <= b.len(),
    ensures
        depth_at(a + b, a.len() + x) == depth_at(a, a.len() as int) + depth_at(b, x),
    decreases x,
{
    if x > 0 {
        lemma_depth_concat(a, b, x - 1);
        assert((a + b)[a.len() + x - 1] == b[x - 1]);
    } else {
        lemma_depth_prefix(a + b, a.len() as int, a.len() as int);
        assert((a + b).take(a.len() as int) =~= a);
    }
}

/// The depth within a prefix is the depth in the whole text.
pub proof fn lemma_depth_prefix(s: Seq<u8>, k: int, x: int)
    requires
        0 <= x <= k <= s.len(),
    ensures
        depth_at(s.take(k), x) == depth_at(s, x),
    decreases x,
{
    if x > 0 {
        lemma_depth_prefix(s, k, x - 1);
        assert(s.take(k)[x - 1] == s[x - 1]);
    }
}

/// The depth within a suffix is the depth in the whole text less the depth
/// where the suffix starts.
pub proof fn lemma_depth_suffix(s: Seq<u8>, n: int, x: int)
    requires
        0 <= n <= s.len(),
        0 <= x <= s.len() - n,
    ensures
        depth_at(s, n + x) == depth_at(s, n) + depth_at(s.skip(n), x),
{
    lemma_depth_concat(s.take(n), s.skip(n), x);
    assert(s.take(n) + s.skip(n) =~= s);
    lemma_depth_prefix(s, n, n);
}

/// No `|` of `q` stands outside of all brackets, counting depth from the
/// start of `q`.
pub open spec fn no_top_bar(q: Seq<u8>) -> bool {
    forall|x: int| 0 <= x < q.len() && #[trigger] q[x] == 0x7Cu8 ==> depth_at(q, x) != 0
}

/// The depth at the end of `q`.
pub open spec fn net_depth(q: Seq<u8>) -> int {
    depth_at(q, q.len() as int)
}

/// Text made of bytes that open and close nothing has depth 0 throughout.
proof fn lemma_zero_depth(s: Seq<u8>, x: int)
    requires
        0 <= x <= s.len(),
        forall|k: int| 0 <= k < x ==> depth_step(#[trigger] s[k]) == 0,
    ensures
        depth_at(s, x) == 0,
    decreases x,
{
    if x > 0 {
        lemma_zero_depth(s, x - 1);
    }
}

/// The bytes of a white-space character are no bracket and no `|`.
proof fn lemma_ws_bytes(s: Seq<u8>)
    ensures
        forall|k: int| 0 <= k < ws_prefix_len(s) ==> depth_step(#[trigger] s[k]) == 0 && s[k] != 0x7Cu8,
        forall|k: int|
            s.len() - ws_suffix_len(s) <= k < s.len() ==> depth_step(#[trigger] s[k]) == 0 && s[k]
                != 0x7Cu8,
{
}

/// Cutting leading white space keeps the depth structure and every `|`.
proof fn lemma_trim_start_keeps(s: Seq<u8>)
    ensures
        no_top_bar(s) ==> no_top_bar(trim_start(s)),
        net_depth(trim_start(s)) == net_depth(s),
        has_byte(s, 0x7Cu8) ==> has_byte(trim_start(s), 0x7Cu8),
        ws_prefix_len(trim_start(s)) == 0,
    decreases s.len(),
{
    let n = ws_prefix_len(s) as int;
    if n > 0 {
        let t = s.skip(n);
        lemma_ws_bytes(s);
        lemma_zero_depth(s, n);
        assert forall|x: int| 0 <= x <= t.len() implies depth_at(t, x) == depth_at(s, n + x) by {
            lemma_depth_suffix(s, n, x);
        }
        if no_top_bar(s) {
            assert forall|x: int| 0 <= x < t.len() && #[trigger] t[x] == 0x7Cu8 implies depth_at(
                t,
                x,
            ) != 0 by {
                assert(t[x] == s[n + x]);
            }
        }
        if has_byte(s, 0x7Cu8) {
            let q = choose|q: int| 0 <= q < s.len() && s[q] == 0x7Cu8;
            if q < n {
                assert(s[q] != 0x7Cu8);
            }
            assert(t[q - n] == s[q]);
        }
        lemma_trim_start_keeps(t);
    }
}

/// Cutting trailing white space keeps the depth structure and every `|`,
/// and keeps a prefix.
pub proof fn lemma_trim_end_keeps(s: Seq<u8>)
    ensures
        no_top_bar(s) ==> no_top_bar(trim_end(s)),
        net_depth(trim_end(s)) == net_depth(s),
        has_byte(s, 0x7Cu8) ==> has_byte(trim_end(s), 0x7Cu8),
        ws_suffix_len(trim_end(s)) == 0,
        trim_end(s).len() <= s.len(),
        trim_end(s) == s.take(trim_end(s).len() as int),
    decreases s.len(),
{
    let n = ws_suffix_len(s) as int;
    if n > 0 {
        let t = s.take(s.len() - n);
        lemma_ws_bytes(s);
        assert forall|x: int| 0 <= x <= t.len() implies depth_at(t, x) == depth_at(s, x) by {
            lemma_depth_prefix(s, s.len() - n, x);
        }
        lemma_depth_suffix(s, s.len() - n, n);
        lemma_zero_depth(s.skip(s.len() - n), n);
        if no_top_bar(s) {
            assert forall|x: int| 0 <= x < t.len() && #[trigger] t[x] == 0x7Cu8 implies depth_at(
                t,
                x,
            ) != 0 by {
                assert(t[x] == s[x]);
            }
        }
        if has_byte(s, 0x7Cu8) {
            let q = choose|q: int| 0 <= q < s.len() && s[q] == 0x7Cu8;
            if q >= s.len() - n {
                assert(s[q] != 0x7Cu8);
            }
            assert(t[q] == s[q]);
        }
        lemma_trim_end_keeps(t);
        assert(t.take(trim_end(t).len() as int) =~= s.take(trim_end(t).len() as int));
    } else {
        assert(s.take(s.len() as int) =~= s);
    }
}

/// A prefix of text that starts with no white space starts with none.
proof fn lemma_prefix_no_ws(z: Seq<u8>, k: int)
    requires
        ws_prefix_len(z) == 0,
        0 <= k <= z.len(),
    ensures
        ws_prefix_len(z.take(k)) == 0,
{
    let w = z.take(k);
    if w.len() >= 1 {
        assert(w[0] == z[0]);
    }
    if w.len() >= 2 {
        assert(w[1] == z[1]);
    }
    if w.len() >= 3 {
        assert(w[2] == z[2]);
    }
}

/// Trimming keeps the depth structure and every `|`, and trimming again
/// changes nothing.
pub proof fn lemma_trim_keeps(s: Seq<u8>)
    ensures
        no_top_bar(s) ==> no_top_bar(trim(s)),
        net_depth(trim(s)) == net_depth(s),
        has_byte(s, 0x7Cu8) ==> has_byte(trim(s), 0x7Cu8),
        trim(trim(s)) == trim(s),
{
    let z = trim_start(s);
    lemma_trim_start_keeps(s);
    lemma_trim_end_keeps(z);
    let y = trim_end(z);
    lemma_prefix_no_ws(z, y.len() as int);
    assert(trim_start(y) == y);
    assert(trim_end(y) == y);
}

/// The depth within a piece of a text, from the piece's start.
proof fn lemma_depth_subrange(s: Seq<u8>, start: int, e: int, x: int)
    requires
        0 <= start <= e <= s.len(),
        0 <= x <= e - start,
    ensures
        depth_at(s.subrange(start, e), x) == depth_at(s, start + x) - depth_at(s, start),
{
    lemma_depth_suffix(s, start, x);
    lemma_depth_prefix(s.skip(start), e - start, x);
    assert(s.skip(start).take(e - start) =~= s.subrange(start, e));
}

/// A piece of a text between a depth-0 offset and `e`, with no top-level
/// `|` in between, has no top-level `|` of its own.
proof fn lemma_piece_no_top_bar(s: Seq<u8>, start: int, e: int)
    requires
        0 <= start <= e <= s.len(),
        depth_at(s, start) == 0,
        forall|k: int| start <= k < e ==> !#[trigger] is_cut(s, 0x7Cu8, k),
    ensures
        no_top_bar(s.subrange(start, e)),
{
    let p = s.subrange(start, e);
    assert forall|x: int| 0 <= x < p.len() && #[trigger] p[x] == 0x7Cu8 implies depth_at(p, x)
        != 0 by {
        assert(p[x] == s[start + x]);
        assert(!is_cut(s, 0x7Cu8, start + x));
        lemma_depth_subrange(s, start, e, x);
    }
}

/// The members of a top-level split have no top-level `|`, and all but the
/// last close every bracket they open.
pub proof fn lemma_split_parts(s: Seq<u8>, start: int, j: int)
    requires
        0 <= start <= j <= s.len(),
        depth_at(s, start) == 0,
        forall|k: int| start <= k < j ==> !#[trigger] is_cut(s, 0x7Cu8, k),
    ensures
        split_top_from(s, 0x7Cu8, start, j).len() >= 1,
        forall|k: int|
            0 <= k < split_top_from(s, 0x7Cu8, start, j).len() ==> no_top_bar(
                #[trigger] split_top_from(s, 0x7Cu8, start, j)[k],
            ),
        forall|k: int|
            0 <= k < split_top_from(s, 0x7Cu8, start, j).len() - 1 ==> net_depth(
                #[trigger] split_top_from(s, 0x7Cu8, start, j)[k],
            ) == 0,
    decreases s.len() - j,
{
    let ps = split_top_from(s, 0x7Cu8, start, j);
    if j >= s.len() {
        lemma_piece_no_top_bar(s, start, s.len() as int);
        assert(ps == seq![s.subrange(start, s.len() as int)]);
    } else if is_cut(s, 0x7Cu8, j) {
        lemma_piece_no_top_bar(s, start, j);
        let p = s.subrange(start, j);
        lemma_depth_subrange(s, start, j, j - start);
        assert(net_depth(p) == 0);
        assert(depth_at(s, j + 1) == depth_at(s, j) + depth_step(s[j]));
        lemma_split_parts(s, j + 1, j + 1);
        let rest = split_top_from(s, 0x7Cu8, j + 1, j + 1);
        assert(ps == seq![p] + rest);
        assert forall|k: int| 0 <= k < ps.len() implies no_top_bar(#[trigger] ps[k]) by {
            if k > 0 {
                assert(ps[k] == rest[k - 1]);
            }
        }
        assert forall|k: int| 0 <= k < ps.len() - 1 implies net_depth(#[trigger] ps[k]) == 0 by {
            if k > 0 {
                assert(ps[k] == rest[k - 1]);
            }
        }
    } else {
        lemma_split_parts(s, start, j + 1);
    }
}

/// Splitting text after a prefix that closes every bracket it opens is
/// splitting the rest.
proof fn lemma_split_shift(pre: Seq<u8>, rest: Seq<u8>, a: int, b: int)
    requires
        net_depth(pre) == 0,
        0 <= a <= b <= rest.len(),
    ensures
        split_top_from(pre + rest, 0x7Cu8, pre.len() + a, pre.len() + b) == split_top_from(
            rest,
            0x7Cu8,
            a,
            b,
        ),
    decreases rest.len() - b,
{
    let r = pre + rest;
    let n = pre.len() as int;
    if b >= rest.len() {
        assert(r.subrange(n + a, r.len() as int) =~= rest.subrange(a, rest.len() as int));
    } else {
        lemma_depth_concat(pre, rest, b);
        assert(r[n + b] == rest[b]);
        assert(is_cut(r, 0x7Cu8, n + b) == is_cut(rest, 0x7Cu8, b));
        if is_cut(rest, 0x7Cu8, b) {
            lemma_split_shift(pre, rest, b + 1, b + 1);
            assert(r.subrange(n + a, n + b) =~= rest.subrange(a, b));
        } else {
            lemma_split_shift(pre, rest, a, b + 1);
        }
    }
}

/// Splitting from `j` when nothing is cut before `e` and `e` is cut.
proof fn lemma_split_scan(r: Seq<u8>, start: int, j: int, e: int)
    requires
        0 <= start <= j <= e < r.len(),
        forall|k: int| j <= k < e ==> !#[trigger] is_cut(r, 0x7Cu8, k),
        is_cut(r, 0x7Cu8, e),
    ensures
        split_top_from(r, 0x7Cu8, start, j) == seq![r.subrange(start, e)] + split_top_from(
            r,
            0x7Cu8,
            e + 1,
            e + 1,
        ),
    decreases e - j,
{
    if j < e {
        lemma_split_scan(r, start, j + 1, e);
    }
}

/// Splitting from `j` when nothing is cut from there on.
proof fn lemma_split_scan_end(r: Seq<u8>, start: int, j: int)
    requires
        0 <= start <= j <= r.len(),
        forall|k: int| j <= k < r.len() ==> !#[trigger] is_cut(r, 0x7Cu8, k),
    ensures
        split_top_from(r, 0x7Cu8, start, j) == seq![r.subrange(start, r.len() as int)],
    decreases r.len() - j,
{
    if j < r.len() {
        lemma_split_scan_end(r, start, j + 1);
    }
}

/// Members with no top-level `|`, all but the last closing every bracket
/// they open, joined with `|`, split back into themselves.
pub proof fn lemma_split_join(qs: Seq<Seq<u8>>)
    requires
        qs.len() >= 1,
        forall|k: int| 0 <= k < qs.len() ==> no_top_bar(#[trigger] qs[k]),
        forall|k: int| 0 <= k < qs.len() - 1 ==> net_depth(#[trigger] qs[k]) == 0,
    ensures
        split_top(join(qs, bar()), 0x7Cu8) == qs,
    decreases qs.len(),
{
    let r = join(qs, bar());
    let q0 = qs[0];
    assert(no_top_bar(q0));
    if qs.len() == 1 {
        assert(r == q0);
        assert forall|k: int| 0 <= k < r.len() implies !#[trigger] is_cut(r, 0x7Cu8, k) by {
            if r[k] == 0x7Cu8 {
                assert(depth_at(q0, k) != 0);
            }
        }
        lemma_split_scan_end(r, 0, 0);
        assert(r.subrange(0, r.len() as int) =~= q0);
        assert(seq![q0] =~= qs);
    } else {
        let rest = qs.skip(1);
        assert(qs =~= seq![q0] + rest);
        crate::docblock::types::lemma_join_prepend(q0, rest, bar());
        let jr = join(rest, bar());
        assert(r == q0 + bar() + jr);
        let pre = q0 + bar();
        assert(r == pre + jr);
        let n = q0.len() as int;
        assert forall|k: int| 0 <= k < rest.len() implies no_top_bar(#[trigger] rest[k]) by {
            assert(rest[k] == qs[k + 1]);
        }
        assert forall|k: int| 0 <= k < rest.len() - 1 implies net_depth(#[trigger] rest[k]) == 0 by {
            assert(rest[k] == qs[k + 1]);
        }
        lemma_split_join(rest);
        assert(net_depth(q0) == 0);
        lemma_depth_concat(q0, bar(), 1);
        assert(bar()[0] == 0x7Cu8);
        assert(depth_at(bar(), 1) == depth_at(bar(), 0) + depth_step(bar()[0]));
        assert(pre.len() == n + 1);
        assert(net_depth(pre) == 0);
        assert forall|k: int| 0 <= k < n implies !#[trigger] is_cut(r, 0x7Cu8, k) by {
            lemma_depth_prefix(r, n, k);
            assert(r.take(n) =~= q0);
            assert(r[k] == q0[k]);
            if q0[k] == 0x7Cu8 {
                assert(depth_at(q0, k) != 0);
            }
        }
        lemma_depth_prefix(r, n, n);
        assert(r.take(n) =~= q0);
        assert(r[n] == 0x7Cu8);
        assert(is_cut(r, 0x7Cu8, n));
        lemma_split_scan(r, 0, 0, n);
        lemma_split_shift(pre, jr, 0, 0);
        assert(r.subrange(0, n) =~= q0);
        assert(split_top(r, 0x7Cu8) == seq![q0] + rest);
    }
}

/// The trimmed members that are kept have no top-level `|`, are trimmed
/// already, are not `null`, and close their brackets when the members do.
proof fn lemma_nn_props(parts: Seq<Seq<u8>>)
    requires
        forall|k: int| 0 <= k < parts.len() ==> no_top_bar(#[trigger] parts[k]),
    ensures
        forall|k: int|
            0 <= k < non_null_parts(parts).len() ==> no_top_bar(#[trigger] non_null_parts(parts)[k])
                && trim(non_null_parts(parts)[k]) == non_null_parts(parts)[k] && !is_null_part(
                non_null_parts(parts)[k],
            ),
        (forall|k: int| 0 <= k < parts.len() ==> net_depth(#[trigger] parts[k]) == 0) ==> (forall|
            k: int,
        | 0 <= k < non_null_parts(parts).len() ==> net_depth(#[trigger] non_null_parts(parts)[k])
            == 0),
    decreases parts.len(),
{
    if parts.len() > 0 {
        let d = parts.drop_last();
        assert forall|k: int| 0 <= k < d.len() implies no_top_bar(#[trigger] d[k]) by {
            assert(d[k] == parts[k]);
        }
        lemma_nn_props(d);
        if forall|k: int| 0 <= k < parts.len() ==> net_depth(#[trigger] parts[k]) == 0 {
            assert forall|k: int| 0 <= k < d.len() implies net_depth(#[trigger] d[k]) == 0 by {
                assert(d[k] == parts[k]);
            }
        }
        let last = parts.last();
        assert(last == parts[parts.len() - 1]);
        lemma_trim_keeps(last);
        let prev = non_null_parts(d);
        if !is_null_part(last) {
            let t = trim(last);
            assert(non_null_parts(parts) == prev.push(t));
            assert(!is_null_part(t));
            assert forall|k: int| 0 <= k < prev.push(t).len() implies no_top_bar(
                #[trigger] prev.push(t)[k],
            ) && trim(prev.push(t)[k]) == prev.push(t)[k] && !is_null_part(prev.push(t)[k]) by {
                if k < prev.len() {
                    assert(prev.push(t)[k] == prev[k]);
                }
            }
            if forall|k: int| 0 <= k < parts.len() ==> net_depth(#[trigger] parts[k]) == 0 {
                assert forall|k: int| 0 <= k < prev.push(t).len() implies net_depth(
                    #[trigger] prev.push(t)[k],
                ) == 0 by {
                    if k < prev.len() {
                        assert(prev.push(t)[k] == prev[k]);
                    }
                }
            }
        }
    }
}

/// Keeping the trimmed members that are not `null` keeps members that are
/// trimmed and not `null` as they are.
proof fn lemma_nn_fixed(xs: Seq<Seq<u8>>)
    requires
        forall|k: int|
            0 <= k < xs.len() ==> trim(#[trigger] xs[k]) == xs[k] && !is_null_part(xs[k]),
    ensures
        non_null_parts(xs) == xs,
    decreases xs.len(),
{
    if xs.len() > 0 {
        let d = xs.drop_last();
        assert forall|k: int| 0 <= k < d.len() implies trim(#[trigger] d[k]) == d[k] && !is_null_part(
            d[k],
        ) by {
            assert(d[k] == xs[k]);
        }
        lemma_nn_fixed(d);
        assert(xs.last() == xs[xs.len() - 1]);
        assert(d.push(xs.last()) =~= xs);
    }
}

/// `null` is a `null` member, and holds no `|` and no bracket.
proof fn lemma_null_word()
    ensures
        is_null_part(null_word()),
        !has_byte(null_word(), 0x7Cu8),
        no_top_bar(null_word()),
        net_depth(null_word()) == 0,
{
    let w = null_word();
    assert(ws_prefix_len(w) == 0);
    assert(trim_start(w) == w);
    assert(ws_suffix_len(w) == 0);
    assert(trim_end(w) == w);
    lemma_zero_depth(w, 4);
}

/// Moving `null` to the end of a union twice is moving it once.
pub proof fn lemma_null_last_idempotent(s: Seq<u8>)
    ensures
        null_last(null_last(s)) == null_last(s),
{
    let parts = split_top(s, 0x7Cu8);
    if null_last(s) != s {
        lemma_split_parts(s, 0, 0);
        lemma_null_word();
        let nn = non_null_parts(parts);
        let r = join(nn.push(null_word()), bar());
        assert(null_last(s) == r);
        lemma_nn_props(parts);
        if nn.len() == 0 {
            assert(nn.push(null_word()) =~= seq![null_word()]);
            assert(r == null_word());
        } else if !starts_with(r, seq![0x3Fu8]) && has_byte(r, 0x7Cu8) {
            let d = parts.drop_last();
            assert forall|k: int| 0 <= k < d.len() implies no_top_bar(#[trigger] d[k]) && net_depth(
                d[k],
            ) == 0 by {
                assert(d[k] == parts[k]);
            }
            lemma_nn_props(d);
            let last = nn.last();
            assert(last == nn[nn.len() - 1]);
            assert(nn.drop_last().push(last) =~= nn);
            assert(forall|k: int|
                0 <= k < nn.len() - 1 ==> net_depth(#[trigger] nn[k]) == 0) by {
                if is_null_part(parts.last()) {
                    assert(nn == non_null_parts(d));
                } else {
                    assert(nn == non_null_parts(d).push(trim(parts.last())));
                    assert forall|k: int| 0 <= k < nn.len() - 1 implies net_depth(
                        #[trigger] nn[k],
                    ) == 0 by {
                        assert(nn[k] == non_null_parts(d)[k]);
                    }
                }
            }
            if net_depth(last) == 0 {
                let qs = nn.push(null_word());
                assert forall|k: int| 0 <= k < qs.len() implies no_top_bar(#[trigger] qs[k]) by {
                    if k < nn.len() {
                        assert(qs[k] == nn[k]);
                    }
                }
                assert forall|k: int| 0 <= k < qs.len() - 1 implies net_depth(#[trigger] qs[k])
                    == 0 by {
                    assert(qs[k] == nn[k]);
                }
                lemma_split_join(qs);
                assert(qs.drop_last() =~= nn);
                assert(qs.last() == null_word());
                assert(has_null_part(qs)) by {
                    assert(is_null_part(qs[qs.len() - 1]));
                }
                assert(non_null_parts(qs) == non_null_parts(nn));
                lemma_nn_fixed(nn);
                assert(reordered_null(r) == r);
            } else {
                let head = nn.drop_last();
                let l = last + bar() + null_word();
                let qs = head.push(l);
                assert(join(qs, bar()) == r) by {
                    let np = nn.push(null_word());
                    assert(np.drop_last() =~= nn);
                    assert(np.last() == null_word());
                    assert(r == join(nn, bar()) + bar() + null_word());
                    if nn.len() == 1 {
                        assert(qs =~= seq![l]);
                        assert(join(nn, bar()) == nn[0]);
                        assert(join(qs, bar()) == qs[0]);
                    } else {
                        assert(qs.drop_last() =~= head);
                        assert(qs.last() == l);
                        assert(join(nn, bar()) == join(nn.drop_last(), bar()) + bar() + nn.last());
                        assert(join(qs, bar()) == join(head, bar()) + bar() + l);
                        assert(join(qs, bar()) =~= join(head, bar()) + bar() + last + bar()
                            + null_word());
                    }
                }
                assert(no_top_bar(l)) by {
                    assert forall|x: int| 0 <= x < l.len() && #[trigger] l[x] == 0x7Cu8 implies depth_at(
                        l,
                        x,
                    ) != 0 by {
                        let m = last.len() as int;
                        if x < m {
                            assert(l[x] == last[x]);
                            lemma_depth_prefix(l, m, x);
                            assert(l.take(m) =~= last);
                        } else if x == m {
                            lemma_depth_prefix(l, m, m);
                            assert(l.take(m) =~= last);
                        } else {
                            assert(l[x] == null_word()[x - m - 1]);
                        }
                    }
                }
                assert forall|k: int| 0 <= k < qs.len() implies no_top_bar(#[trigger] qs[k]) by {
                    if k < head.len() {
                        assert(qs[k] == nn[k]);
                    }
                }
                assert forall|k: int| 0 <= k < qs.len() - 1 implies net_depth(#[trigger] qs[k])
                    == 0 by {
                    assert(qs[k] == nn[k]);
                }
                lemma_split_join(qs);
                assert(!has_null_part(qs)) by {
                    if has_null_part(qs) {
                        let k = choose|k: int| 0 <= k < qs.len() && is_null_part(qs[k]);
                        if k < head.len() {
                            assert(qs[k] == nn[k]);
                        } else {
                            assert(l[last.len() as int] == 0x7Cu8);
                            lemma_trim_keeps(l);
                        }
                    }
                }
                assert(reordered_null(r) == r);
            }
        }
    }
}

} // verus!
