//! Rewriting of docblock type expressions: scalar type names and the place of
//! `null` in a union.
use vstd::prelude::*;

use crate::docblock::parts::{depth_at, depth_step, is_close_bracket, is_open_bracket, is_word};
use crate::text::{
    copy_range, has_byte, has_byte_in, is_word_byte, join, join_with, push_all, starts_with,
    starts_with_bytes, trim, trim_of, views, lemma_views_push,
};

verus! {

/// The scalar names that are rewritten, in the order they are tried.
pub open spec fn scalar_old(k: int) -> Seq<u8> {
    if k == 0 {
        seq![0x69u8, 0x6Eu8, 0x74u8, 0x65u8, 0x67u8, 0x65u8, 0x72u8]  // integer

    } else if k == 1 {
        seq![0x62u8, 0x6Fu8, 0x6Fu8, 0x6Cu8, 0x65u8, 0x61u8, 0x6Eu8]  // boolean

    } else if k == 2 {
        seq![0x64u8, 0x6Fu8, 0x75u8, 0x62u8, 0x6Cu8, 0x65u8]  // double

    } else {
        seq![0x72u8, 0x65u8, 0x61u8, 0x6Cu8]  // real

    }
}

/// What each scalar name is rewritten to.
pub open spec fn scalar_new(k: int) -> Seq<u8> {
    if k == 0 {
        seq![0x69u8, 0x6Eu8, 0x74u8]  // int

    } else if k == 1 {
        seq![0x62u8, 0x6Fu8, 0x6Fu8, 0x6Cu8]  // bool

    } else {
        seq![0x66u8, 0x6Cu8, 0x6Fu8, 0x61u8, 0x74u8]  // float

    }
}

/// `s` starts with the whole word `scalar_old(k)`.
pub open spec fn scalar_match(s: Seq<u8>, k: int) -> bool {
    let w = scalar_old(k);
    starts_with(s, w) && (s.len() == w.len() || !is_word_byte(s[w.len() as int]))
}

/// The first scalar name that `s` starts with as a whole word: its length and
/// its replacement.
pub open spec fn scalar_word(s: Seq<u8>) -> Option<(nat, Seq<u8>)> {
    if scalar_match(s, 0) {
        Some((scalar_old(0).len(), scalar_new(0)))
    } else if scalar_match(s, 1) {
        Some((scalar_old(1).len(), scalar_new(1)))
    } else if scalar_match(s, 2) {
        Some((scalar_old(2).len(), scalar_new(2)))
    } else if scalar_match(s, 3) {
        Some((scalar_old(3).len(), scalar_new(3)))
    } else {
        None
    }
}

/// A word can start at `i`: at the start, or after a byte that is not a word byte.
pub open spec fn at_word_start(s: Seq<u8>, i: int) -> bool {
    i == 0 || !is_word_byte(s[i - 1])
}

/// `s[i..]` with every scalar name that starts a word replaced.
pub open spec fn normalized_from(s: Seq<u8>, i: int) -> Seq<u8>
    decreases s.len() - i,
{
    if i < 0 || i >= s.len() {
        Seq::empty()
    } else if at_word_start(s, i) && scalar_word(s.skip(i)) is Some {
        let (n, w) = scalar_word(s.skip(i))->0;
        w + normalized_from(s, i + n)
    } else {
        seq![s[i]] + normalized_from(s, i + 1)
    }
}

/// `s` with `integer`, `boolean`, `double`, `real` written as `int`, `bool`,
/// `float`, `float` wherever they stand as whole words.
pub open spec fn normalized(s: Seq<u8>) -> Seq<u8> {
    normalized_from(s, 0)
}

/// UTF-8 continuation bytes.
pub open spec fn is_continuation(b: u8) -> bool {
    0x80u8 <= b && b < 0xC0u8
}

/// Every offset at which the rewriting may look for a word is the start of a
/// character: no continuation byte follows a byte that is not a word byte.
pub open spec fn scalar_scan_safe(s: Seq<u8>) -> bool {
    forall|i: int| 1 <= i < s.len() && is_continuation(s[i]) ==> is_word_byte(s[i - 1])
}

/// `null`.
pub open spec fn null_word() -> Seq<u8> {
    seq![0x6Eu8, 0x75u8, 0x6Cu8, 0x6Cu8]
}

/// `|`.
pub open spec fn bar() -> Seq<u8> {
    seq![0x7Cu8]
}

/// Offset `j` splits `s` at the top level: it holds `d` outside of all brackets.
pub open spec fn is_cut(s: Seq<u8>, d: u8, j: int) -> bool {
    0 <= j < s.len() && s[j] == d && !is_open_bracket(d) && !is_close_bracket(d) && depth_at(s, j)
        == 0
}

/// The pieces of `s[start..]` between the top-level cuts at or after `j`.
pub open spec fn split_top_from(s: Seq<u8>, d: u8, start: int, j: int) -> Seq<Seq<u8>>
    decreases s.len() - j,
{
    if j < 0 || j >= s.len() {
        seq![s.subrange(start, s.len() as int)]
    } else if is_cut(s, d, j) {
        seq![s.subrange(start, j)] + split_top_from(s, d, j + 1, j + 1)
    } else {
        split_top_from(s, d, start, j + 1)
    }
}

/// The pieces of `s` between occurrences of `d` outside of all brackets.
pub open spec fn split_top(s: Seq<u8>, d: u8) -> Seq<Seq<u8>> {
    split_top_from(s, d, 0, 0)
}

/// A union member that is `null` (up to surrounding white space).
pub open spec fn is_null_part(p: Seq<u8>) -> bool {
    trim(p) == null_word()
}

/// The trimmed members that are not `null`, in order.
pub open spec fn non_null_parts(parts: Seq<Seq<u8>>) -> Seq<Seq<u8>>
    decreases parts.len(),
{
    if parts.len() == 0 {
        Seq::empty()
    } else {
        let rest = non_null_parts(parts.drop_last());
        if is_null_part(parts.last()) {
            rest
        } else {
            rest.push(trim(parts.last()))
        }
    }
}

/// Some member is `null`.
pub open spec fn has_null_part(parts: Seq<Seq<u8>>) -> bool {
    exists|i: int| 0 <= i < parts.len() && is_null_part(parts[i])
}

/// A union with its top-level `null` members moved to the end (as one `null`);
/// other texts unchanged.
pub open spec fn reordered_null(s: Seq<u8>) -> Seq<u8> {
    let parts = split_top(s, 0x7Cu8);
    if parts.len() <= 1 || !has_null_part(parts) {
        s
    } else {
        join(non_null_parts(parts).push(null_word()), bar())
    }
}

/// A type with `null` moved to the end of its union; nullable `?T` types and
/// texts without `|` are unchanged.
pub open spec fn null_last(s: Seq<u8>) -> Seq<u8> {
    if starts_with(s, seq![0x3Fu8]) || !has_byte(s, 0x7Cu8) {
        s
    } else {
        reordered_null(s)
    }
}

/// The pieces of a split are never empty in number.
pub proof fn lemma_split_top_from_len(s: Seq<u8>, d: u8, start: int, j: int)
    ensures
        split_top_from(s, d, start, j).len() >= 1,
    decreases s.len() - j,
{
    if 0 <= j < s.len() {
        if is_cut(s, d, j) {
            lemma_split_top_from_len(s, d, j + 1, j + 1);
        } else {
            lemma_split_top_from_len(s, d, start, j + 1);
        }
    }
}

/// Joining with a part in front.
pub proof fn lemma_join_prepend(a: Seq<u8>, rest: Seq<Seq<u8>>, sep: Seq<u8>)
    requires
        rest.len() >= 1,
    ensures
        join(seq![a] + rest, sep) == a + sep + join(rest, sep),
    decreases rest.len(),
{
    let all = seq![a] + rest;
    assert(all.drop_last() =~= seq![a] + rest.drop_last());
    if rest.len() == 1 {
        assert(seq![a].drop_last() =~= Seq::<Seq<u8>>::empty());
        assert(join(seq![a], sep) == a);
        assert(rest.drop_last().len() == 0);
        assert(seq![a] + rest.drop_last() =~= seq![a]);
    } else {
        lemma_join_prepend(a, rest.drop_last(), sep);
        assert(a + sep + join(rest.drop_last(), sep) + sep + rest.last() =~= a + sep + (join(
            rest.drop_last(),
            sep,
        ) + sep + rest.last()));
    }
}

/// Putting the pieces back together with the separator gives the text.
pub proof fn lemma_split_top_from_join(s: Seq<u8>, d: u8, start: int, j: int)
    requires
        0 <= start <= j <= s.len(),
    ensures
        join(split_top_from(s, d, start, j), seq![d]) == s.subrange(start, s.len() as int),
    decreases s.len() - j,
{
    if j < s.len() {
        if is_cut(s, d, j) {
            lemma_split_top_from_join(s, d, j + 1, j + 1);
            lemma_split_top_from_len(s, d, j + 1, j + 1);
            lemma_join_prepend(s.subrange(start, j), split_top_from(s, d, j + 1, j + 1), seq![d]);
            assert(s.subrange(start, j) + seq![d] + s.subrange(j + 1, s.len() as int)
                =~= s.subrange(start, s.len() as int));
        } else {
            lemma_split_top_from_join(s, d, start, j + 1);
        }
    }
}

/// Splitting at the top level and joining again with the separator gives
/// back the text.
pub proof fn lemma_split_top_join(s: Seq<u8>, d: u8)
    ensures
        join(split_top(s, d), seq![d]) == s,
{
    lemma_split_top_from_join(s, d, 0, 0);
    assert(s.subrange(0, s.len() as int) =~= s);
}

/// Whether the scalar rewriting can scan `s` without slicing inside a
/// character.
pub fn is_scalar_scan_safe(s: &[u8]) -> (r: bool)
    ensures
        r == scalar_scan_safe(s@),
{
    let mut i: usize = 1;
    while i < s.len()
        invariant
            1 <= i,
            forall|j: int| 1 <= j < i && j < s@.len() && is_continuation(s@[j]) ==> is_word_byte(
                s@[j - 1],
            ),
        decreases s@.len() - i,
    {
        if 0x80 <= s[i] && s[i] < 0xC0 && !is_word(s[i - 1]) {
            assert(is_continuation(s@[i as int]) && !is_word_byte(s@[i - 1]));
            return false;
        }
        i = i + 1;
    }
    true
}

/// Whether `s` starts with the whole word `w`.
fn word_at(s: &[u8], w: &[u8]) -> (r: bool)
    ensures
        r == (starts_with(s@, w@) && (s@.len() == w@.len() || !is_word_byte(s@[w@.len() as int]))),
{
    if !starts_with_bytes(s, w) {
        return false;
    }
    if s.len() == w.len() {
        return true;
    }
    !is_word(s[w.len()])
}

/// `integer`.
fn integer_word() -> (r: Vec<u8>)
    ensures
        r@ == scalar_old(0),
{
    let r = vec![0x69u8, 0x6Eu8, 0x74u8, 0x65u8, 0x67u8, 0x65u8, 0x72u8];
    assert(r@ =~= scalar_old(0));
    r
}

/// `boolean`.
fn boolean_word() -> (r: Vec<u8>)
    ensures
        r@ == scalar_old(1),
{
    let r = vec![0x62u8, 0x6Fu8, 0x6Fu8, 0x6Cu8, 0x65u8, 0x61u8, 0x6Eu8];
    assert(r@ =~= scalar_old(1));
    r
}

/// `double`.
fn double_word() -> (r: Vec<u8>)
    ensures
        r@ == scalar_old(2),
{
    let r = vec![0x64u8, 0x6Fu8, 0x75u8, 0x62u8, 0x6Cu8, 0x65u8];
    assert(r@ =~= scalar_old(2));
    r
}

/// `real`.
fn real_word() -> (r: Vec<u8>)
    ensures
        r@ == scalar_old(3),
{
    let r = vec![0x72u8, 0x65u8, 0x61u8, 0x6Cu8];
    assert(r@ =~= scalar_old(3));
    r
}

/// The scalar name that a word of `s` starts with, if any: its length in
/// bytes and the name to write instead.
pub fn check_scalar_word(s: &[u8]) -> (r: Option<(usize, Vec<u8>)>)
    ensures
        match (r, scalar_word(s@)) {
            (Some((n, w)), Some((m, v))) => n == m && w@ == v,
            (None, None) => true,
            _ => false,
        },
{
    let integer = integer_word();
    if word_at(s, integer.as_slice()) {
        let r = vec![0x69u8, 0x6Eu8, 0x74u8];
        assert(r@ =~= scalar_new(0));
        return Some((7, r));
    }
    let boolean = boolean_word();
    if word_at(s, boolean.as_slice()) {
        let r = vec![0x62u8, 0x6Fu8, 0x6Fu8, 0x6Cu8];
        assert(r@ =~= scalar_new(1));
        return Some((7, r));
    }
    let double = double_word();
    if word_at(s, double.as_slice()) {
        let r = vec![0x66u8, 0x6Cu8, 0x6Fu8, 0x61u8, 0x74u8];
        assert(r@ =~= scalar_new(2));
        return Some((6, r));
    }
    let real_name = real_word();
    if word_at(s, real_name.as_slice()) {
        let r = vec![0x66u8, 0x6Cu8, 0x6Fu8, 0x61u8, 0x74u8];
        assert(r@ =~= scalar_new(3));
        return Some((4, r));
    }
    None
}

/// Rewrites scalar type names that stand as whole words: `integer` to `int`,
/// `boolean` to `bool`, `double` and `real` to `float`.
pub fn normalize_scalar_types(type_str: &[u8]) -> (r: Vec<u8>)
    requires
        scalar_scan_safe(type_str@),
    ensures
        r@ == normalized(type_str@),
{
    let s = type_str;
    let len = s.len();
    let mut result: Vec<u8> = Vec::new();
    let mut last: usize = 0;
    let mut i: usize = 0;
    while i < len
        invariant
            len == s@.len(),
            last <= i <= len,
            result@ + s@.subrange(last as int, i as int) + normalized_from(s@, i as int)
                == normalized(s@),
        decreases len - i,
    {
        let boundary = i == 0 || !is_word(s[i - 1]);
        if boundary {
            let remaining = vstd::slice::slice_subrange(s, i, len);
            assert(remaining@ =~= s@.skip(i as int));
            match check_scalar_word(remaining) {
                Some((old_len, new_word)) => {
                    let ghost before = result@;
                    let pending = vstd::slice::slice_subrange(s, last, i);
                    push_all(&mut result, pending);
                    push_all(&mut result, new_word.as_slice());
                    assert(result@ + s@.subrange((i + old_len) as int, (i + old_len) as int)
                        + normalized_from(s@, i + old_len) =~= before + s@.subrange(
                        last as int,
                        i as int,
                    ) + normalized_from(s@, i as int));
                    last = i + old_len;
                    i = i + old_len;
                    continue ;
                },
                None => {},
            }
        }
        assert(s@.subrange(last as int, i + 1) =~= s@.subrange(last as int, i as int) + seq![
            s@[i as int],
        ]);
        assert(result@ + s@.subrange(last as int, i + 1) + normalized_from(s@, i + 1) =~= result@
            + s@.subrange(last as int, i as int) + normalized_from(s@, i as int));
        i = i + 1;
    }
    let tail = vstd::slice::slice_subrange(s, last, len);
    push_all(&mut result, tail);
    assert(result@ =~= result@ + normalized_from(s@, len as int));
    result
}

/// Splits `s` at occurrences of `delim` outside of all brackets.
pub fn split_top_level(s: &[u8], delim: u8) -> (r: Vec<Vec<u8>>)
    ensures
        views(r@) == split_top(s@, delim),
{
    let len = s.len();
    let mut parts: Vec<Vec<u8>> = Vec::new();
    let mut opens: usize = 0;
    let mut closes: usize = 0;
    let mut start: usize = 0;
    let mut i: usize = 0;
    let is_bracket = delim == 0x3C || delim == 0x28 || delim == 0x5B || delim == 0x7B || delim
        == 0x3E || delim == 0x29 || delim == 0x5D || delim == 0x7D;
    while i < len
        invariant
            len == s@.len(),
            start <= i <= len,
            opens <= i,
            closes <= i,
            opens - closes == depth_at(s@, i as int),
            is_bracket == (is_open_bracket(delim) || is_close_bracket(delim)),
            views(parts@) + split_top_from(s@, delim, start as int, i as int) == split_top(
                s@,
                delim,
            ),
        decreases len - i,
    {
        let c = s[i];
        if c == 0x3C || c == 0x28 || c == 0x5B || c == 0x7B {
            opens = opens + 1;
        } else if c == 0x3E || c == 0x29 || c == 0x5D || c == 0x7D {
            closes = closes + 1;
        } else if c == delim && opens == closes {
            let ghost old_parts = parts@;
            let piece = copy_range(s, start, i);
            parts.push(piece);
            proof {
                lemma_views_push(old_parts, parts@.last());
                assert(is_cut(s@, delim, i as int));
                assert(views(old_parts).push(piece@) + split_top_from(
                    s@,
                    delim,
                    i + 1,
                    i + 1,
                ) =~= views(old_parts) + split_top_from(s@, delim, start as int, i as int));
            }
            start = i + 1;
        }
        i = i + 1;
    }
    let ghost old_parts = parts@;
    let piece = copy_range(s, start, len);
    parts.push(piece);
    proof {
        lemma_views_push(old_parts, parts@.last());
        assert(views(old_parts).push(piece@) =~= views(old_parts) + split_top_from(
            s@,
            delim,
            start as int,
            len as int,
        ));
    }
    parts
}

/// Whether `p`, trimmed, is `null`.
fn is_null_text(p: &[u8]) -> (r: bool)
    ensures
        r == is_null_part(p@),
{
    let t = trim_of(p);
    let null = vec![0x6Eu8, 0x75u8, 0x6Cu8, 0x6Cu8];
    assert(null@ =~= null_word());
    if t.len() != 4 {
        assert(t@.len() != null_word().len());
        return false;
    }
    let r = t[0] == null[0] && t[1] == null[1] && t[2] == null[2] && t[3] == null[3];
    if r {
        assert(t@ =~= null_word());
    } else {
        assert(t@ != null_word());
    }
    r
}

/// Moves top-level `null` members of a union to its end.
pub fn reorder_outer_union_null(type_str: &[u8]) -> (r: Vec<u8>)
    ensures
        r@ == reordered_null(type_str@),
{
    let parts = split_top_level(type_str, 0x7C);
    let ghost ps = views(parts@);
    if parts.len() <= 1 {
        return copy_range(type_str, 0, type_str.len());
    }
    let mut non_null: Vec<Vec<u8>> = Vec::new();
    let mut has_null = false;
    let mut i: usize = 0;
    while i < parts.len()
        invariant
            ps == views(parts@),
            i <= parts@.len(),
            views(non_null@) == non_null_parts(ps.take(i as int)),
            has_null == has_null_part(ps.take(i as int)),
        decreases parts@.len() - i,
    {
        let part = parts[i].as_slice();
        let ghost pre = ps.take(i as int);
        assert(ps.take(i + 1).drop_last() =~= pre);
        assert(ps.take(i + 1).last() == ps[i as int]);
        if is_null_text(part) {
            has_null = true;
            assert(has_null_part(ps.take(i + 1))) by {
                assert(is_null_part(ps.take(i + 1)[i as int]));
            }
        } else {
            let ghost old_nn = non_null@;
            non_null.push(trim_of(part));
            proof {
                lemma_views_push(old_nn, non_null@.last());
            }
            assert(has_null_part(ps.take(i + 1)) == has_null_part(pre)) by {
                if has_null_part(ps.take(i + 1)) {
                    let k = choose|k: int|
                        0 <= k < i + 1 && is_null_part(#[trigger] ps.take(i + 1)[k]);
                    assert(k < i);
                    assert(pre[k] == ps.take(i + 1)[k]);
                }
                if has_null_part(pre) {
                    let k = choose|k: int| 0 <= k < i && is_null_part(#[trigger] pre[k]);
                    assert(pre[k] == ps.take(i + 1)[k]);
                }
            }
        }
        if !has_null {
            assert(!has_null_part(ps.take(i + 1)));
        }
        i = i + 1;
    }
    assert(ps.take(i as int) =~= ps);
    if !has_null {
        return copy_range(type_str, 0, type_str.len());
    }
    let ghost old_nn = non_null@;
    let null = vec![0x6Eu8, 0x75u8, 0x6Cu8, 0x6Cu8];
    assert(null@ =~= null_word());
    non_null.push(null);
    proof {
        lemma_views_push(old_nn, non_null@.last());
    }
    let sep = vec![0x7Cu8];
    assert(sep@ =~= bar());
    join_with(&non_null, sep.as_slice())
}

/// Moves `null` to the end of a union type; `?T` types and types that are
/// not unions are returned as they are.
pub fn move_null_to_end(type_str: &[u8]) -> (r: Vec<u8>)
    ensures
        r@ == null_last(type_str@),
{
    let q = vec![0x3Fu8];
    if starts_with_bytes(type_str, q.as_slice()) {
        assert(q@ =~= seq![0x3Fu8]);
        return copy_range(type_str, 0, type_str.len());
    }
    assert(q@ =~= seq![0x3Fu8]);
    if !has_byte_in(type_str, 0x7C) {
        return copy_range(type_str, 0, type_str.len());
    }
    reorder_outer_union_null(type_str)
}

} // verus!
