//! Splitting a tag description into its type, its variable and the rest.
use vstd::prelude::*;

use crate::docblock::model::{opt_view, TagKind};
use crate::text::{
    copy_range, has_byte, is_alnum, is_word_byte, trim, trim_of, trim_start, trim_start_of,
};

verus! {

/// `<`, `(`, `[` and `{` open a nesting level of a type.
pub open spec fn is_open_bracket(b: u8) -> bool {
    b == 0x3Cu8 || b == 0x28u8 || b == 0x5Bu8 || b == 0x7Bu8
}

/// `>`, `)`, `]` and `}` close a nesting level of a type.
pub open spec fn is_close_bracket(b: u8) -> bool {
    b == 0x3Eu8 || b == 0x29u8 || b == 0x5Du8 || b == 0x7Du8
}

/// How a byte changes the nesting depth.
pub open spec fn depth_step(b: u8) -> int {
    if is_open_bracket(b) {
        1
    } else if is_close_bracket(b) {
        -1
    } else {
        0
    }
}

/// Nesting depth of `s` before offset `j`: opening brackets so far minus
/// closing brackets so far.
pub open spec fn depth_at(s: Seq<u8>, j: int) -> int
    decreases j,
{
    if j <= 0 || j > s.len() {
        0
    } else {
        depth_at(s, j - 1) + depth_step(s[j - 1])
    }
}

/// A space or tab outside of all brackets ends a type.
pub open spec fn is_type_break(s: Seq<u8>, j: int) -> bool {
    0 <= j < s.len() && (s[j] == 0x20u8 || s[j] == 0x09u8) && depth_at(s, j) == 0
}

/// The first offset at or after `j` where the type of `s` ends.
pub open spec fn type_end_from(s: Seq<u8>, j: int) -> int
    decreases s.len() - j,
{
    if j < 0 || j >= s.len() {
        s.len() as int
    } else if is_type_break(s, j) {
        j
    } else {
        type_end_from(s, j + 1)
    }
}

/// A description split into its leading type (if it starts with one) and the
/// rest. A description that starts with `$` has no type.
pub open spec fn split_type(s: Seq<u8>) -> (Option<Seq<u8>>, Seq<u8>) {
    let t = trim_start(s);
    if t.len() == 0 || t[0] == 0x24u8 {
        (None, t)
    } else {
        let i = type_end_from(t, 0);
        if i == 0 {
            (None, t)
        } else {
            (Some(t.take(i)), t.skip(i))
        }
    }
}

/// The end of the run of `.` and `&` that starts at `j`.
pub open spec fn sigil_end(t: Seq<u8>, j: int) -> int
    decreases t.len() - j,
{
    if 0 <= j < t.len() && (t[j] == 0x2Eu8 || t[j] == 0x26u8) {
        sigil_end(t, j + 1)
    } else {
        j
    }
}

/// The end of the run of word bytes that starts at `j`.
pub open spec fn word_end(t: Seq<u8>, j: int) -> int
    decreases t.len() - j,
{
    if 0 <= j < t.len() && is_word_byte(t[j]) {
        word_end(t, j + 1)
    } else {
        j
    }
}

/// A text split into its leading variable (`$name`, possibly after `...` or
/// `&`) and the rest.
pub open spec fn split_var(s: Seq<u8>) -> (Option<Seq<u8>>, Seq<u8>) {
    let t = trim_start(s);
    let st = sigil_end(t, 0);
    if st >= t.len() || t[st] != 0x24u8 {
        (None, t)
    } else {
        let e = word_end(t, st + 1);
        (Some(t.take(e)), t.skip(e))
    }
}

pub open spec fn is_param_kind(k: TagKind) -> bool {
    k is Param || k is PsalmParam || k is PhpstanParam
}

pub open spec fn is_return_kind(k: TagKind) -> bool {
    k is Return || k is PsalmReturn || k is PhpstanReturn
}

pub open spec fn is_var_kind(k: TagKind) -> bool {
    k is Var || k is PsalmVar || k is PhpstanVar || k is Type
}

pub open spec fn is_property_kind(k: TagKind) -> bool {
    k is Property || k is PropertyRead || k is PropertyWrite
}

/// The type, the variable and the rest of a type-first description.
pub open spec fn typed_parts(d: Seq<u8>, t: Seq<u8>, rest: Seq<u8>) -> (
    Option<Seq<u8>>,
    Option<Seq<u8>>,
    Seq<u8>,
) {
    let (v, rem) = split_var(trim_start(rest));
    (Some(t), v, trim_start(rem))
}

/// A tag description split into type, variable and rest, by tag kind:
/// parameters have a type and then a variable (or a variable only); returns
/// and throws have a type only; vars and properties have a type and maybe a
/// variable, or are kept whole; other tags are kept whole.
pub open spec fn tag_parts(desc: Seq<u8>, kind: TagKind) -> (
    Option<Seq<u8>>,
    Option<Seq<u8>>,
    Seq<u8>,
) {
    let d = trim(desc);
    if d.len() == 0 {
        (None, None, Seq::empty())
    } else if is_param_kind(kind) {
        match split_type(d) {
            (Some(t), rest) => typed_parts(d, t, rest),
            (None, _) => {
                let (v, rem) = split_var(d);
                (None, v, trim_start(rem))
            },
        }
    } else if is_return_kind(kind) || kind is Throws {
        let (ty, rest) = split_type(d);
        (ty, None, trim_start(rest))
    } else if is_var_kind(kind) || is_property_kind(kind) {
        match split_type(d) {
            (Some(t), rest) => typed_parts(d, t, rest),
            (None, _) => (None, None, d),
        }
    } else {
        (None, None, d)
    }
}

/// Sort priority of a tag kind: parameters, then returns, then throws, then
/// the rest.
pub open spec fn priority_of(kind: TagKind) -> u8 {
    if is_param_kind(kind) {
        0
    } else if is_return_kind(kind) {
        1
    } else if kind is Throws {
        2
    } else {
        3
    }
}

/// Tags sort by kind in four bands: the parameter tags (`@param`,
/// `@psalm-param`, `@phpstan-param`) first, then every return tag
/// (`@return`, `@psalm-return`, `@phpstan-return`), then `@throws`, then
/// every other tag.
pub proof fn lemma_priority_bands(k: TagKind)
    ensures
        priority_of(k) == 0 <==> (k is Param || k is PsalmParam || k is PhpstanParam),
        priority_of(k) == 1 <==> (k is Return || k is PsalmReturn || k is PhpstanReturn),
        priority_of(k) == 2 <==> k is Throws,
        priority_of(k) == 3 <==> !(k is Param || k is PsalmParam || k is PhpstanParam || k is Return
            || k is PsalmReturn || k is PhpstanReturn || k is Throws),
{
}

/// Where the type of `s` ends is at or after `j`, and no break lies between.
pub proof fn lemma_type_end_from(s: Seq<u8>, j: int)
    requires
        0 <= j <= s.len(),
    ensures
        j <= type_end_from(s, j) <= s.len(),
        type_end_from(s, j) == s.len() || is_type_break(s, type_end_from(s, j)),
        forall|k: int| j <= k < type_end_from(s, j) ==> !is_type_break(s, k),
    decreases s.len() - j,
{
    if j < s.len() && !is_type_break(s, j) {
        lemma_type_end_from(s, j + 1);
    }
}

/// The runs end at or after where they start and within the text.
pub proof fn lemma_runs(t: Seq<u8>, j: int)
    requires
        0 <= j <= t.len(),
    ensures
        j <= sigil_end(t, j) <= t.len(),
        j <= word_end(t, j) <= t.len(),
        forall|k: int| j <= k < sigil_end(t, j) ==> (t[k] == 0x2Eu8 || t[k] == 0x26u8),
        forall|k: int| j <= k < word_end(t, j) ==> is_word_byte(t[k]),
    decreases t.len() - j,
{
    if j < t.len() {
        lemma_runs(t, j + 1);
    }
}

/// A type that the split finds is not empty, and the type and the rest put
/// back together give the trimmed description.
pub proof fn lemma_split_type_parts(s: Seq<u8>)
    ensures
        match split_type(s) {
            (Some(t), rest) => t.len() > 0 && t + rest == trim_start(s),
            (None, rest) => rest == trim_start(s),
        },
{
    let t = trim_start(s);
    if t.len() > 0 && t[0] != 0x24u8 {
        lemma_type_end_from(t, 0);
        let i = type_end_from(t, 0);
        assert(t.take(i) + t.skip(i) =~= t);
    }
}

/// A variable that the split finds starts with its sigils and a `$`, and the
/// variable and the rest put back together give the trimmed text.
pub proof fn lemma_split_var_parts(s: Seq<u8>)
    ensures
        match split_var(s) {
            (Some(v), rest) => v + rest == trim_start(s) && has_byte(v, 0x24u8),
            (None, rest) => rest == trim_start(s),
        },
{
    let t = trim_start(s);
    lemma_runs(t, 0);
    let st = sigil_end(t, 0);
    if st < t.len() && t[st] == 0x24u8 {
        lemma_runs(t, st + 1);
        let e = word_end(t, st + 1);
        assert(t.take(e) + t.skip(e) =~= t);
        assert(t.take(e)[st] == 0x24u8);
    }
}

/// Splits the leading type from the rest of a tag description.
pub fn split_type_from_desc(s: &[u8]) -> (r: (Option<Vec<u8>>, Vec<u8>))
    ensures
        (opt_view(r.0), r.1@) == split_type(s@),
{
    let t = trim_start_of(s);
    let len = t.len();
    if len == 0 || t[0] == 0x24 {
        return (None, t);
    }
    let mut i: usize = 0;
    let mut opens: usize = 0;
    let mut closes: usize = 0;
    while i < len
        invariant
            len == t@.len(),
            i <= len,
            opens <= i,
            closes <= i,
            opens - closes == depth_at(t@, i as int),
            type_end_from(t@, i as int) == type_end_from(t@, 0),
        ensures
            i == type_end_from(t@, 0),
        decreases len - i,
    {
        let b = t[i];
        if b == 0x3C || b == 0x28 || b == 0x5B || b == 0x7B {
            opens = opens + 1;
        } else if b == 0x3E || b == 0x29 || b == 0x5D || b == 0x7D {
            closes = closes + 1;
        } else if (b == 0x20 || b == 0x09) && opens == closes {
            break ;
        }
        i = i + 1;
    }
    if i == 0 {
        return (None, t);
    }
    let ty = copy_range(t.as_slice(), 0, i);
    let rest = copy_range(t.as_slice(), i, len);
    assert(rest@ =~= t@.skip(i as int));
    assert(ty@ =~= t@.take(i as int));
    (Some(ty), rest)
}

/// Splits a leading `$variable` (possibly after `...` or `&`) from the rest.
pub fn split_variable(s: &[u8]) -> (r: (Option<Vec<u8>>, Vec<u8>))
    ensures
        (opt_view(r.0), r.1@) == split_var(s@),
{
    let t = trim_start_of(s);
    let len = t.len();
    let mut start: usize = 0;
    while start < len && (t[start] == 0x2E || t[start] == 0x26)
        invariant
            len == t@.len(),
            start <= len,
            sigil_end(t@, start as int) == sigil_end(t@, 0),
        decreases len - start,
    {
        start = start + 1;
    }
    if start >= len || t[start] != 0x24 {
        return (None, t);
    }
    let mut end: usize = start + 1;
    while end < len && (is_word(t[end]))
        invariant
            len == t@.len(),
            start < end <= len,
            word_end(t@, end as int) == word_end(t@, start + 1),
        decreases len - end,
    {
        end = end + 1;
    }
    let var = copy_range(t.as_slice(), 0, end);
    let rest = copy_range(t.as_slice(), end, len);
    assert(rest@ =~= t@.skip(end as int));
    assert(var@ =~= t@.take(end as int));
    (Some(var), rest)
}

/// Whether `b` is an ASCII letter or digit.
pub fn is_alnum_byte(b: u8) -> (r: bool)
    ensures
        r == is_alnum(b),
{
    (0x30 <= b && b <= 0x39) || (0x41 <= b && b <= 0x5A) || (0x61 <= b && b <= 0x7A)
}

/// Whether `b` is an ASCII letter, digit or `_`.
pub fn is_word(b: u8) -> (r: bool)
    ensures
        r == is_word_byte(b),
{
    is_alnum_byte(b) || b == 0x5F
}

/// Sort priority of a tag kind.
pub fn tag_priority(kind: TagKind) -> (r: u8)
    ensures
        r == priority_of(kind),
        r <= 3,
{
    match kind {
        TagKind::Param | TagKind::PsalmParam | TagKind::PhpstanParam => 0,
        TagKind::Return | TagKind::PsalmReturn | TagKind::PhpstanReturn => 1,
        TagKind::Throws => 2,
        _ => 3,
    }
}

/// Type, variable and rest of a description whose type `ty` was split off,
/// leaving `rest`.
fn typed_tag_parts(ty: Vec<u8>, rest: &[u8]) -> (r: (Option<Vec<u8>>, Option<Vec<u8>>, Vec<u8>))
    ensures
        (opt_view(r.0), opt_view(r.1), r.2@) == (Some(ty@), split_var(trim_start(rest@)).0,
        trim_start(split_var(trim_start(rest@)).1)),
{
    let rest = trim_start_of(rest);
    let (var, remainder) = split_variable(rest.as_slice());
    let remainder = trim_start_of(remainder.as_slice());
    (Some(ty), var, remainder)
}

/// Splits a tag description into type, variable and rest, by tag kind.
pub fn parse_tag_parts(desc: &[u8], kind: TagKind) -> (r: (
    Option<Vec<u8>>,
    Option<Vec<u8>>,
    Vec<u8>,
))
    ensures
        (opt_view(r.0), opt_view(r.1), r.2@) == tag_parts(desc@, kind),
{
    let desc = trim_of(desc);
    if desc.len() == 0 {
        return (None, None, Vec::new());
    }
    match kind {
        TagKind::Param | TagKind::PsalmParam | TagKind::PhpstanParam => {
            let (type_str, rest) = split_type_from_desc(desc.as_slice());
            match type_str {
                Some(ty) => typed_tag_parts(ty, rest.as_slice()),
                None => {
                    let (var, remainder) = split_variable(desc.as_slice());
                    let remainder = trim_start_of(remainder.as_slice());
                    (None, var, remainder)
                },
            }
        },
        TagKind::Return | TagKind::PsalmReturn | TagKind::PhpstanReturn | TagKind::Throws => {
            let (type_str, rest) = split_type_from_desc(desc.as_slice());
            let rest = trim_start_of(rest.as_slice());
            (type_str, None, rest)
        },
        TagKind::Var | TagKind::PsalmVar | TagKind::PhpstanVar | TagKind::Type
        | TagKind::Property | TagKind::PropertyRead | TagKind::PropertyWrite => {
            let (type_str, rest) = split_type_from_desc(desc.as_slice());
            match type_str {
                Some(ty) => typed_tag_parts(ty, rest.as_slice()),
                None => (None, None, desc),
            }
        },
        _ => (None, None, desc),
    }
}

} // verus!
