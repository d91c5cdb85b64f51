//! Byte-level text primitives over UTF-8 encoded text.
//!
//! Every operation here works on the bytes of a UTF-8 string. The characters
//! that the formatter and the rules split on are all ASCII, so splitting a
//! valid UTF-8 sequence at one of them yields valid UTF-8 again.
use vstd::prelude::*;

verus! {

/// ASCII white space as `char::is_whitespace` sees it (tab, line feed,
/// vertical tab, form feed, carriage return, space).
pub open spec fn is_ascii_ws(b: u8) -> bool {
    b == 0x20u8 || (0x09u8 <= b && b <= 0x0du8)
}

/// The three-byte UTF-8 encodings of white-space characters
/// (U+1680, U+2000..U+200A, U+2028, U+2029, U+202F, U+205F, U+3000).
pub open spec fn is_ws3(a: u8, b: u8, c: u8) -> bool {
    ||| (a == 0xE1u8 && b == 0x9Au8 && c == 0x80u8)
    ||| (a == 0xE2u8 && b == 0x80u8 && ((0x80u8 <= c && c <= 0x8Au8) || c == 0xA8u8 || c == 0xA9u8
        || c == 0xAFu8))
    ||| (a == 0xE2u8 && b == 0x81u8 && c == 0x9Fu8)
    ||| (a == 0xE3u8 && b == 0x80u8 && c == 0x80u8)
}

/// The two-byte UTF-8 encodings of white-space characters (U+0085, U+00A0).
pub open spec fn is_ws2(a: u8, b: u8) -> bool {
    a == 0xC2u8 && (b == 0x85u8 || b == 0xA0u8)
}

/// Length in bytes of the white-space character that starts `s`, or 0.
pub open spec fn ws_prefix_len(s: Seq<u8>) -> nat {
    if s.len() >= 1 && is_ascii_ws(s[0]) {
        1
    } else if s.len() >= 2 && is_ws2(s[0], s[1]) {
        2
    } else if s.len() >= 3 && is_ws3(s[0], s[1], s[2]) {
        3
    } else {
        0
    }
}

/// Length in bytes of the white-space character that ends `s`, or 0.
pub open spec fn ws_suffix_len(s: Seq<u8>) -> nat {
    let n = s.len();
    if n >= 1 && is_ascii_ws(s[n - 1]) {
        1
    } else if n >= 2 && is_ws2(s[n - 2], s[n - 1]) {
        2
    } else if n >= 3 && is_ws3(s[n - 3], s[n - 2], s[n - 1]) {
        3
    } else {
        0
    }
}

/// `s` without its leading white space (as `str::trim_start`).
pub open spec fn trim_start(s: Seq<u8>) -> Seq<u8>
    decreases s.len(),
{
    if ws_prefix_len(s) > 0 {
        trim_start(s.skip(ws_prefix_len(s) as int))
    } else {
        s
    }
}

/// `s` without its trailing white space (as `str::trim_end`).
pub open spec fn trim_end(s: Seq<u8>) -> Seq<u8>
    decreases s.len(),
{
    if ws_suffix_len(s) > 0 {
        trim_end(s.take(s.len() - ws_suffix_len(s)))
    } else {
        s
    }
}

/// `s` without leading and trailing white space (as `str::trim`).
pub open spec fn trim(s: Seq<u8>) -> Seq<u8> {
    trim_end(trim_start(s))
}

/// `p` is a prefix of `s`.
pub open spec fn starts_with(s: Seq<u8>, p: Seq<u8>) -> bool {
    p.len() <= s.len() && s.take(p.len() as int) == p
}

/// `p` is a suffix of `s`.
pub open spec fn ends_with(s: Seq<u8>, p: Seq<u8>) -> bool {
    p.len() <= s.len() && s.skip(s.len() - p.len()) == p
}

/// `p` occurs in `s` at offset `i`.
pub open spec fn occurs_at(s: Seq<u8>, p: Seq<u8>, i: int) -> bool {
    0 <= i && i + p.len() <= s.len() && s.subrange(i, i + p.len()) == p
}

/// `p` occurs somewhere in `s`.
pub open spec fn contains(s: Seq<u8>, p: Seq<u8>) -> bool {
    exists|i: int| occurs_at(s, p, i)
}

/// The byte `b` occurs in `s`.
pub open spec fn has_byte(s: Seq<u8>, b: u8) -> bool {
    exists|i: int| 0 <= i < s.len() && s[i] == b
}

/// ASCII letters and digits.
pub open spec fn is_alnum(b: u8) -> bool {
    (0x30u8 <= b && b <= 0x39u8) || (0x41u8 <= b && b <= 0x5Au8) || (0x61u8 <= b && b <= 0x7Au8)
}

/// Bytes that continue a PHP identifier-like word: ASCII letters, digits, `_`.
pub open spec fn is_word_byte(b: u8) -> bool {
    is_alnum(b) || b == 0x5Fu8
}

/// ASCII lower-casing of one byte.
pub open spec fn lower_byte(b: u8) -> u8 {
    if 0x41u8 <= b && b <= 0x5Au8 {
        (b + 32) as u8
    } else {
        b
    }
}

/// ASCII lower-casing of a byte string (as `str::to_ascii_lowercase`).
pub open spec fn lower(s: Seq<u8>) -> Seq<u8> {
    s.map_values(|b: u8| lower_byte(b))
}

/// Concatenation of `parts` with `sep` between neighbours (as `join`).
pub open spec fn join(parts: Seq<Seq<u8>>, sep: Seq<u8>) -> Seq<u8>
    decreases parts.len(),
{
    if parts.len() == 0 {
        Seq::empty()
    } else if parts.len() == 1 {
        parts[0]
    } else {
        join(parts.drop_last(), sep) + sep + parts.last()
    }
}

/// Index of the first `b` in `s`, if there is one.
pub open spec fn first_index_of(s: Seq<u8>, b: u8) -> Option<int>
    decreases s.len(),
{
    if s.len() == 0 {
        None
    } else if s[0] == b {
        Some(0)
    } else {
        match first_index_of(s.skip(1), b) {
            Some(i) => Some(i + 1),
            None => None,
        }
    }
}

/// One line as `str::lines` yields it: the text before a line feed, without
/// one carriage return directly before that line feed.
pub open spec fn strip_cr(line: Seq<u8>) -> Seq<u8> {
    if line.len() > 0 && line.last() == 0x0Du8 {
        line.drop_last()
    } else {
        line
    }
}

/// The lines of `s` as `str::lines` yields them.
pub open spec fn lines(s: Seq<u8>) -> Seq<Seq<u8>>
    decreases s.len(),
{
    if s.len() == 0 {
        Seq::empty()
    } else {
        proof {
            lemma_first_index_of_props(s, 0x0Au8);
        }
        match first_index_of(s, 0x0Au8) {
            None => seq![s],
            Some(i) => seq![strip_cr(s.take(i))] + lines(s.skip(i + 1)),
        }
    }
}

/// The pieces of `s` between occurrences of the byte `d` (as `str::split`
/// with a one-byte pattern); there is always at least one piece.
pub open spec fn split_byte(s: Seq<u8>, d: u8) -> Seq<Seq<u8>>
    decreases s.len(),
{
    proof {
        lemma_first_index_of_props(s, d);
    }
    match first_index_of(s, d) {
        None => seq![s],
        Some(i) => seq![s.take(i)] + split_byte(s.skip(i + 1), d),
    }
}

/// The decimal digits of `n`, most significant first, without leading zeros.
pub open spec fn decimal(n: nat) -> Seq<u8>
    decreases n,
{
    if n < 10 {
        seq![(0x30 + n) as u8]
    } else {
        decimal(n / 10).push((0x30 + n % 10) as u8)
    }
}

// ---------------------------------------------------------------------------
// Lemmas about the spec functions
// ---------------------------------------------------------------------------

proof fn lemma_skip_skip(s: Seq<u8>, a: int, b: int)
    requires
        0 <= a,
        0 <= b,
        a + b <= s.len(),
    ensures
        s.skip(a).skip(b) == s.skip(a + b),
{
    assert(s.skip(a).skip(b) =~= s.skip(a + b));
}

/// What `first_index_of` finds: the first occurrence, or none at all.
pub proof fn lemma_first_index_of_props(s: Seq<u8>, b: u8)
    ensures
        match first_index_of(s, b) {
            Some(i) => 0 <= i < s.len() && s[i] == b && forall|j: int| 0 <= j < i ==> s[j] != b,
            None => forall|j: int| 0 <= j < s.len() ==> s[j] != b,
        },
    decreases s.len(),
{
    if s.len() > 0 && s[0] != b {
        lemma_first_index_of_props(s.skip(1), b);
        match first_index_of(s.skip(1), b) {
            Some(i) => {
                assert forall|j: int| 0 <= j < i + 1 implies s[j] != b by {
                    if j > 0 {
                        assert(s[j] == s.skip(1)[j - 1]);
                    }
                }
            },
            None => {
                assert forall|j: int| 0 <= j < s.len() implies s[j] != b by {
                    if j > 0 {
                        assert(s[j] == s.skip(1)[j - 1]);
                    }
                }
            },
        }
    }
}

/// The first occurrence of `b` is found.
pub proof fn lemma_first_index_of(s: Seq<u8>, b: u8, i: int)
    requires
        0 <= i < s.len(),
        s[i] == b,
        forall|j: int| 0 <= j < i ==> s[j] != b,
    ensures
        first_index_of(s, b) == Some(i),
{
    lemma_first_index_of_props(s, b);
    match first_index_of(s, b) {
        Some(k) => {
            if k < i {
                assert(s[k] != b);
            }
            if i < k {
                assert(s[i] != b);
            }
        },
        None => {
            assert(s[i] != b);
        },
    }
}

/// A byte string without `b` has no first index of it.
pub proof fn lemma_no_index_of(s: Seq<u8>, b: u8)
    requires
        forall|j: int| 0 <= j < s.len() ==> s[j] != b,
    ensures
        first_index_of(s, b) is None,
{
    lemma_first_index_of_props(s, b);
    if let Some(k) = first_index_of(s, b) {
        assert(s[k] != b);
    }
}

/// `has_byte` agrees with `first_index_of`.
pub proof fn lemma_has_byte_index(s: Seq<u8>, b: u8)
    ensures
        has_byte(s, b) <==> first_index_of(s, b) is Some,
{
    lemma_first_index_of_props(s, b);
    if let Some(k) = first_index_of(s, b) {
        assert(0 <= k < s.len() && s[k] == b);
    }
}

/// `join` of one more part.
pub proof fn lemma_join_push(parts: Seq<Seq<u8>>, sep: Seq<u8>, p: Seq<u8>)
    ensures
        join(parts.push(p), sep) == if parts.len() == 0 {
            p
        } else {
            join(parts, sep) + sep + p
        },
{
    assert(parts.push(p).drop_last() =~= parts);
}

// ---------------------------------------------------------------------------
// Executable operations
// ---------------------------------------------------------------------------

/// Appends all of `s` to `out`.
pub fn push_all(out: &mut Vec<u8>, s: &[u8])
    ensures
        final(out)@ == old(out)@ + s@,
{
    let mut i: usize = 0;
    while i < s.len()
        invariant
            i <= s@.len(),
            out@ == old(out)@ + s@.take(i as int),
        decreases s@.len() - i,
    {
        out.push(s[i]);
        i += 1;
        assert(s@.take(i as int) == s@.take((i - 1) as int).push(s@[i - 1]));
    }
    assert(s@.take(i as int) =~= s@);
}

/// A copy of `s[lo..hi]`.
pub fn copy_range(s: &[u8], lo: usize, hi: usize) -> (r: Vec<u8>)
    requires
        lo <= hi <= s@.len(),
    ensures
        r@ == s@.subrange(lo as int, hi as int),
{
    let mut r: Vec<u8> = Vec::new();
    let mut i: usize = lo;
    while i < hi
        invariant
            lo <= i <= hi,
            hi <= s@.len(),
            r@ == s@.subrange(lo as int, i as int),
        decreases hi - i,
    {
        r.push(s[i]);
        i += 1;
        assert(s@.subrange(lo as int, i as int) == s@.subrange(lo as int, (i - 1) as int).push(
            s@[i - 1],
        ));
    }
    r
}

/// Length of the white-space character that starts at `s[i..]`, or 0.
pub fn ws_len_at(s: &[u8], i: usize) -> (n: usize)
    requires
        i <= s@.len(),
    ensures
        n == ws_prefix_len(s@.skip(i as int)),
        n <= s@.len() - i,
{
    let ghost t = s@.skip(i as int);
    let rem = s.len() - i;
    if rem >= 1 && (s[i] == 0x20 || (0x09 <= s[i] && s[i] <= 0x0d)) {
        return 1;
    }
    if rem >= 2 && s[i] == 0xC2 && (s[i + 1] == 0x85 || s[i + 1] == 0xA0) {
        return 2;
    }
    if rem >= 3 {
        let a = s[i];
        let b = s[i + 1];
        let c = s[i + 2];
        assert(t[0] == a && t[1] == b && t[2] == c);
        if (a == 0xE1 && b == 0x9A && c == 0x80) || (a == 0xE2 && b == 0x80 && ((0x80 <= c && c
            <= 0x8A) || c == 0xA8 || c == 0xA9 || c == 0xAF)) || (a == 0xE2 && b == 0x81 && c
            == 0x9F) || (a == 0xE3 && b == 0x80 && c == 0x80) {
            return 3;
        }
    }
    0
}

/// Length of the white-space character that ends `s[..j]`, or 0.
pub fn ws_len_before(s: &[u8], j: usize) -> (n: usize)
    requires
        j <= s@.len(),
    ensures
        n == ws_suffix_len(s@.take(j as int)),
        n <= j,
{
    let ghost t = s@.take(j as int);
    if j >= 1 && (s[j - 1] == 0x20 || (0x09 <= s[j - 1] && s[j - 1] <= 0x0d)) {
        return 1;
    }
    if j >= 2 && s[j - 2] == 0xC2 && (s[j - 1] == 0x85 || s[j - 1] == 0xA0) {
        return 2;
    }
    if j >= 3 {
        let a = s[j - 3];
        let b = s[j - 2];
        let c = s[j - 1];
        assert(t[j - 3] == a && t[j - 2] == b && t[j - 1] == c);
        if (a == 0xE1 && b == 0x9A && c == 0x80) || (a == 0xE2 && b == 0x80 && ((0x80 <= c && c
            <= 0x8A) || c == 0xA8 || c == 0xA9 || c == 0xAF)) || (a == 0xE2 && b == 0x81 && c
            == 0x9F) || (a == 0xE3 && b == 0x80 && c == 0x80) {
            return 3;
        }
    }
    0
}

/// Index where the text of `s` starts once leading white space is skipped.
pub fn trim_start_index(s: &[u8]) -> (i: usize)
    ensures
        i <= s@.len(),
        s@.skip(i as int) == trim_start(s@),
{
    let mut i: usize = 0;
    assert(s@.skip(0) =~= s@);
    let len = s.len();
    loop
        invariant
            i <= s@.len(),
            len == s@.len(),
            trim_start(s@.skip(i as int)) == trim_start(s@),
        decreases s@.len() - i,
    {
        let n = ws_len_at(s, i);
        if n == 0 {
            return i;
        }
        proof {
            lemma_skip_skip(s@, i as int, n as int);
        }
        i = i + n;
    }
}

/// Index where the text of `s[..j]` ends once trailing white space is dropped.
pub fn trim_end_index(s: &[u8], j: usize) -> (k: usize)
    requires
        j <= s@.len(),
    ensures
        k <= j,
        s@.take(k as int) == trim_end(s@.take(j as int)),
{
    let mut k: usize = j;
    loop
        invariant
            k <= j <= s@.len(),
            trim_end(s@.take(k as int)) == trim_end(s@.take(j as int)),
        decreases k,
    {
        let n = ws_len_before(s, k);
        if n == 0 {
            return k;
        }
        assert(s@.take(k as int).take(k - n) =~= s@.take(k - n));
        k = k - n;
    }
}

/// `s` without leading white space.
pub fn trim_start_of(s: &[u8]) -> (r: Vec<u8>)
    ensures
        r@ == trim_start(s@),
{
    let i = trim_start_index(s);
    copy_range(s, i, s.len())
}

/// `s` without trailing white space.
pub fn trim_end_of(s: &[u8]) -> (r: Vec<u8>)
    ensures
        r@ == trim_end(s@),
{
    let k = trim_end_index(s, s.len());
    assert(s@.take(s@.len() as int) =~= s@);
    copy_range(s, 0, k)
}

/// `s` without leading and trailing white space.
pub fn trim_of(s: &[u8]) -> (r: Vec<u8>)
    ensures
        r@ == trim(s@),
{
    let t = trim_start_of(s);
    trim_end_of(t.as_slice())
}

/// Whether `p` is a prefix of `s`.
pub fn starts_with_bytes(s: &[u8], p: &[u8]) -> (r: bool)
    ensures
        r == starts_with(s@, p@),
{
    if p.len() > s.len() {
        return false;
    }
    let mut i: usize = 0;
    while i < p.len()
        invariant
            i <= p@.len() <= s@.len(),
            forall|k: int| 0 <= k < i ==> s@[k] == p@[k],
        decreases p@.len() - i,
    {
        if s[i] != p[i] {
            assert(s@.take(p@.len() as int)[i as int] != p@[i as int]);
            return false;
        }
        i += 1;
    }
    assert(s@.take(p@.len() as int) =~= p@);
    true
}

/// Whether `p` is a suffix of `s`.
pub fn ends_with_bytes(s: &[u8], p: &[u8]) -> (r: bool)
    ensures
        r == ends_with(s@, p@),
{
    if p.len() > s.len() {
        return false;
    }
    let off = s.len() - p.len();
    let mut i: usize = 0;
    while i < p.len()
        invariant
            i <= p@.len() <= s@.len(),
            off == s@.len() - p@.len(),
            s@.len() <= usize::MAX,
            forall|k: int| 0 <= k < i ==> s@[off + k] == p@[k],
        decreases p@.len() - i,
    {
        if s[off + i] != p[i] {
            assert(s@.skip(off as int)[i as int] != p@[i as int]);
            return false;
        }
        i += 1;
    }
    assert(s@.skip(off as int) =~= p@);
    true
}

/// Whether `p` occurs in `s` at offset `i`.
pub fn occurs_at_bytes(s: &[u8], p: &[u8], i: usize) -> (r: bool)
    ensures
        r == occurs_at(s@, p@, i as int),
{
    if i > s.len() || p.len() > s.len() - i {
        return false;
    }
    let mut k: usize = 0;
    while k < p.len()
        invariant
            k <= p@.len(),
            i + p@.len() <= s@.len(),
            s@.len() <= usize::MAX,
            forall|m: int| 0 <= m < k ==> s@[i + m] == p@[m],
        decreases p@.len() - k,
    {
        if s[i + k] != p[k] {
            assert(s@.subrange(i as int, i + p@.len())[k as int] != p@[k as int]);
            return false;
        }
        k += 1;
    }
    assert(s@.subrange(i as int, i + p@.len()) =~= p@);
    true
}

/// Whether `p` occurs anywhere in `s`.
pub fn contains_bytes(s: &[u8], p: &[u8]) -> (r: bool)
    ensures
        r == contains(s@, p@),
{
    let mut i: usize = 0;
    while i < s.len()
        invariant
            i <= s@.len(),
            forall|j: int| 0 <= j < i ==> !occurs_at(s@, p@, j),
        decreases s@.len() - i,
    {
        if occurs_at_bytes(s, p, i) {
            return true;
        }
        i += 1;
    }
    if occurs_at_bytes(s, p, s.len()) {
        return true;
    }
    assert forall|j: int| !occurs_at(s@, p@, j) by {
        if 0 <= j && j + p@.len() <= s@.len() {
            assert(j <= s@.len());
        }
    }
    false
}

/// Whether the byte `b` occurs in `s`.
pub fn has_byte_in(s: &[u8], b: u8) -> (r: bool)
    ensures
        r == has_byte(s@, b),
{
    match find_byte(s, b) {
        Some(_) => true,
        None => false,
    }
}

/// Index of the first `b` in `s`.
pub fn find_byte(s: &[u8], b: u8) -> (r: Option<usize>)
    ensures
        r matches Some(i) ==> first_index_of(s@, b) == Some(i as int) && i < s@.len(),
        r is None ==> first_index_of(s@, b) is None,
        r is None <==> !has_byte(s@, b),
{
    let mut i: usize = 0;
    while i < s.len()
        invariant
            i <= s@.len(),
            forall|j: int| 0 <= j < i ==> s@[j] != b,
        decreases s@.len() - i,
    {
        if s[i] == b {
            proof {
                lemma_first_index_of(s@, b, i as int);
                lemma_has_byte_index(s@, b);
            }
            return Some(i);
        }
        i += 1;
    }
    proof {
        lemma_no_index_of(s@, b);
        lemma_has_byte_index(s@, b);
    }
    None
}

/// ASCII lower-cased copy of `s`.
pub fn to_lower(s: &[u8]) -> (r: Vec<u8>)
    ensures
        r@ == lower(s@),
{
    let mut r: Vec<u8> = Vec::new();
    let mut i: usize = 0;
    while i < s.len()
        invariant
            i <= s@.len(),
            r@ =~= lower(s@.take(i as int)),
        decreases s@.len() - i,
    {
        let c = s[i];
        let l = if 0x41 <= c && c <= 0x5A {
            c + 32
        } else {
            c
        };
        r.push(l);
        i += 1;
        assert(lower(s@.take(i as int)) =~= lower(s@.take((i - 1) as int)).push(lower_byte(c)));
    }
    assert(s@.take(i as int) =~= s@);
    r
}

/// `parts` joined with `sep` between neighbours.
pub fn join_with(parts: &Vec<Vec<u8>>, sep: &[u8]) -> (r: Vec<u8>)
    ensures
        r@ == join(views(parts@), sep@),
{
    let ghost vs = views(parts@);
    let mut r: Vec<u8> = Vec::new();
    let mut i: usize = 0;
    while i < parts.len()
        invariant
            i <= parts@.len(),
            vs == views(parts@),
            r@ == join(vs.take(i as int), sep@),
        decreases parts@.len() - i,
    {
        proof {
            lemma_join_push(vs.take(i as int), sep@, vs[i as int]);
            assert(vs.take(i as int).push(vs[i as int]) =~= vs.take(i + 1));
        }
        if i > 0 {
            push_all(&mut r, sep);
        }
        push_all(&mut r, parts[i].as_slice());
        i += 1;
    }
    assert(vs.take(i as int) =~= vs);
    r
}

/// The lines of `s`, as `str::lines` yields them.
pub fn lines_of(s: &[u8]) -> (r: Vec<Vec<u8>>)
    ensures
        views(r@) == lines(s@),
{
    let mut r: Vec<Vec<u8>> = Vec::new();
    let mut start: usize = 0;
    assert(s@.skip(0) =~= s@);
    while start < s.len()
        invariant
            start <= s@.len(),
            views(r@) + lines(s@.skip(start as int)) == lines(s@),
        decreases s@.len() - start,
    {
        proof {
            lemma_lines_step(s@, start as int);
        }
        let tail = vstd::slice::slice_subrange(s, start, s.len());
        let ghost old_v = r@;
        let ghost old_r = views(r@);
        match find_byte(tail, 0x0A) {
            None => {
                let line = slice_to_vec_of(tail);
                r.push(line);
                proof {
                    lemma_views_push(old_v, r@.last());
                    assert(s@.skip(s@.len() as int) =~= Seq::<u8>::empty());
                    assert(old_r + seq![line@] =~= old_r.push(line@));
                    assert(old_r.push(line@) + Seq::<Seq<u8>>::empty() =~= old_r.push(line@));
                }
                start = s.len();
            },
            Some(i) => {
                let mut end = start + i;
                if end > start && s[end - 1] == 0x0D {
                    end = end - 1;
                }
                let line = copy_range(s, start, end);
                assert(line@ == strip_cr(s@.subrange(start as int, (start + i) as int))) by {
                    if i > 0 && s@[start + i - 1] == 0x0D {
                        assert(s@.subrange(start as int, (start + i) as int).drop_last()
                            =~= s@.subrange(start as int, (start + i - 1) as int));
                    }
                }
                r.push(line);
                proof {
                    lemma_views_push(old_v, r@.last());
                    assert(old_r.push(line@) + lines(s@.skip(start + i + 1)) =~= old_r + (seq![
                        line@,
                    ] + lines(s@.skip(start + i + 1))));
                }
                start = start + i + 1;
            },
        }
    }
    assert(s@.skip(start as int) =~= Seq::<u8>::empty());
    assert(views(r@) + Seq::<Seq<u8>>::empty() =~= views(r@));
    r
}

/// The views of a vector of byte vectors.
pub open spec fn views(v: Seq<Vec<u8>>) -> Seq<Seq<u8>> {
    v.map_values(|l: Vec<u8>| l@)
}

/// Pushing onto a vector of byte vectors pushes onto its views.
pub proof fn lemma_views_push(v: Seq<Vec<u8>>, x: Vec<u8>)
    ensures
        views(v.push(x)) == views(v).push(x@),
{
    assert(views(v.push(x)) =~= views(v).push(x@));
}

/// One step of `lines` from offset `start`.
proof fn lemma_lines_step(s: Seq<u8>, start: int)
    requires
        0 <= start < s.len(),
    ensures
        match first_index_of(s.skip(start), 0x0Au8) {
            None => lines(s.skip(start)) == seq![s.skip(start)],
            Some(i) => 0 <= i < s.len() - start && lines(s.skip(start)) == seq![
                strip_cr(s.subrange(start, start + i)),
            ] + lines(s.skip(start + i + 1)),
        },
{
    lemma_first_index_of_props(s.skip(start), 0x0Au8);
    if let Some(i) = first_index_of(s.skip(start), 0x0Au8) {
        lemma_skip_skip(s, start, i + 1);
        assert(s.skip(start).take(i) =~= s.subrange(start, start + i));
    }
}

/// One step of `split_byte` from offset `start`.
proof fn lemma_split_step(s: Seq<u8>, start: int, d: u8)
    requires
        0 <= start <= s.len(),
    ensures
        match first_index_of(s.skip(start), d) {
            None => split_byte(s.skip(start), d) == seq![s.skip(start)],
            Some(i) => 0 <= i < s.len() - start && split_byte(s.skip(start), d) == seq![
                s.subrange(start, start + i),
            ] + split_byte(s.skip(start + i + 1), d),
        },
{
    lemma_first_index_of_props(s.skip(start), d);
    if let Some(i) = first_index_of(s.skip(start), d) {
        lemma_skip_skip(s, start, i + 1);
        assert(s.skip(start).take(i) =~= s.subrange(start, start + i));
    }
}

/// A copy of all of `s`.
pub fn slice_to_vec_of(s: &[u8]) -> (r: Vec<u8>)
    ensures
        r@ == s@,
{
    assert(s@.subrange(0, s@.len() as int) =~= s@);
    copy_range(s, 0, s.len())
}

/// The pieces of `s` between occurrences of the byte `d`.
pub fn split_on_byte(s: &[u8], d: u8) -> (r: Vec<Vec<u8>>)
    ensures
        views(r@) == split_byte(s@, d),
{
    let mut r: Vec<Vec<u8>> = Vec::new();
    let mut start: usize = 0;
    assert(s@.skip(0) =~= s@);
    loop
        invariant
            start <= s@.len(),
            views(r@) + split_byte(s@.skip(start as int), d) == split_byte(s@, d),
        decreases s@.len() - start,
    {
        proof {
            lemma_split_step(s@, start as int, d);
        }
        let tail = vstd::slice::slice_subrange(s, start, s.len());
        let ghost old_v = r@;
        let ghost old_r = views(r@);
        match find_byte(tail, d) {
            None => {
                let piece = slice_to_vec_of(tail);
                r.push(piece);
                proof {
                    lemma_views_push(old_v, r@.last());
                    assert(old_r + seq![piece@] =~= old_r.push(piece@));
                }
                return r;
            },
            Some(i) => {
                let piece = copy_range(s, start, start + i);
                r.push(piece);
                proof {
                    lemma_views_push(old_v, r@.last());
                    assert(old_r.push(piece@) + split_byte(s@.skip(start + i + 1), d) =~= old_r
                        + (seq![piece@] + split_byte(s@.skip(start + i + 1), d)));
                }
                start = start + i + 1;
            },
        }
    }
}

/// The decimal digits of `n`.
pub fn to_decimal(n: u64) -> (r: Vec<u8>)
    ensures
        r@ == decimal(n as nat),
    decreases n,
{
    if n < 10 {
        let mut r: Vec<u8> = Vec::new();
        r.push((0x30 + n) as u8);
        assert(r@ =~= seq![(0x30 + n) as u8]);
        r
    } else {
        let mut r = to_decimal(n / 10);
        r.push((0x30 + n % 10) as u8);
        r
    }
}

} // verus!
