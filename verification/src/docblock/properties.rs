//! What holds of every reformatted docblock: it opens with `/**` and closes
//! with ` */`, the tags come out stably sorted by priority, the description
//! is free of stray blank lines, aligned columns line up, and rewriting
//! scalar type names is idempotent.
use vstd::prelude::*;

use crate::docblock::layout::{
    aligned_from, aligned_group, aligned_lines, alignable, any_type, any_var, lemma_metrics_bound,
    aligned_core, aligned_line, lemma_run_end, max_name, max_type, max_var, metrics, name_padding,
    run_end, spaces, sp, type_column, unaligned_line, var_column,
};
use crate::docblock::model::{Element, FormatSettings, TagSpec, TextSegment};
use crate::docblock::reformat::{
    collapse_blank, desc_block, desc_lines, doc_open, drop_trailing_blank, empty_doc, final_desc,
    has_tag,
    nonblank_trimmed, reformatted, segment_lines, segments_lines, sorted_tags, tag_block,
    tag_specs, tag_text_lines, with_priority,
};
use crate::docblock::types::{
    at_word_start, bar, has_null_part, is_cut, non_null_parts, normalized, normalized_from,
    null_last, null_word, scalar_match, scalar_new, scalar_old, scalar_word, split_top,
    split_top_from,
};
use crate::text::{ends_with, has_byte, is_word_byte, join, starts_with, trim_end, ws_suffix_len};

verus! {

/// Every tag of `tags` has priority `p`.
pub open spec fn all_priority(tags: Seq<TagSpec>, p: u8) -> bool {
    forall|k: int| 0 <= k < tags.len() ==> (#[trigger] tags[k]).priority == p
}

/// Every tag of `tags` has one of the four priorities.
pub open spec fn priorities_valid(tags: Seq<TagSpec>) -> bool {
    forall|k: int| 0 <= k < tags.len() ==> (#[trigger] tags[k]).priority < 4
}

/// The tags picked for a priority all have it.
pub proof fn lemma_with_priority_uniform(tags: Seq<TagSpec>, p: u8)
    ensures
        all_priority(with_priority(tags, p), p),
        with_priority(tags, p).len() <= tags.len(),
    decreases tags.len(),
{
    if tags.len() > 0 {
        lemma_with_priority_uniform(tags.drop_last(), p);
    }
}

/// Picking a priority out of two runs of tags picks it out of each.
pub proof fn lemma_with_priority_concat(a: Seq<TagSpec>, b: Seq<TagSpec>, p: u8)
    ensures
        with_priority(a + b, p) == with_priority(a, p) + with_priority(b, p),
    decreases b.len(),
{
    if b.len() == 0 {
        assert(a + b =~= a);
        assert(with_priority(a, p) + with_priority(b, p) =~= with_priority(a, p));
    } else {
        assert((a + b).drop_last() =~= a + b.drop_last());
        assert((a + b).last() == b.last());
        lemma_with_priority_concat(a, b.drop_last(), p);
        if b.last().priority == p {
            assert(with_priority(a, p) + with_priority(b.drop_last(), p).push(b.last()) =~= (
            with_priority(a, p) + with_priority(b.drop_last(), p)).push(b.last()));
        }
    }
}

/// Picking a priority out of tags that all have priority `q`: all of them
/// when `p` is `q`, none otherwise.
pub proof fn lemma_with_priority_of_uniform(tags: Seq<TagSpec>, q: u8, p: u8)
    requires
        all_priority(tags, q),
    ensures
        with_priority(tags, p) == (if p == q {
            tags
        } else {
            Seq::<TagSpec>::empty()
        }),
    decreases tags.len(),
{
    if tags.len() > 0 {
        assert(tags.last() == tags[tags.len() - 1]);
        lemma_with_priority_of_uniform(tags.drop_last(), q, p);
        if p == q {
            assert(tags.drop_last().push(tags.last()) =~= tags);
        }
    } else {
        assert(tags =~= Seq::<TagSpec>::empty());
    }
}

/// The four priorities together pick out every tag once.
pub proof fn lemma_with_priority_total(tags: Seq<TagSpec>)
    requires
        priorities_valid(tags),
    ensures
        with_priority(tags, 0).len() + with_priority(tags, 1).len() + with_priority(tags, 2).len()
            + with_priority(tags, 3).len() == tags.len(),
        forall|p: u8| p >= 4 ==> #[trigger] with_priority(tags, p) == Seq::<TagSpec>::empty(),
    decreases tags.len(),
{
    if tags.len() > 0 {
        assert(tags.last() == tags[tags.len() - 1]);
        lemma_with_priority_total(tags.drop_last());
        assert forall|p: u8| p >= 4 implies #[trigger] with_priority(tags, p)
            == Seq::<TagSpec>::empty() by {
            assert(with_priority(tags.drop_last(), p) == Seq::<TagSpec>::empty());
        }
    } else {
        assert forall|p: u8| p >= 4 implies #[trigger] with_priority(tags, p)
            == Seq::<TagSpec>::empty() by {}
    }
}

/// Tags come out sorted by priority, and stably: the output has as many
/// tags as the input, never a tag of lower priority after one of higher
/// priority, and the tags of each priority in their input order.
pub proof fn lemma_sorted_tags_stable(tags: Seq<TagSpec>)
    requires
        priorities_valid(tags),
    ensures
        sorted_tags(tags).len() == tags.len(),
        forall|i: int, j: int|
            0 <= i <= j < tags.len() ==> (#[trigger] sorted_tags(tags)[i]).priority
                <= (#[trigger] sorted_tags(tags)[j]).priority,
        forall|p: u8| #[trigger] with_priority(sorted_tags(tags), p) == with_priority(tags, p),
{
    let w0 = with_priority(tags, 0);
    let w1 = with_priority(tags, 1);
    let w2 = with_priority(tags, 2);
    let w3 = with_priority(tags, 3);
    let s = sorted_tags(tags);
    lemma_with_priority_total(tags);
    lemma_with_priority_uniform(tags, 0);
    lemma_with_priority_uniform(tags, 1);
    lemma_with_priority_uniform(tags, 2);
    lemma_with_priority_uniform(tags, 3);
    let l0 = w0.len() as int;
    let l1 = l0 + w1.len();
    let l2 = l1 + w2.len();
    assert forall|k: int| 0 <= k < s.len() implies (#[trigger] s[k]).priority == (if k < l0 {
        0u8
    } else if k < l1 {
        1u8
    } else if k < l2 {
        2u8
    } else {
        3u8
    }) by {
        if k < l0 {
            assert(s[k] == w0[k]);
        } else if k < l1 {
            assert(s[k] == w1[k - l0]);
        } else if k < l2 {
            assert(s[k] == w2[k - l1]);
        } else {
            assert(s[k] == w3[k - l2]);
        }
    }
    assert forall|p: u8| #[trigger] with_priority(s, p) == with_priority(tags, p) by {
        lemma_with_priority_concat(w0 + w1 + w2, w3, p);
        lemma_with_priority_concat(w0 + w1, w2, p);
        lemma_with_priority_concat(w0, w1, p);
        lemma_with_priority_of_uniform(w0, 0, p);
        lemma_with_priority_of_uniform(w1, 1, p);
        lemma_with_priority_of_uniform(w2, 2, p);
        lemma_with_priority_of_uniform(w3, 3, p);
        if p == 0 {
            assert(with_priority(s, p) =~= w0);
        } else if p == 1 {
            assert(with_priority(s, p) =~= w1);
        } else if p == 2 {
            assert(with_priority(s, p) =~= w2);
        } else if p == 3 {
            assert(with_priority(s, p) =~= w3);
        } else {
            assert(with_priority(s, p) =~= Seq::<TagSpec>::empty());
        }
    }
}

/// No line of `ls` is empty.
pub open spec fn all_nonempty(ls: Seq<Seq<u8>>) -> bool {
    forall|k: int| 0 <= k < ls.len() ==> (#[trigger] ls[k]).len() > 0
}

/// The lines kept from a paragraph are never empty.
pub proof fn lemma_nonblank_trimmed_nonempty(ls: Seq<Seq<u8>>)
    ensures
        all_nonempty(nonblank_trimmed(ls)),
    decreases ls.len(),
{
    if ls.len() > 0 {
        lemma_nonblank_trimmed_nonempty(ls.drop_last());
    }
}

/// The lines of free text are never empty.
pub proof fn lemma_segments_lines_nonempty(segs: Seq<TextSegment>)
    ensures
        all_nonempty(segments_lines(segs)),
    decreases segs.len(),
{
    if segs.len() > 0 {
        lemma_segments_lines_nonempty(segs.drop_last());
        let last = segs.last();
        match last {
            TextSegment::Paragraph { content } => {
                lemma_nonblank_trimmed_nonempty(crate::text::lines(content@));
            },
            _ => {},
        }
        let a = segments_lines(segs.drop_last());
        let b = segment_lines(last);
        assert forall|k: int| 0 <= k < (a + b).len() implies (#[trigger] (a + b)[k]).len() > 0 by {
            if k < a.len() {
                assert((a + b)[k] == a[k]);
            } else {
                assert((a + b)[k] == b[k - a.len()]);
            }
        }
    }
}

/// The description never starts with an empty line: an empty line is kept
/// only after some text.
pub proof fn lemma_desc_lines_first(els: Seq<Element>)
    ensures
        desc_lines(els).len() > 0 ==> desc_lines(els)[0].len() > 0,
    decreases els.len(),
{
    if els.len() > 0 {
        lemma_desc_lines_first(els.drop_last());
        let prev = desc_lines(els.drop_last());
        if !has_tag(els.drop_last()) {
            match els.last() {
                Element::Text { segments } => {
                    lemma_segments_lines_nonempty(segments@);
                    let b = segments_lines(segments@);
                    if prev.len() == 0 && b.len() > 0 {
                        assert((prev + b)[0] == b[0]);
                    } else if prev.len() > 0 {
                        assert((prev + b)[0] == prev[0]);
                    }
                },
                Element::Annotation { name, arguments } => {
                    if prev.len() == 0 {
                        assert(crate::docblock::layout::at_sign().len() == 1);
                    }
                },
                _ => {},
            }
        }
    }
}

/// Dropping trailing empty lines keeps a prefix that does not end in one.
pub proof fn lemma_drop_trailing_blank(ls: Seq<Seq<u8>>)
    ensures
        drop_trailing_blank(ls).len() <= ls.len(),
        drop_trailing_blank(ls) == ls.take(drop_trailing_blank(ls).len() as int),
        drop_trailing_blank(ls).len() > 0 ==> drop_trailing_blank(ls).last().len() > 0,
    decreases ls.len(),
{
    if ls.len() > 0 && ls.last().len() == 0 {
        lemma_drop_trailing_blank(ls.drop_last());
        let n = drop_trailing_blank(ls).len() as int;
        assert(ls.drop_last().take(n) =~= ls.take(n));
    } else {
        assert(ls.take(ls.len() as int) =~= ls);
    }
}

/// Collapsing runs of empty lines keeps the first and the last line, and
/// leaves no two empty lines in a row.
pub proof fn lemma_collapse_blank(ls: Seq<Seq<u8>>)
    ensures
        ls.len() > 0 ==> collapse_blank(ls).len() > 0,
        ls.len() > 0 ==> collapse_blank(ls)[0] == ls[0],
        ls.len() > 0 ==> collapse_blank(ls).last() == ls.last(),
        ls.len() == 0 ==> collapse_blank(ls).len() == 0,
        forall|i: int, j: int|
            0 <= i && j == i + 1 && j < collapse_blank(ls).len() ==> (#[trigger] collapse_blank(
                ls,
            )[i]).len() > 0 || (#[trigger] collapse_blank(ls)[j]).len() > 0,
    decreases ls.len(),
{
    if ls.len() > 0 {
        let prev = collapse_blank(ls.drop_last());
        lemma_collapse_blank(ls.drop_last());
        if ls.len() > 1 {
            assert(ls.drop_last().last() == ls[ls.len() - 2]);
            assert(ls.drop_last()[0] == ls[0]);
        }
        let c = collapse_blank(ls);
        if ls.last().len() > 0 || ls.len() == 1 || ls[ls.len() - 2].len() > 0 {
            assert(c == prev.push(ls.last()));
            assert forall|i: int, j: int|
                0 <= i && j == i + 1 && j < c.len() implies (#[trigger] c[i]).len() > 0 || (
            #[trigger] c[j]).len() > 0 by {
                if j < c.len() - 1 {
                    assert(c[i] == prev[i]);
                    assert(c[j] == prev[j]);
                } else {
                    assert(c[i] == prev.last());
                }
            }
        } else {
            assert(ls.last() =~= ls[ls.len() - 2]);
        }
    }
}

/// The description of a reformatted docblock neither starts nor ends with an
/// empty line, and never has two empty lines in a row.
pub proof fn lemma_final_desc_tidy(els: Seq<Element>)
    ensures
        final_desc(els).len() > 0 ==> final_desc(els)[0].len() > 0,
        final_desc(els).len() > 0 ==> final_desc(els).last().len() > 0,
        forall|i: int, j: int|
            0 <= i && j == i + 1 && j < final_desc(els).len() ==> (#[trigger] final_desc(
                els,
            )[i]).len() > 0 || (#[trigger] final_desc(els)[j]).len() > 0,
{
    let d0 = desc_lines(els);
    let d1 = drop_trailing_blank(d0);
    lemma_desc_lines_first(els);
    lemma_drop_trailing_blank(d0);
    lemma_collapse_blank(d1);
    if d1.len() > 0 {
        assert(d1[0] == d0.take(d1.len() as int)[0]);
    }
}

/// A text that splits into several pieces holds the separator.
pub proof fn lemma_split_top_from_has_cut(s: Seq<u8>, d: u8, start: int, j: int)
    requires
        0 <= j,
        split_top_from(s, d, start, j).len() > 1,
    ensures
        has_byte(s, d),
    decreases s.len() - j,
{
    if j < s.len() {
        if is_cut(s, d, j) {
            assert(s[j] == d);
        } else {
            lemma_split_top_from_has_cut(s, d, start, j + 1);
        }
    }
}

/// Joining with one more piece at the end ends with that piece.
pub proof fn lemma_join_push_ends_with(parts: Seq<Seq<u8>>, last: Seq<u8>, sep: Seq<u8>)
    ensures
        ends_with(join(parts.push(last), sep), last),
{
    let all = parts.push(last);
    assert(all.drop_last() =~= parts);
    assert(all.last() == last);
    if parts.len() == 0 {
        assert(all[0] == last);
        assert(last.skip(0) =~= last);
    } else {
        let j = join(parts, sep) + sep;
        assert((j + last).skip((j + last).len() - last.len()) =~= last);
    }
}

/// A union type that has a `null` member, other than a `?T` type, is written
/// with its other members in their order and `null` last.
pub proof fn lemma_null_last(s: Seq<u8>)
    requires
        !starts_with(s, seq![0x3Fu8]),
        split_top(s, 0x7Cu8).len() > 1,
        has_null_part(split_top(s, 0x7Cu8)),
    ensures
        null_last(s) == join(non_null_parts(split_top(s, 0x7Cu8)).push(null_word()), bar()),
        ends_with(null_last(s), null_word()),
{
    lemma_split_top_from_has_cut(s, 0x7Cu8, 0, 0);
    lemma_join_push_ends_with(non_null_parts(split_top(s, 0x7Cu8)), null_word(), bar());
}

/// Vertical alignment lines up the columns of a group: every tag of the
/// group written on one line has its type column start at the same offset
/// (the widest tag name), its variable column (when some tag has a type and
/// more columns follow) at the widest tag name, a space and the widest type,
/// and its description (when it has one and some tag has a variable) one
/// space after the widest variable.
pub proof fn lemma_aligned_columns(g: Seq<TagSpec>, i: int)
    requires
        0 <= i < g.len(),
        alignable(g[i]),
    ensures
        (g[i].tag_name + name_padding(g[i], metrics(g))).len() == max_name(g),
        any_type(g) && (any_var(g) || g[i].description.len() > 0) ==> (g[i].tag_name
            + name_padding(g[i], metrics(g)) + type_column(g[i], metrics(g))).len() == max_name(g)
            + 1 + max_type(g),
        any_var(g) && g[i].description.len() > 0 ==> (g[i].tag_name + name_padding(
            g[i],
            metrics(g),
        ) + type_column(g[i], metrics(g)) + var_column(g[i], metrics(g))).len() == max_name(g) + (
        if any_type(g) {
            1 + max_type(g)
        } else {
            0
        }) + 1 + max_var(g),
{
    lemma_metrics_bound(g, i);
}

/// Sorting tags that are already sorted changes nothing.
pub proof fn lemma_sorted_tags_idempotent(tags: Seq<TagSpec>)
    requires
        priorities_valid(tags),
    ensures
        sorted_tags(sorted_tags(tags)) == sorted_tags(tags),
{
    lemma_sorted_tags_stable(tags);
    let s = sorted_tags(tags);
    assert(with_priority(s, 0) == with_priority(tags, 0));
    assert(with_priority(s, 1) == with_priority(tags, 1));
    assert(with_priority(s, 2) == with_priority(tags, 2));
    assert(with_priority(s, 3) == with_priority(tags, 3));
}

/// Lines with no two empty lines in a row.
pub open spec fn no_blank_run(ls: Seq<Seq<u8>>) -> bool {
    forall|i: int, j: int|
        0 <= i && j == i + 1 && j < ls.len() ==> (#[trigger] ls[i]).len() > 0 || (#[trigger] ls[j]).len()
            > 0
}

/// Collapsing lines with no run of empty lines changes nothing.
pub proof fn lemma_collapse_blank_unchanged(ls: Seq<Seq<u8>>)
    requires
        no_blank_run(ls),
    ensures
        collapse_blank(ls) == ls,
    decreases ls.len(),
{
    if ls.len() > 0 {
        let d = ls.drop_last();
        assert forall|i: int, j: int|
            0 <= i && j == i + 1 && j < d.len() implies (#[trigger] d[i]).len() > 0 || (
        #[trigger] d[j]).len() > 0 by {
            assert(d[i] == ls[i]);
            assert(d[j] == ls[j]);
        }
        lemma_collapse_blank_unchanged(d);
        if ls.len() > 1 {
            assert(ls[ls.len() - 2].len() > 0 || ls[ls.len() - 1].len() > 0);
        }
        assert(d.push(ls.last()) =~= ls);
    }
}

/// Cleaning up a description that is already clean changes nothing: the
/// description lines of a reformatted docblock have no trailing empty line
/// to drop and no run of empty lines to collapse.
pub proof fn lemma_final_desc_stable(els: Seq<Element>)
    ensures
        collapse_blank(drop_trailing_blank(final_desc(els))) == final_desc(els),
{
    let d = final_desc(els);
    lemma_final_desc_tidy(els);
    if d.len() > 0 {
        assert(d.last().len() > 0);
    } else {
        assert(d =~= Seq::<Seq<u8>>::empty());
    }
    assert(drop_trailing_blank(d) == d);
    lemma_collapse_blank_unchanged(d);
}

/// Where the run of word bytes that starts at `i` ends.
pub open spec fn word_run_end(s: Seq<u8>, i: int) -> int
    decreases s.len() - i,
{
    if 0 <= i < s.len() && is_word_byte(s[i]) {
        word_run_end(s, i + 1)
    } else {
        i
    }
}

/// The names that are rewritten, and what they are rewritten to, are made
/// of word bytes.
pub proof fn lemma_scalar_words_are_words(k: int, q: int)
    requires
        0 <= k < 4,
    ensures
        scalar_old(k).len() >= 4,
        0 <= q < scalar_old(k).len() ==> is_word_byte(scalar_old(k)[q]),
        0 <= q < scalar_new(k).len() ==> is_word_byte(scalar_new(k)[q]),
{
    if 0 <= q && q < 7 {
        if q == 0 {
        } else if q == 1 {
        } else if q == 2 {
        } else if q == 3 {
        } else if q == 4 {
        } else if q == 5 {
        } else {
        }
    }
}

/// A name matches only where the text starts with its first byte.
proof fn lemma_scalar_match_first(u: Seq<u8>, k: int)
    requires
        0 <= k < 4,
        scalar_match(u, k),
    ensures
        u.len() > 0,
        u[0] == scalar_old(k)[0],
        is_word_byte(u[0]),
{
    lemma_scalar_words_are_words(k, 0);
    assert(u.take(scalar_old(k).len() as int)[0] == u[0]);
}

/// No name is matched where the text starts with a byte that is not a word
/// byte.
proof fn lemma_no_match_at_non_word(u: Seq<u8>)
    requires
        u.len() > 0,
        !is_word_byte(u[0]),
    ensures
        scalar_word(u) is None,
{
    if scalar_match(u, 0) {
        lemma_scalar_match_first(u, 0);
    }
    if scalar_match(u, 1) {
        lemma_scalar_match_first(u, 1);
    }
    if scalar_match(u, 2) {
        lemma_scalar_match_first(u, 2);
    }
    if scalar_match(u, 3) {
        lemma_scalar_match_first(u, 3);
    }
}

/// Scanning from a byte that is not a word byte copies it.
proof fn lemma_normalized_at_non_word(s: Seq<u8>, i: int)
    requires
        0 <= i < s.len(),
        !is_word_byte(s[i]),
    ensures
        normalized_from(s, i).len() > 0,
        normalized_from(s, i)[0] == s[i],
{
    assert(s.skip(i)[0] == s[i]);
    lemma_no_match_at_non_word(s.skip(i));
}

/// Inside a word nothing is rewritten: from `k` to the end of the word (and
/// the byte after it), the rewritten text is the text itself.
proof fn lemma_copy_run(s: Seq<u8>, k: int)
    requires
        0 < k <= s.len(),
        is_word_byte(s[k - 1]),
    ensures
        k <= word_run_end(s, k) <= s.len(),
        forall|m: int| k <= m < word_run_end(s, k) ==> is_word_byte(#[trigger] s[m]),
        word_run_end(s, k) == s.len() ==> normalized_from(s, k) == s.skip(k),
        word_run_end(s, k) < s.len() ==> !is_word_byte(s[word_run_end(s, k)]) && normalized_from(
            s,
            k,
        ).len() > word_run_end(s, k) - k && forall|q: int|
            0 <= q <= word_run_end(s, k) - k ==> #[trigger] normalized_from(s, k)[q] == s[k + q],
    decreases s.len() - k,
{
    if k == s.len() {
        assert(s.skip(k) =~= Seq::<u8>::empty());
    } else {
        let u = normalized_from(s, k);
        assert(!at_word_start(s, k));
        assert(u == seq![s[k]] + normalized_from(s, k + 1));
        if is_word_byte(s[k]) {
            lemma_copy_run(s, k + 1);
            let e = word_run_end(s, k);
            if e == s.len() {
                assert(u =~= s.skip(k));
            } else {
                assert forall|q: int| 0 <= q <= e - k implies #[trigger] u[q] == s[k + q] by {
                    if q > 0 {
                        assert(u[q] == normalized_from(s, k + 1)[q - 1]);
                        assert(normalized_from(s, k + 1)[q - 1] == s[k + 1 + (q - 1)]);
                    }
                }
            }
        }
    }
}

/// No name to rewrite starts a word of `u` at `p`; at 0 only when
/// `start_ok`.
pub open spec fn no_word_match(u: Seq<u8>, start_ok: bool) -> bool {
    forall|p: int|
        0 <= p < u.len() && (if p == 0 {
            start_ok
        } else {
            !is_word_byte(u[p - 1])
        }) ==> #[trigger] scalar_word(u.skip(p)) is None
}

/// A rewritten name, followed by nothing or by a byte that is not a word
/// byte, is no name to rewrite.
proof fn lemma_new_word_no_match(k: int, rest: Seq<u8>)
    requires
        0 <= k < 4,
        rest.len() == 0 || !is_word_byte(rest[0]),
    ensures
        scalar_word(scalar_new(k) + rest) is None,
{
    let u = scalar_new(k) + rest;
    let w = scalar_new(k);
    assert(u[0] == w[0]);
    if scalar_match(u, 0) {
        lemma_scalar_match_first(u, 0);
        assert(k == 0);
        assert(u.take(7)[3] == scalar_old(0)[3]);
        if rest.len() > 0 {
            assert(u[3] == rest[0]);
        }
    }
    if scalar_match(u, 1) {
        lemma_scalar_match_first(u, 1);
        assert(k == 1);
        assert(u.take(7)[4] == scalar_old(1)[4]);
        if rest.len() > 0 {
            assert(u[4] == rest[0]);
        }
    }
    if scalar_match(u, 2) {
        lemma_scalar_match_first(u, 2);
    }
    if scalar_match(u, 3) {
        lemma_scalar_match_first(u, 3);
    }
}

/// The rewritten text of `s[i..]` has no name to rewrite at the start of a
/// word (at its start only when `i` starts a word of `s`).
proof fn lemma_normalized_clean(s: Seq<u8>, i: int)
    requires
        0 <= i <= s.len(),
    ensures
        no_word_match(normalized_from(s, i), i < s.len() && at_word_start(s, i)),
    decreases s.len() - i,
{
    let u = normalized_from(s, i);
    if i == s.len() {
        assert(u.len() == 0);
    } else if at_word_start(s, i) && scalar_word(s.skip(i)) is Some {
        let t = s.skip(i);
        let k = if scalar_match(t, 0) {
            0int
        } else if scalar_match(t, 1) {
            1int
        } else if scalar_match(t, 2) {
            2int
        } else {
            3int
        };
        lemma_scalar_words_are_words(k, 0);
        let n = scalar_old(k).len() as int;
        let w = scalar_new(k);
        assert(scalar_word(t) == Some((scalar_old(k).len(), w))) by {
            if k >= 2 {
                assert(scalar_new(2) == scalar_new(3));
            }
        }
        assert(i + n <= s.len());
        lemma_normalized_clean(s, i + n);
        let rest = normalized_from(s, i + n);
        assert(u == w + rest);
        if i + n < s.len() {
            assert(t[n] == s[i + n]);
            lemma_normalized_at_non_word(s, i + n);
        } else {
            assert(rest.len() == 0);
        }
        assert forall|p: int|
            0 <= p < u.len() && (if p == 0 {
                true
            } else {
                !is_word_byte(u[p - 1])
            }) implies #[trigger] scalar_word(u.skip(p)) is None by {
            if p == 0 {
                lemma_new_word_no_match(k, rest);
                assert(u.skip(0) =~= u);
            } else if p <= w.len() {
                lemma_scalar_words_are_words(k, p - 1);
                assert(u[p - 1] == w[p - 1]);
            } else {
                let p2 = p - w.len();
                assert(u[p - 1] == rest[p2 - 1]);
                assert(u.skip(p) =~= rest.skip(p2));
                assert(scalar_word(rest.skip(p2)) is None);
            }
        }
    } else {
        lemma_normalized_clean(s, i + 1);
        let rest = normalized_from(s, i + 1);
        assert(u == seq![s[i]] + rest);
        assert forall|p: int|
            0 <= p < u.len() && (if p == 0 {
                at_word_start(s, i)
            } else {
                !is_word_byte(u[p - 1])
            }) implies #[trigger] scalar_word(u.skip(p)) is None by {
            if p == 0 {
                assert(u.skip(0) =~= u);
                assert(scalar_word(s.skip(i)) is None);
                if !is_word_byte(s[i]) {
                    lemma_no_match_at_non_word(u);
                } else {
                    lemma_copy_run(s, i + 1);
                    let e = word_run_end(s, i + 1);
                    if e == s.len() {
                        assert(u =~= s.skip(i));
                    } else {
                        lemma_copy_agrees(s, i, e, u);
                    }
                }
            } else if p == 1 {
                assert(u.skip(1) =~= rest);
                assert(rest.len() > 0);
                assert(scalar_word(rest.skip(0)) is None);
                assert(rest.skip(0) =~= rest);
            } else {
                assert(u[p - 1] == rest[p - 2]);
                assert(u.skip(p) =~= rest.skip(p - 1));
                assert(scalar_word(rest.skip(p - 1)) is None);
            }
        }
    }
}

/// When `u` agrees with `s[i..]` up to and including the first byte after the
/// word that starts at `i`, a name matches at the start of `u` exactly when
/// it matches at `i` in `s`.
proof fn lemma_copy_agrees(s: Seq<u8>, i: int, e: int, u: Seq<u8>)
    requires
        0 <= i < e < s.len(),
        is_word_byte(s[i]),
        forall|m: int| i + 1 <= m < e ==> is_word_byte(#[trigger] s[m]),
        !is_word_byte(s[e]),
        u.len() > e - i,
        forall|q: int| 0 <= q <= e - i ==> #[trigger] u[q] == s[i + q],
        scalar_word(s.skip(i)) is None,
    ensures
        scalar_word(u) is None,
{
    let t = s.skip(i);
    assert forall|j: int| 0 <= j < 4 implies !scalar_match(u, j) by {
        lemma_scalar_words_are_words(j, 0);
        let l = scalar_old(j).len() as int;
        if scalar_match(u, j) {
            if e - i < l {
                lemma_scalar_words_are_words(j, e - i);
                assert(u.take(l)[e - i] == scalar_old(j)[e - i]);
                assert(u[e - i] == s[e]);
            } else {
                assert(t.take(l) =~= u.take(l)) by {
                    assert forall|q: int| 0 <= q < l implies t.take(l)[q] == u.take(l)[q] by {
                        assert(u[q] == s[i + q]);
                    }
                }
                assert(u[l] == s[i + l]);
                assert(t[l] == s[i + l]);
                if l < e - i {
                    assert(is_word_byte(s[i + l]));
                } else {
                    assert(scalar_match(t, j));
                }
            }
        }
    }
}

/// Rewriting a text with no name to rewrite at the start of a word changes
/// nothing.
proof fn lemma_normalized_unchanged(t: Seq<u8>, i: int)
    requires
        0 <= i <= t.len(),
        forall|p: int|
            0 <= p < t.len() && at_word_start(t, p) ==> #[trigger] scalar_word(t.skip(p)) is None,
    ensures
        normalized_from(t, i) == t.skip(i),
    decreases t.len() - i,
{
    if i == t.len() {
        assert(t.skip(i) =~= Seq::<u8>::empty());
    } else {
        assert(at_word_start(t, i) ==> scalar_word(t.skip(i)) is None);
        lemma_normalized_unchanged(t, i + 1);
        assert(t.skip(i) =~= seq![t[i]] + t.skip(i + 1));
    }
}

/// Rewriting scalar type names twice is rewriting them once: the rewritten
/// text has no `integer`, `boolean`, `double` or `real` left at the start of
/// a word.
pub proof fn lemma_normalized_idempotent(s: Seq<u8>)
    ensures
        normalized(normalized(s)) == normalized(s),
{
    let t = normalized(s);
    lemma_normalized_clean(s, 0);
    assert forall|p: int| 0 <= p < t.len() && at_word_start(t, p) implies #[trigger] scalar_word(
        t.skip(p),
    ) is None by {
        if p == 0 {
            assert(s.len() > 0);
        }
    }
    lemma_normalized_unchanged(t, 0);
    assert(t.skip(0) =~= t);
}

/// A docblock is to be removed (reformatting gives nothing for it) exactly
/// when it has neither description nor tags that are kept; any other
/// docblock is written out opening with `/**` and closing with ` */` on a
/// line of its own.
pub proof fn lemma_reformatted_shape(settings: FormatSettings, els: Seq<Element>)
    ensures
        empty_doc(settings, els) <==> (final_desc(els).len() == 0 && tag_specs(els, settings).len()
            == 0),
        !empty_doc(settings, els) ==> reformatted(settings, els).len() > 0 && starts_with(
            reformatted(settings, els),
            doc_open(),
        ) && ends_with(reformatted(settings, els), seq![0x0Au8, 0x20u8, 0x2Au8, 0x2Fu8]),
{
    let tags = tag_specs(els, settings);
    let d = final_desc(els);
    lemma_with_priority_uniform(tags, 0);
    lemma_with_priority_uniform(tags, 1);
    lemma_with_priority_uniform(tags, 2);
    lemma_with_priority_uniform(tags, 3);
    let st = sorted_tags(tags);
    if tags.len() > 0 {
        lemma_tag_specs_priorities(els, settings);
        lemma_sorted_tags_stable(tags);
    }
    let r = reformatted(settings, els);
    if d.len() > 0 || st.len() > 0 {
        let close = seq![0x0Au8, 0x20u8, 0x2Au8, 0x2Fu8];
        let body = desc_block(d) + (if d.len() > 0 && st.len() > 0 {
            seq![0x0Au8, 0x20u8, 0x2Au8]
        } else {
            Seq::empty()
        }) + tag_block(tag_text_lines(st, settings), st);
        assert(r == doc_open() + body + close);
        assert(r.take(3) =~= doc_open());
        assert(r.skip(r.len() - 4) =~= close);
    } else {
        assert(st.len() == 0);
    }
}

/// Every tag line of a docblock has one of the four priorities.
pub proof fn lemma_tag_specs_priorities(els: Seq<Element>, settings: FormatSettings)
    ensures
        priorities_valid(tag_specs(els, settings)),
    decreases els.len(),
{
    if els.len() > 0 {
        lemma_tag_specs_priorities(els.drop_last(), settings);
    }
}

/// A run of equal priority inside `a` ends where it ends in `a + b` when the
/// priority changes between `a` and `b`.
proof fn lemma_run_end_prefix(a: Seq<TagSpec>, b: Seq<TagSpec>, start: int, j: int)
    requires
        0 <= start < j <= a.len(),
        a.len() == 0 || b.len() == 0 || a.last().priority != b[0].priority,
        forall|k: int| start <= k < j ==> (#[trigger] a[k]).priority == a[start].priority,
    ensures
        run_end(a + b, start, j) == run_end(a, start, j),
    decreases a.len() - j,
{
    let s = a + b;
    assert(s[start] == a[start]);
    if j < a.len() {
        assert(s[j] == a[j]);
        if a[j].priority == a[start].priority {
            lemma_run_end_prefix(a, b, start, j + 1);
        }
    } else if b.len() > 0 {
        assert(s[j] == b[0]);
        assert(a[a.len() - 1].priority == a[start].priority);
    }
}

/// A run of equal priority inside `b` ends, in `a + b`, where it ends in
/// `b`, shifted.
proof fn lemma_run_end_shift(a: Seq<TagSpec>, b: Seq<TagSpec>, x: int, j: int)
    requires
        0 <= x < j <= b.len(),
    ensures
        run_end(a + b, a.len() + x, a.len() + j) == a.len() + run_end(b, x, j),
    decreases b.len() - j,
{
    let s = a + b;
    let n = a.len() as int;
    assert(s[n + x] == b[x]);
    if j < b.len() {
        assert(s[n + j] == b[j]);
        if b[j].priority == b[x].priority {
            lemma_run_end_shift(a, b, x, j + 1);
        }
    }
}

/// The aligned lines of the tags of `a + b` from inside `b` are those of `b`.
proof fn lemma_aligned_from_shift(a: Seq<TagSpec>, b: Seq<TagSpec>, x: int)
    requires
        0 <= x <= b.len(),
    ensures
        aligned_from(a + b, a.len() + x) == aligned_from(b, x),
    decreases b.len() - x,
{
    let s = a + b;
    let n = a.len() as int;
    if x < b.len() {
        lemma_run_end_shift(a, b, x, x + 1);
        lemma_run_end(b, x, x + 1);
        let e = run_end(b, x, x + 1);
        lemma_aligned_from_shift(a, b, e);
        assert(s.subrange(n + x, n + e) =~= b.subrange(x, e));
    }
}

/// The aligned lines of `a + b` from `start` inside `a` are those of `a`
/// from `start`, then those of `b`.
proof fn lemma_aligned_from_concat(a: Seq<TagSpec>, b: Seq<TagSpec>, start: int)
    requires
        0 <= start <= a.len(),
        a.len() == 0 || b.len() == 0 || a.last().priority != b[0].priority,
    ensures
        aligned_from(a + b, start) == aligned_from(a, start) + aligned_from(b, 0),
    decreases a.len() - start,
{
    let s = a + b;
    if start == a.len() {
        lemma_aligned_from_shift(a, b, 0);
        assert(aligned_from(a, start) =~= Seq::<Seq<u8>>::empty());
        assert(aligned_from(a, start) + aligned_from(b, 0) =~= aligned_from(b, 0));
    } else {
        lemma_run_end_prefix(a, b, start, start + 1);
        lemma_run_end(a, start, start + 1);
        let e = run_end(a, start, start + 1);
        lemma_aligned_from_concat(a, b, e);
        assert(s.subrange(start, e) =~= a.subrange(start, e));
        assert(aligned_group(a.subrange(start, e)) + (aligned_from(a, e) + aligned_from(b, 0))
            =~= aligned_group(a.subrange(start, e)) + aligned_from(a, e) + aligned_from(b, 0));
    }
}

/// Vertical alignment works group by group: where the priority changes
/// between two runs of tags, aligning them together gives the lines of each
/// aligned on its own, one after the other (column widths depend only on the
/// run of equal priority a tag belongs to).
pub proof fn lemma_aligned_lines_split(a: Seq<TagSpec>, b: Seq<TagSpec>)
    requires
        a.len() == 0 || b.len() == 0 || a.last().priority != b[0].priority,
    ensures
        aligned_lines(a + b) == aligned_lines(a) + aligned_lines(b),
{
    lemma_aligned_from_concat(a, b, 0);
}

/// The fields of a tag written on one line, in order: its name, then its
/// type, variable and description where it has them.
pub open spec fn tag_fields(t: TagSpec) -> Seq<Seq<u8>> {
    seq![t.tag_name] + match t.type_str {
        Some(x) => seq![x],
        None => Seq::<Seq<u8>>::empty(),
    } + match t.variable {
        Some(v) => seq![v],
        None => Seq::<Seq<u8>>::empty(),
    } + if t.description.len() > 0 {
        seq![t.description]
    } else {
        Seq::<Seq<u8>>::empty()
    }
}

/// Fields written one after the other, `gaps[k]` spaces between field `k`
/// and the next.
pub open spec fn gap_join(fs: Seq<Seq<u8>>, gaps: Seq<nat>) -> Seq<u8>
    decreases fs.len(),
{
    if fs.len() == 0 {
        Seq::empty()
    } else if fs.len() == 1 {
        fs[0]
    } else {
        gap_join(fs.drop_last(), gaps.drop_last()) + spaces(gaps.last()) + fs.last()
    }
}

/// Two runs of spaces make one.
proof fn lemma_spaces_add(a: nat, b: nat)
    ensures
        spaces(a) + spaces(b) == spaces(a + b),
{
    assert(spaces(a) + spaces(b) =~= spaces(a + b));
}

/// One more field after a run of spaces.
proof fn lemma_gap_join_push(fs: Seq<Seq<u8>>, gaps: Seq<nat>, pend: nat, x: Seq<u8>)
    requires
        fs.len() >= 1,
        gaps.len() + 1 == fs.len(),
    ensures
        gap_join(fs.push(x), gaps.push(pend)) == gap_join(fs, gaps) + spaces(pend) + x,
{
    assert(fs.push(x).drop_last() =~= fs);
    assert(gaps.push(pend).drop_last() =~= gaps);
}

/// Fields with one space between each, joined.
proof fn lemma_join_single(fs: Seq<Seq<u8>>, gaps: Seq<nat>)
    requires
        fs.len() >= 1,
        gaps.len() + 1 == fs.len(),
        forall|k: int| 0 <= k < gaps.len() ==> gaps[k] == 1,
    ensures
        gap_join(fs, gaps) == join(fs, sp()),
    decreases fs.len(),
{
    if fs.len() > 1 {
        lemma_join_single(fs.drop_last(), gaps.drop_last());
        assert(spaces(1) =~= sp());
    }
}

/// The piece that an optional field writes.
pub open spec fn opt_piece(x: Option<Seq<u8>>) -> Seq<u8> {
    match x {
        Some(v) => v,
        None => Seq::empty(),
    }
}

/// The fields that an optional field adds.
pub open spec fn opt_fields(x: Option<Seq<u8>>) -> Seq<Seq<u8>> {
    match x {
        Some(v) => seq![v],
        None => Seq::empty(),
    }
}

/// Fields, widened gaps of one space or more, and single gaps that go
/// together.
pub open spec fn gaps_ok(fs: Seq<Seq<u8>>, gaps: Seq<nat>, ones: Seq<nat>) -> bool {
    &&& fs.len() >= 1
    &&& gaps.len() + 1 == fs.len()
    &&& ones.len() == gaps.len()
    &&& forall|k: int| 0 <= k < gaps.len() ==> #[trigger] gaps[k] >= 1
    &&& forall|k: int| 0 <= k < ones.len() ==> #[trigger] ones[k] == 1
}

/// One column: a space, maybe a field, then `r` spaces of padding.
proof fn lemma_column_step(
    fs: Seq<Seq<u8>>,
    gaps: Seq<nat>,
    ones: Seq<nat>,
    pend: nat,
    x: Option<Seq<u8>>,
    r: nat,
) -> (res: (Seq<Seq<u8>>, Seq<nat>, Seq<nat>, nat))
    requires
        gaps_ok(fs, gaps, ones),
    ensures
        gaps_ok(res.0, res.1, res.2),
        res.0 == fs + opt_fields(x),
        gap_join(fs, gaps) + spaces(pend) + (sp() + opt_piece(x) + spaces(r)) == gap_join(
            res.0,
            res.1,
        ) + spaces(res.3),
        gap_join(res.0, res.2) == gap_join(fs, ones) + match x {
            Some(v) => sp() + v,
            None => Seq::empty(),
        },
{
    lemma_spaces_add(pend, 1);
    assert(spaces(1) =~= sp());
    match x {
        Some(v) => {
            lemma_gap_join_push(fs, gaps, pend + 1, v);
            lemma_gap_join_push(fs, ones, 1, v);
            let nf = fs.push(v);
            let ng = gaps.push((pend + 1) as nat);
            let no = ones.push(1);
            assert(nf =~= fs + seq![v]);
            assert(gap_join(fs, gaps) + spaces(pend) + (sp() + v + spaces(r)) =~= gap_join(fs, gaps)
                + spaces(pend + 1) + v + spaces(r));
            assert(gaps_ok(nf, ng, no)) by {
                assert forall|k: int| 0 <= k < ng.len() implies #[trigger] ng[k] >= 1 by {
                    if k < gaps.len() {
                        assert(ng[k] == gaps[k]);
                    }
                }
                assert forall|k: int| 0 <= k < no.len() implies #[trigger] no[k] == 1 by {
                    if k < ones.len() {
                        assert(no[k] == ones[k]);
                    }
                }
            }
            (nf, ng, no, r)
        },
        None => {
            lemma_spaces_add(pend + 1, r);
            assert(fs + opt_fields(x) =~= fs);
            assert(gap_join(fs, gaps) + spaces(pend) + (sp() + Seq::<u8>::empty() + spaces(r))
                =~= gap_join(fs, gaps) + (spaces(pend) + spaces(1) + spaces(r)));
            assert(gap_join(fs, ones) + Seq::<u8>::empty() =~= gap_join(fs, ones));
            (fs, gaps, ones, (pend + 1 + r) as nat)
        },
    }
}

/// Vertical alignment only widens the single spaces between the fields of a
/// tag line and drops white space at its end: for a tag of a group written
/// on one line, the single-spaced line is its fields joined by one space;
/// the aligned line, before white space at its end is dropped, is the same
/// fields in the same order with one space or more between each, and spaces
/// after; and the aligned line ends in no white space.
pub proof fn lemma_aligned_keeps_fields(g: Seq<TagSpec>, i: int)
    requires
        0 <= i < g.len(),
        alignable(g[i]),
    ensures
        unaligned_line(g[i]) == join(tag_fields(g[i]), sp()),
        exists|gaps: Seq<nat>, tail: nat|
            gaps.len() + 1 == tag_fields(g[i]).len() && (forall|k: int|
                0 <= k < gaps.len() ==> #[trigger] gaps[k] >= 1) && aligned_core(g[i], metrics(g))
                == gap_join(tag_fields(g[i]), gaps) + spaces(tail),
        aligned_line(g[i], metrics(g)) == trim_end(aligned_core(g[i], metrics(g))),
        ws_suffix_len(aligned_line(g[i], metrics(g))) == 0,
{
    let t = g[i];
    let m = metrics(g);
    lemma_metrics_bound(g, i);
    crate::docblock::null_order::lemma_trim_end_keeps(aligned_core(t, m));
    let more = m.has_vars || t.description.len() > 0;
    let has_desc = t.description.len() > 0;
    let f0 = seq![t.tag_name];
    let g0 = Seq::<nat>::empty();
    let p0 = (m.name - t.tag_name.len()) as nat;
    assert(gap_join(f0, g0) == t.tag_name);
    assert(gaps_ok(f0, g0, g0));
    // The type column.
    let tc = type_column(t, m);
    let (f1, g1, o1, p1) = if m.has_types {
        let r: nat = match t.type_str {
            Some(ty) => if more {
                (m.ty - ty.len()) as nat
            } else {
                0
            },
            None => if more {
                m.ty
            } else {
                0
            },
        };
        assert(tc =~= sp() + opt_piece(t.type_str) + spaces(r));
        lemma_column_step(f0, g0, g0, p0, t.type_str, r)
    } else {
        assert(tc =~= Seq::<u8>::empty());
        assert(f0 + opt_fields(t.type_str) =~= f0);
        (f0, g0, g0, p0)
    };
    assert(t.tag_name + name_padding(t, m) + tc =~= gap_join(f1, g1) + spaces(p1));
    // The variable column.
    let vc = var_column(t, m);
    let (f2, g2, o2, p2) = if m.has_vars {
        let r: nat = match t.variable {
            Some(v) => if has_desc {
                (m.var - v.len()) as nat
            } else {
                0
            },
            None => if has_desc {
                m.var
            } else {
                0
            },
        };
        assert(vc =~= sp() + opt_piece(t.variable) + spaces(r));
        lemma_column_step(f1, g1, o1, p1, t.variable, r)
    } else {
        assert(vc =~= Seq::<u8>::empty());
        assert(f1 + opt_fields(t.variable) =~= f1);
        (f1, g1, o1, p1)
    };
    assert(t.tag_name + name_padding(t, m) + tc + vc =~= gap_join(f2, g2) + spaces(p2));
    // The description.
    let d = if has_desc {
        Some(t.description)
    } else {
        None::<Seq<u8>>
    };
    let dc = if has_desc {
        sp() + t.description
    } else {
        Seq::empty()
    };
    let (f3, g3, o3, p3) = if has_desc {
        assert(dc =~= sp() + opt_piece(d) + spaces(0));
        lemma_column_step(f2, g2, o2, p2, d, 0)
    } else {
        assert(f2 + opt_fields(d) =~= f2);
        (f2, g2, o2, p2)
    };
    assert(aligned_core(t, m) =~= gap_join(f3, g3) + spaces(p3));
    assert(f3 =~= tag_fields(t));
    assert(gap_join(f3, o3) =~= unaligned_line(t));
    lemma_join_single(f3, o3);
}

} // verus!
