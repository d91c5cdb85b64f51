//! Every line of a reformatted docblock after the first is a comment line:
//! each line feed of the text is followed by ` *`.
use vstd::prelude::*;

use crate::docblock::layout::{
    after_first_line, aligned_core, aligned_from, aligned_group, aligned_line, at_sign,
    continuation_line, first_line, lemma_run_end, metrics, multiline_raw, name_padding, opt_len,
    run_end, sp,
    spaced, spaces, type_column, unaligned_line, var_column, Metrics,
};
use crate::docblock::model::{opt_view, Element, FormatSettings, TagKind, TagSpec, TextSegment};
use crate::docblock::properties::lemma_drop_trailing_blank;
use crate::docblock::parts::{split_type, split_var, tag_parts};
use crate::docblock::reformat::{
    adjusted_type, annotation_line, collapse_blank, desc_block, desc_lines, doc_open,
    drop_trailing_blank, effective_name, final_desc, has_tag, is_dropped_kind, nonblank_trimmed,
    reformatted, segment_lines, segments_lines, sorted_tags, tag_block, tag_line_of, tag_specs,
    tag_text_lines, with_priority,
};
use crate::docblock::types::{
    at_word_start, bar, is_cut, non_null_parts, normalized, normalized_from, null_last, null_word,
    scalar_match, scalar_new, scalar_word, split_top, split_top_from,
};
use crate::docblock::properties::lemma_scalar_words_are_words;
use crate::text::{join, lines, strip_cr, trim, trim_end, trim_start, ws_prefix_len, ws_suffix_len};

verus! {

/// No byte of `s` is a line feed.
pub open spec fn no_lf(s: Seq<u8>) -> bool {
    forall|i: int| 0 <= i < s.len() ==> s[i] != 0x0Au8
}

/// No line of `ls` holds a line feed.
pub open spec fn all_no_lf(ls: Seq<Seq<u8>>) -> bool {
    forall|k: int| 0 <= k < ls.len() ==> no_lf(#[trigger] ls[k])
}

/// Every line feed of `s` is followed by ` *`.
pub open spec fn starred(s: Seq<u8>) -> bool {
    forall|i: int|
        0 <= i < s.len() && #[trigger] s[i] == 0x0Au8 ==> i + 2 < s.len() && s[i + 1] == 0x20u8
            && s[i + 2] == 0x2Au8
}

/// Text without line feeds has none to check.
pub proof fn lemma_no_lf_starred(s: Seq<u8>)
    requires
        no_lf(s),
    ensures
        starred(s),
{
}

/// Both checks carry over to a concatenation.
pub proof fn lemma_concat(a: Seq<u8>, b: Seq<u8>)
    ensures
        no_lf(a) && no_lf(b) ==> no_lf(a + b),
        starred(a) && starred(b) ==> starred(a + b),
{
    let c = a + b;
    if no_lf(a) && no_lf(b) {
        assert forall|i: int| 0 <= i < c.len() implies c[i] != 0x0Au8 by {
            if i < a.len() {
                assert(c[i] == a[i]);
            } else {
                assert(c[i] == b[i - a.len()]);
            }
        }
    }
    if starred(a) && starred(b) {
        assert forall|i: int|
            0 <= i < c.len() && #[trigger] c[i] == 0x0Au8 implies i + 2 < c.len() && c[i + 1]
                == 0x20u8 && c[i + 2] == 0x2Au8 by {
            if i < a.len() {
                assert(c[i] == a[i]);
                assert(c[i + 1] == a[i + 1]);
                assert(c[i + 2] == a[i + 2]);
            } else {
                assert(c[i] == b[i - a.len()]);
                assert(c[i + 1] == b[i + 1 - a.len()]);
                assert(c[i + 2] == b[i + 2 - a.len()]);
            }
        }
    }
}

/// Cutting white space off the ends keeps a text free of line feeds.
pub proof fn lemma_no_lf_trim(s: Seq<u8>)
    requires
        no_lf(s),
    ensures
        no_lf(trim_start(s)),
        no_lf(trim_end(s)),
        no_lf(trim(s)),
{
    lemma_no_lf_trim_start(s);
    lemma_no_lf_trim_end(s);
    lemma_no_lf_trim_end(trim_start(s));
}

proof fn lemma_no_lf_trim_start(s: Seq<u8>)
    requires
        no_lf(s),
    ensures
        no_lf(trim_start(s)),
    decreases s.len(),
{
    if ws_prefix_len(s) > 0 {
        let t = s.skip(ws_prefix_len(s) as int);
        assert(no_lf(t)) by {
            assert forall|i: int| 0 <= i < t.len() implies t[i] != 0x0Au8 by {
                assert(t[i] == s[i + ws_prefix_len(s)]);
            }
        }
        lemma_no_lf_trim_start(t);
    }
}

proof fn lemma_no_lf_trim_end(s: Seq<u8>)
    requires
        no_lf(s),
    ensures
        no_lf(trim_end(s)),
    decreases s.len(),
{
    if ws_suffix_len(s) > 0 {
        let t = s.take(s.len() - ws_suffix_len(s));
        assert(no_lf(t)) by {
            assert forall|i: int| 0 <= i < t.len() implies t[i] != 0x0Au8 by {
                assert(t[i] == s[i]);
            }
        }
        lemma_no_lf_trim_end(t);
    }
}

/// The lines of a text hold no line feed.
pub proof fn lemma_lines_no_lf(s: Seq<u8>)
    ensures
        all_no_lf(lines(s)),
    decreases s.len(),
{
    if s.len() > 0 {
        crate::text::lemma_first_index_of_props(s, 0x0Au8);
        match crate::text::first_index_of(s, 0x0Au8) {
            None => {
                assert(lines(s) == seq![s]);
            },
            Some(i) => {
                lemma_lines_no_lf(s.skip(i + 1));
                let first = strip_cr(s.take(i));
                assert(no_lf(first)) by {
                    assert forall|j: int| 0 <= j < first.len() implies first[j] != 0x0Au8 by {
                        assert(first[j] == s[j]);
                    }
                }
                let all = seq![first] + lines(s.skip(i + 1));
                assert(lines(s) == all);
                assert forall|k: int| 0 <= k < all.len() implies no_lf(#[trigger] all[k]) by {
                    if k > 0 {
                        assert(all[k] == lines(s.skip(i + 1))[k - 1]);
                    }
                }
            },
        }
    }
}

/// Joining pieces without line feeds by a separator without line feeds.
pub proof fn lemma_join_no_lf(parts: Seq<Seq<u8>>, sep: Seq<u8>)
    requires
        all_no_lf(parts),
        no_lf(sep),
    ensures
        no_lf(join(parts, sep)),
    decreases parts.len(),
{
    if parts.len() > 1 {
        lemma_join_no_lf(parts.drop_last(), sep);
        assert(parts.last() == parts[parts.len() - 1]);
        lemma_concat(join(parts.drop_last(), sep), sep);
        lemma_concat(join(parts.drop_last(), sep) + sep, parts.last());
    } else if parts.len() == 1 {
        assert(no_lf(parts[0]));
    }
}

/// Joining lines without line feeds by ` *`-continued line breaks.
pub proof fn lemma_join_starred(parts: Seq<Seq<u8>>)
    requires
        all_no_lf(parts),
    ensures
        starred(join(parts, seq![0x0Au8, 0x20u8, 0x2Au8, 0x20u8])),
    decreases parts.len(),
{
    let sep = seq![0x0Au8, 0x20u8, 0x2Au8, 0x20u8];
    if parts.len() > 1 {
        lemma_join_starred(parts.drop_last());
        assert(parts.last() == parts[parts.len() - 1]);
        lemma_no_lf_starred(parts.last());
        assert(starred(sep));
        lemma_concat(join(parts.drop_last(), sep), sep);
        lemma_concat(join(parts.drop_last(), sep) + sep, parts.last());
    } else if parts.len() == 1 {
        assert(no_lf(parts[0]));
    }
}

/// Rewriting scalar type names adds no line feed.
pub proof fn lemma_normalized_no_lf(s: Seq<u8>, i: int)
    requires
        no_lf(s),
        0 <= i,
    ensures
        no_lf(normalized_from(s, i)),
    decreases s.len() - i,
{
    if i < s.len() {
        let t = s.skip(i);
        if at_word_start(s, i) && scalar_word(t) is Some {
            let (n, w) = scalar_word(t)->0;
            let k = if scalar_match(t, 0) {
                0int
            } else if scalar_match(t, 1) {
                1int
            } else if scalar_match(t, 2) {
                2int
            } else {
                3int
            };
            assert(w == scalar_new(k)) by {
                if k >= 2 {
                    assert(scalar_new(2) == scalar_new(3));
                }
            }
            assert(no_lf(w)) by {
                assert forall|q: int| 0 <= q < w.len() implies w[q] != 0x0Au8 by {
                    lemma_scalar_words_are_words(k, q);
                }
            }
            lemma_scalar_words_are_words(k, 0);
            lemma_normalized_no_lf(s, i + n);
            lemma_concat(w, normalized_from(s, i + n));
        } else {
            lemma_normalized_no_lf(s, i + 1);
            lemma_concat(seq![s[i]], normalized_from(s, i + 1));
        }
    }
}

/// The pieces of a split hold no line feed when the text holds none.
pub proof fn lemma_split_top_from_no_lf(s: Seq<u8>, d: u8, start: int, j: int)
    requires
        no_lf(s),
        0 <= start <= j <= s.len(),
    ensures
        all_no_lf(split_top_from(s, d, start, j)),
    decreases s.len() - j,
{
    let ps = split_top_from(s, d, start, j);
    if j >= s.len() {
        let p = s.subrange(start, s.len() as int);
        assert(no_lf(p)) by {
            assert forall|q: int| 0 <= q < p.len() implies p[q] != 0x0Au8 by {
                assert(p[q] == s[start + q]);
            }
        }
        assert(ps == seq![p]);
    } else if is_cut(s, d, j) {
        lemma_split_top_from_no_lf(s, d, j + 1, j + 1);
        let p = s.subrange(start, j);
        assert(no_lf(p)) by {
            assert forall|q: int| 0 <= q < p.len() implies p[q] != 0x0Au8 by {
                assert(p[q] == s[start + q]);
            }
        }
        let rest = split_top_from(s, d, j + 1, j + 1);
        assert(ps == seq![p] + rest);
        assert forall|k: int| 0 <= k < ps.len() implies no_lf(#[trigger] ps[k]) by {
            if k > 0 {
                assert(ps[k] == rest[k - 1]);
            }
        }
    } else {
        lemma_split_top_from_no_lf(s, d, start, j + 1);
    }
}

/// The trimmed members that are kept hold no line feed.
proof fn lemma_non_null_parts_no_lf(parts: Seq<Seq<u8>>)
    requires
        all_no_lf(parts),
    ensures
        all_no_lf(non_null_parts(parts)),
    decreases parts.len(),
{
    if parts.len() > 0 {
        let d = parts.drop_last();
        assert forall|k: int| 0 <= k < d.len() implies no_lf(#[trigger] d[k]) by {
            assert(d[k] == parts[k]);
        }
        lemma_non_null_parts_no_lf(d);
        assert(parts.last() == parts[parts.len() - 1]);
        lemma_no_lf_trim(parts.last());
    }
}

/// Moving `null` last adds no line feed.
pub proof fn lemma_null_last_no_lf(s: Seq<u8>)
    requires
        no_lf(s),
    ensures
        no_lf(null_last(s)),
{
    let parts = split_top(s, 0x7Cu8);
    lemma_split_top_from_no_lf(s, 0x7Cu8, 0, 0);
    lemma_non_null_parts_no_lf(parts);
    let kept = non_null_parts(parts).push(null_word());
    assert forall|k: int| 0 <= k < kept.len() implies no_lf(#[trigger] kept[k]) by {
        if k < kept.len() - 1 {
            assert(kept[k] == non_null_parts(parts)[k]);
        }
    }
    lemma_join_no_lf(kept, bar());
}

/// A type rewritten as the settings ask holds no line feed when the type
/// holds none.
pub proof fn lemma_adjusted_type_no_lf(t: Seq<u8>, settings: FormatSettings)
    requires
        no_lf(t),
    ensures
        no_lf(adjusted_type(t, settings)),
{
    lemma_normalized_no_lf(t, 0);
    let t1 = if settings.phpdoc_scalar_types {
        normalized(t)
    } else {
        t
    };
    lemma_null_last_no_lf(t1);
}

/// The pieces that splitting a type off gives hold no line feed.
proof fn lemma_split_type_no_lf(s: Seq<u8>)
    requires
        no_lf(s),
    ensures
        split_type(s).0 matches Some(t) ==> no_lf(t),
        no_lf(split_type(s).1),
{
    let t = trim_start(s);
    lemma_no_lf_trim(s);
    if t.len() > 0 && t[0] != 0x24u8 {
        let i = crate::docblock::parts::type_end_from(t, 0);
        crate::docblock::parts::lemma_type_end_from(t, 0);
        assert forall|q: int| 0 <= q < t.take(i).len() implies t.take(i)[q] != 0x0Au8 by {
            assert(t.take(i)[q] == t[q]);
        }
        assert forall|q: int| 0 <= q < t.skip(i).len() implies t.skip(i)[q] != 0x0Au8 by {
            assert(t.skip(i)[q] == t[q + i]);
        }
    }
}

/// The pieces that splitting a variable off gives hold no line feed.
proof fn lemma_split_var_no_lf(s: Seq<u8>)
    requires
        no_lf(s),
    ensures
        split_var(s).0 matches Some(v) ==> no_lf(v),
        no_lf(split_var(s).1),
{
    let t = trim_start(s);
    lemma_no_lf_trim(s);
    crate::docblock::parts::lemma_runs(t, 0);
    let st = crate::docblock::parts::sigil_end(t, 0);
    if st < t.len() && t[st] == 0x24u8 {
        crate::docblock::parts::lemma_runs(t, st + 1);
        let e = crate::docblock::parts::word_end(t, st + 1);
        assert forall|q: int| 0 <= q < t.take(e).len() implies t.take(e)[q] != 0x0Au8 by {
            assert(t.take(e)[q] == t[q]);
        }
        assert forall|q: int| 0 <= q < t.skip(e).len() implies t.skip(e)[q] != 0x0Au8 by {
            assert(t.skip(e)[q] == t[q + e]);
        }
    }
}

/// The type, variable and rest of a one-line description hold no line feed.
pub proof fn lemma_tag_parts_no_lf(desc: Seq<u8>, kind: TagKind)
    requires
        no_lf(desc),
    ensures
        tag_parts(desc, kind).0 matches Some(t) ==> no_lf(t),
        tag_parts(desc, kind).1 matches Some(v) ==> no_lf(v),
        no_lf(tag_parts(desc, kind).2),
{
    let d = trim(desc);
    lemma_no_lf_trim(desc);
    lemma_split_type_no_lf(d);
    lemma_split_var_no_lf(d);
    lemma_no_lf_trim(split_var(d).1);
    match split_type(d) {
        (Some(t), rest) => {
            lemma_no_lf_trim(rest);
            lemma_split_var_no_lf(trim_start(rest));
            lemma_no_lf_trim(split_var(trim_start(rest)).1);
        },
        (None, rest) => {
            lemma_no_lf_trim(rest);
        },
    }
}

/// The parts of a tag line hold no line feed (the lines of a multi-line tag
/// none either).
pub open spec fn tag_no_lf(t: TagSpec) -> bool {
    &&& no_lf(t.tag_name)
    &&& (t.type_str matches Some(x) ==> no_lf(x))
    &&& (t.variable matches Some(v) ==> no_lf(v))
    &&& no_lf(t.description)
    &&& (t.raw_lines matches Some(raw) ==> all_no_lf(raw))
}

/// No tag line of `tags` holds a line feed in its parts.
pub open spec fn all_tags_no_lf(tags: Seq<TagSpec>) -> bool {
    forall|k: int| 0 <= k < tags.len() ==> tag_no_lf(#[trigger] tags[k])
}

/// A run of spaces holds no line feed.
proof fn lemma_spaces_no_lf(n: nat)
    ensures
        no_lf(spaces(n)),
{
}

/// The first line of a multi-line tag, and its further lines, hold no line
/// feed.
pub proof fn lemma_multiline_raw_no_lf(name: Seq<u8>, desc: Seq<u8>, settings: FormatSettings)
    requires
        no_lf(name),
    ensures
        all_no_lf(multiline_raw(name, desc, settings)),
{
    crate::text::lemma_first_index_of_props(desc, 0x0Au8);
    let first = first_line(desc);
    assert(no_lf(first)) by {
        match crate::text::first_index_of(desc, 0x0Au8) {
            Some(i) => {
                assert forall|q: int| 0 <= q < first.len() implies first[q] != 0x0Au8 by {
                    assert(first[q] == desc[q]);
                }
            },
            None => {},
        }
    }
    lemma_normalized_no_lf(first, 0);
    let f1 = if settings.phpdoc_scalar_types {
        normalized(first)
    } else {
        first
    };
    lemma_null_last_no_lf(f1);
    let f2 = if settings.phpdoc_null_position is Last {
        null_last(f1)
    } else {
        f1
    };
    lemma_no_lf_trim(f2);
    lemma_concat(at_sign(), name);
    lemma_concat(at_sign() + name, sp());
    lemma_concat(at_sign() + name + sp(), trim(f2));
    let head = at_sign() + name + sp() + trim(f2);
    let rest = lines(after_first_line(desc));
    lemma_lines_no_lf(after_first_line(desc));
    let more = rest.map_values(|l: Seq<u8>| continuation_line(l));
    assert forall|k: int| 0 <= k < more.len() implies no_lf(#[trigger] more[k]) by {
        assert(more[k] == continuation_line(rest[k]));
        assert(no_lf(rest[k]));
        lemma_no_lf_trim(rest[k]);
        lemma_concat(seq![0x20u8, 0x20u8], trim(rest[k]));
    }
    let all = seq![head] + more;
    assert(multiline_raw(name, desc, settings) == all);
    assert forall|k: int| 0 <= k < all.len() implies no_lf(#[trigger] all[k]) by {
        if k > 0 {
            assert(all[k] == more[k - 1]);
        }
    }
}

/// The tag line of a tag whose written name holds no line feed holds none.
pub proof fn lemma_tag_line_no_lf(
    kind: TagKind,
    name: Seq<u8>,
    description: Seq<u8>,
    index: nat,
    settings: FormatSettings,
)
    requires
        no_lf(effective_name(kind, name)),
    ensures
        tag_no_lf(tag_line_of(kind, name, description, index, settings)),
{
    let en = effective_name(kind, name);
    let d = trim(description);
    lemma_concat(at_sign(), en);
    if crate::text::has_byte(d, 0x0Au8) {
        lemma_multiline_raw_no_lf(en, d, settings);
    } else {
        assert(no_lf(d));
        lemma_tag_parts_no_lf(d, kind);
        match tag_parts(d, kind).0 {
            Some(t) => {
                lemma_adjusted_type_no_lf(t, settings);
            },
            None => {},
        }
    }
}

/// The pieces of a docblock that are written on one line: the names of the
/// tags that are kept and, before the first tag, inline code, inline tags
/// and annotations.
pub open spec fn piece_ok(e: Element, after_tag: bool) -> bool {
    match e {
        Element::Tag { kind, name, .. } => is_dropped_kind(kind) || no_lf(effective_name(kind, name@)),
        Element::Text { segments } => after_tag || forall|k: int|
            0 <= k < segments@.len() ==> segment_ok(#[trigger] segments@[k]),
        Element::Annotation { name, arguments } => after_tag || (no_lf(name@) && (
        arguments matches Some(a) ==> no_lf(a@))),
        _ => true,
    }
}

/// A piece of free text written on one line holds no line feed.
pub open spec fn segment_ok(seg: TextSegment) -> bool {
    match seg {
        TextSegment::Paragraph { .. } => true,
        TextSegment::InlineCode { content } => no_lf(content@),
        TextSegment::InlineTag { name, description } => no_lf(name@) && no_lf(trim(description@)),
    }
}

/// Every piece of the docblock that is written on one line holds no line feed.
pub open spec fn one_line_pieces(els: Seq<Element>) -> bool {
    forall|i: int| 0 <= i < els.len() ==> #[trigger] piece_ok(els[i], has_tag(els.take(i)))
}

/// What holds of the elements holds of all but the last.
proof fn lemma_one_line_pieces_prefix(els: Seq<Element>)
    requires
        one_line_pieces(els),
        els.len() > 0,
    ensures
        one_line_pieces(els.drop_last()),
        piece_ok(els.last(), has_tag(els.drop_last())),
{
    let d = els.drop_last();
    assert forall|i: int| 0 <= i < d.len() implies #[trigger] piece_ok(d[i], has_tag(d.take(i))) by {
        assert(d.take(i) =~= els.take(i));
        assert(d[i] == els[i]);
        assert(piece_ok(els[i], has_tag(els.take(i))));
    }
    assert(els.take(els.len() - 1) =~= d);
    assert(piece_ok(els[els.len() - 1], has_tag(els.take(els.len() - 1))));
}

/// The tag lines of a docblock whose tag names hold no line feed hold none.
pub proof fn lemma_tag_specs_no_lf(els: Seq<Element>, settings: FormatSettings)
    requires
        one_line_pieces(els),
    ensures
        all_tags_no_lf(tag_specs(els, settings)),
    decreases els.len(),
{
    if els.len() > 0 {
        lemma_one_line_pieces_prefix(els);
        lemma_tag_specs_no_lf(els.drop_last(), settings);
        let prev = tag_specs(els.drop_last(), settings);
        match els.last() {
            Element::Tag { kind, name, description } => {
                if !is_dropped_kind(kind) {
                    lemma_tag_line_no_lf(kind, name@, description@, prev.len(), settings);
                    let t = tag_line_of(kind, name@, description@, prev.len(), settings);
                    assert forall|k: int| 0 <= k < prev.push(t).len() implies tag_no_lf(
                        #[trigger] prev.push(t)[k],
                    ) by {
                        if k < prev.len() {
                            assert(prev.push(t)[k] == prev[k]);
                        }
                    }
                }
            },
            _ => {},
        }
    }
}

/// The trimmed non-blank lines of lines without line feeds hold none.
proof fn lemma_nonblank_trimmed_no_lf(ls: Seq<Seq<u8>>)
    requires
        all_no_lf(ls),
    ensures
        all_no_lf(nonblank_trimmed(ls)),
    decreases ls.len(),
{
    if ls.len() > 0 {
        let d = ls.drop_last();
        assert forall|k: int| 0 <= k < d.len() implies no_lf(#[trigger] d[k]) by {
            assert(d[k] == ls[k]);
        }
        lemma_nonblank_trimmed_no_lf(d);
        assert(ls.last() == ls[ls.len() - 1]);
        lemma_no_lf_trim(ls.last());
    }
}

/// Appending lines without line feeds.
proof fn lemma_all_no_lf_concat(a: Seq<Seq<u8>>, b: Seq<Seq<u8>>)
    requires
        all_no_lf(a),
        all_no_lf(b),
    ensures
        all_no_lf(a + b),
{
    assert forall|k: int| 0 <= k < (a + b).len() implies no_lf(#[trigger] (a + b)[k]) by {
        if k < a.len() {
            assert((a + b)[k] == a[k]);
        } else {
            assert((a + b)[k] == b[k - a.len()]);
        }
    }
}

/// The description lines of free text written on one line hold no line feed.
proof fn lemma_segments_lines_no_lf(segs: Seq<TextSegment>)
    requires
        forall|k: int| 0 <= k < segs.len() ==> segment_ok(#[trigger] segs[k]),
    ensures
        all_no_lf(segments_lines(segs)),
    decreases segs.len(),
{
    if segs.len() > 0 {
        let d = segs.drop_last();
        assert forall|k: int| 0 <= k < d.len() implies segment_ok(#[trigger] d[k]) by {
            assert(d[k] == segs[k]);
        }
        lemma_segments_lines_no_lf(d);
        let last = segs.last();
        assert(segment_ok(segs[segs.len() - 1]));
        match last {
            TextSegment::Paragraph { content } => {
                lemma_lines_no_lf(content@);
                lemma_nonblank_trimmed_no_lf(lines(content@));
            },
            TextSegment::InlineCode { content } => {
                lemma_concat(seq![0x60u8], content@);
                lemma_concat(seq![0x60u8] + content@, seq![0x60u8]);
            },
            TextSegment::InlineTag { name, description } => {
                let dd = trim(description@);
                lemma_concat(seq![0x7Bu8, 0x40u8], name@);
                lemma_concat(seq![0x7Bu8, 0x40u8] + name@, seq![0x7Du8]);
                lemma_concat(seq![0x7Bu8, 0x40u8] + name@, sp());
                lemma_concat(seq![0x7Bu8, 0x40u8] + name@ + sp(), dd);
                lemma_concat(seq![0x7Bu8, 0x40u8] + name@ + sp() + dd, seq![0x7Du8]);
            },
        }
        lemma_all_no_lf_concat(segments_lines(d), segment_lines(last));
    }
}

/// The description lines of a docblock whose one-line pieces hold no line
/// feed hold none.
pub proof fn lemma_desc_lines_no_lf(els: Seq<Element>)
    requires
        one_line_pieces(els),
    ensures
        all_no_lf(desc_lines(els)),
    decreases els.len(),
{
    if els.len() > 0 {
        lemma_one_line_pieces_prefix(els);
        lemma_desc_lines_no_lf(els.drop_last());
        let prev = desc_lines(els.drop_last());
        if !has_tag(els.drop_last()) {
            match els.last() {
                Element::Text { segments } => {
                    lemma_segments_lines_no_lf(segments@);
                    lemma_all_no_lf_concat(prev, segments_lines(segments@));
                },
                Element::Line => {
                    lemma_all_no_lf_concat(prev, seq![Seq::<u8>::empty()]);
                    assert(prev.push(Seq::<u8>::empty()) =~= prev + seq![Seq::<u8>::empty()]);
                },
                Element::Annotation { name, arguments } => {
                    let l = annotation_line(name@, opt_view(arguments));
                    lemma_concat(at_sign(), name@);
                    match arguments {
                        Some(a) => {
                            lemma_concat(at_sign() + name@, seq![0x28u8]);
                            lemma_concat(at_sign() + name@ + seq![0x28u8], a@);
                            lemma_concat(at_sign() + name@ + seq![0x28u8] + a@, seq![0x29u8]);
                        },
                        None => {},
                    }
                    lemma_all_no_lf_concat(prev, seq![l]);
                    assert(prev.push(l) =~= prev + seq![l]);
                },
                _ => {},
            }
        }
    }
}

/// Collapsing runs of empty lines keeps lines free of line feeds.
proof fn lemma_collapse_blank_no_lf(ls: Seq<Seq<u8>>)
    requires
        all_no_lf(ls),
    ensures
        all_no_lf(collapse_blank(ls)),
    decreases ls.len(),
{
    if ls.len() > 0 {
        let d = ls.drop_last();
        assert forall|k: int| 0 <= k < d.len() implies no_lf(#[trigger] d[k]) by {
            assert(d[k] == ls[k]);
        }
        lemma_collapse_blank_no_lf(d);
        assert(ls.last() == ls[ls.len() - 1]);
        lemma_all_no_lf_concat(collapse_blank(d), seq![ls.last()]);
        assert(collapse_blank(d).push(ls.last()) =~= collapse_blank(d) + seq![ls.last()]);
    }
}

/// The final description lines hold no line feed.
pub proof fn lemma_final_desc_no_lf(els: Seq<Element>)
    requires
        one_line_pieces(els),
    ensures
        all_no_lf(final_desc(els)),
{
    let d0 = desc_lines(els);
    lemma_desc_lines_no_lf(els);
    lemma_drop_trailing_blank(d0);
    let d1 = drop_trailing_blank(d0);
    assert forall|k: int| 0 <= k < d1.len() implies no_lf(#[trigger] d1[k]) by {
        assert(d1[k] == d0.take(d1.len() as int)[k]);
        assert(d1[k] == d0[k]);
    }
    lemma_collapse_blank_no_lf(d1);
}

/// Written out, description lines without line feeds give text whose line
/// feeds are all followed by ` *`.
pub proof fn lemma_desc_block_starred(ls: Seq<Seq<u8>>)
    requires
        all_no_lf(ls),
    ensures
        starred(desc_block(ls)),
    decreases ls.len(),
{
    if ls.len() > 0 {
        let d = ls.drop_last();
        assert forall|k: int| 0 <= k < d.len() implies no_lf(#[trigger] d[k]) by {
            assert(d[k] == ls[k]);
        }
        lemma_desc_block_starred(d);
        assert(ls.last() == ls[ls.len() - 1]);
        let star = seq![0x0Au8, 0x20u8, 0x2Au8];
        let star_sp = seq![0x0Au8, 0x20u8, 0x2Au8, 0x20u8];
        assert(starred(star));
        assert(starred(star_sp));
        lemma_no_lf_starred(ls.last());
        lemma_concat(star_sp, ls.last());
        let piece = if ls.last().len() == 0 {
            star
        } else {
            star_sp + ls.last()
        };
        lemma_concat(desc_block(d), piece);
    }
}

/// Every line of `ls` has its line feeds followed by ` *`.
pub open spec fn all_starred(ls: Seq<Seq<u8>>) -> bool {
    forall|k: int| 0 <= k < ls.len() ==> starred(#[trigger] ls[k])
}

/// Picking tags of a priority keeps them free of line feeds.
proof fn lemma_with_priority_no_lf(tags: Seq<TagSpec>, p: u8)
    requires
        all_tags_no_lf(tags),
    ensures
        all_tags_no_lf(with_priority(tags, p)),
    decreases tags.len(),
{
    if tags.len() > 0 {
        let d = tags.drop_last();
        assert forall|k: int| 0 <= k < d.len() implies tag_no_lf(#[trigger] d[k]) by {
            assert(d[k] == tags[k]);
        }
        lemma_with_priority_no_lf(d, p);
        assert(tags.last() == tags[tags.len() - 1]);
        let w = with_priority(d, p);
        assert forall|k: int| 0 <= k < w.push(tags.last()).len() implies tag_no_lf(
            #[trigger] w.push(tags.last())[k],
        ) by {
            if k < w.len() {
                assert(w.push(tags.last())[k] == w[k]);
            }
        }
    }
}

/// Appending tag lines free of line feeds.
proof fn lemma_tags_no_lf_concat(a: Seq<TagSpec>, b: Seq<TagSpec>)
    requires
        all_tags_no_lf(a),
        all_tags_no_lf(b),
    ensures
        all_tags_no_lf(a + b),
{
    assert forall|k: int| 0 <= k < (a + b).len() implies tag_no_lf(#[trigger] (a + b)[k]) by {
        if k < a.len() {
            assert((a + b)[k] == a[k]);
        } else {
            assert((a + b)[k] == b[k - a.len()]);
        }
    }
}

/// Sorting tag lines keeps them free of line feeds.
pub proof fn lemma_sorted_tags_no_lf(tags: Seq<TagSpec>)
    requires
        all_tags_no_lf(tags),
    ensures
        all_tags_no_lf(sorted_tags(tags)),
{
    lemma_with_priority_no_lf(tags, 0);
    lemma_with_priority_no_lf(tags, 1);
    lemma_with_priority_no_lf(tags, 2);
    lemma_with_priority_no_lf(tags, 3);
    lemma_tags_no_lf_concat(with_priority(tags, 0), with_priority(tags, 1));
    lemma_tags_no_lf_concat(with_priority(tags, 0) + with_priority(tags, 1), with_priority(tags, 2));
    lemma_tags_no_lf_concat(
        with_priority(tags, 0) + with_priority(tags, 1) + with_priority(tags, 2),
        with_priority(tags, 3),
    );
}

/// A tag line written with single spaces has its line feeds (those between
/// the lines of a multi-line tag) followed by ` *`.
proof fn lemma_unaligned_line_starred(t: TagSpec)
    requires
        tag_no_lf(t),
    ensures
        starred(unaligned_line(t)),
{
    match t.raw_lines {
        Some(raw) => {
            lemma_join_starred(raw);
        },
        None => {
            let a = t.tag_name + spaced(t.type_str);
            lemma_concat(sp(), t.type_str->0);
            lemma_concat(t.tag_name, spaced(t.type_str));
            lemma_concat(sp(), t.variable->0);
            lemma_concat(a, spaced(t.variable));
            lemma_concat(sp(), t.description);
            let tail = if t.description.len() > 0 {
                sp() + t.description
            } else {
                Seq::empty()
            };
            lemma_concat(a + spaced(t.variable), tail);
            lemma_no_lf_starred(unaligned_line(t));
        },
    }
}

/// A tag line written in columns has its line feeds followed by ` *`.
proof fn lemma_aligned_line_starred(t: TagSpec, m: Metrics)
    requires
        tag_no_lf(t),
    ensures
        starred(aligned_line(t, m)),
{
    match t.raw_lines {
        Some(raw) => {
            lemma_join_starred(raw);
        },
        None => {
            let more = m.has_vars || t.description.len() > 0;
            lemma_spaces_no_lf((m.ty - opt_len(t.type_str)) as nat);
            lemma_spaces_no_lf(m.ty);
            lemma_spaces_no_lf((m.name - t.tag_name.len()) as nat);
            lemma_spaces_no_lf((m.var - opt_len(t.variable)) as nat);
            lemma_spaces_no_lf(m.var);
            let tc_mid = match t.type_str {
                Some(ty) => ty + if more {
                    spaces((m.ty - ty.len()) as nat)
                } else {
                    Seq::empty()
                },
                None => if more {
                    spaces(m.ty)
                } else {
                    Seq::empty()
                },
            };
            match t.type_str {
                Some(ty) => {
                    lemma_concat(ty, spaces((m.ty - ty.len()) as nat));
                },
                None => {},
            }
            lemma_concat(sp(), tc_mid);
            let vc_mid = match t.variable {
                Some(v) => v + if t.description.len() > 0 {
                    spaces((m.var - v.len()) as nat)
                } else {
                    Seq::empty()
                },
                None => if t.description.len() > 0 {
                    spaces(m.var)
                } else {
                    Seq::empty()
                },
            };
            match t.variable {
                Some(v) => {
                    lemma_concat(v, spaces((m.var - v.len()) as nat));
                },
                None => {},
            }
            lemma_concat(sp(), vc_mid);
            let tc = type_column(t, m);
            let vc = var_column(t, m);
            let np = name_padding(t, m);
            lemma_concat(t.tag_name, np);
            lemma_concat(t.tag_name + np, tc);
            lemma_concat(t.tag_name + np + tc, vc);
            lemma_concat(sp(), t.description);
            let tail = if t.description.len() > 0 {
                sp() + t.description
            } else {
                Seq::empty()
            };
            lemma_concat(t.tag_name + np + tc + vc, tail);
            lemma_no_lf_trim(aligned_core(t, m));
            lemma_no_lf_starred(trim_end(aligned_core(t, m)));
        },
    }
}

/// The lines of aligned groups have their line feeds followed by ` *`.
proof fn lemma_aligned_from_starred(tags: Seq<TagSpec>, start: int)
    requires
        all_tags_no_lf(tags),
        0 <= start <= tags.len(),
    ensures
        all_starred(aligned_from(tags, start)),
    decreases tags.len() - start,
{
    if start < tags.len() {
        lemma_run_end(tags, start, start + 1);
        let e = run_end(tags, start, start + 1);
        lemma_aligned_from_starred(tags, e);
        let g = tags.subrange(start, e);
        let ag = aligned_group(g);
        assert forall|k: int| 0 <= k < ag.len() implies starred(#[trigger] ag[k]) by {
            assert(g[k] == tags[start + k]);
            lemma_aligned_line_starred(g[k], metrics(g));
        }
        let all = ag + aligned_from(tags, e);
        assert forall|k: int| 0 <= k < all.len() implies starred(#[trigger] all[k]) by {
            if k < ag.len() {
                assert(all[k] == ag[k]);
            } else {
                assert(all[k] == aligned_from(tags, e)[k - ag.len()]);
            }
        }
    }
}

/// The written lines of tag lines free of line feeds have their line feeds
/// followed by ` *`.
pub proof fn lemma_tag_text_lines_starred(tags: Seq<TagSpec>, settings: FormatSettings)
    requires
        all_tags_no_lf(tags),
    ensures
        all_starred(tag_text_lines(tags, settings)),
{
    if settings.phpdoc_align is Vertical {
        lemma_aligned_from_starred(tags, 0);
    } else {
        let ls = tags.map_values(|t: TagSpec| unaligned_line(t));
        assert forall|k: int| 0 <= k < ls.len() implies starred(#[trigger] ls[k]) by {
            lemma_unaligned_line_starred(tags[k]);
        }
    }
}

/// Written out, tag lines whose line feeds are followed by ` *` give text
/// whose line feeds are all followed by ` *`.
pub proof fn lemma_tag_block_starred(ls: Seq<Seq<u8>>, tags: Seq<TagSpec>)
    requires
        all_starred(ls),
    ensures
        starred(tag_block(ls, tags)),
    decreases ls.len(),
{
    if ls.len() > 0 {
        let d = ls.drop_last();
        assert forall|k: int| 0 <= k < d.len() implies starred(#[trigger] d[k]) by {
            assert(d[k] == ls[k]);
        }
        lemma_tag_block_starred(d, tags);
        assert(ls.last() == ls[ls.len() - 1]);
        let star = seq![0x0Au8, 0x20u8, 0x2Au8];
        let star_sp = seq![0x0Au8, 0x20u8, 0x2Au8, 0x20u8];
        assert(starred(star));
        assert(starred(star_sp));
        let i = ls.len() - 1;
        let gap = if i > 0 && tags[i].priority != tags[i - 1].priority {
            star
        } else {
            Seq::empty()
        };
        lemma_concat(tag_block(d, tags), gap);
        lemma_concat(tag_block(d, tags) + gap, star_sp);
        lemma_concat(tag_block(d, tags) + gap + star_sp, ls.last());
    }
}

/// Every line of a reformatted docblock after `/**` is a comment line: each
/// line feed is followed by ` *`, provided the pieces that are written on
/// one line (tag names, and inline code, inline tags and annotations of the
/// description) hold no line feed. Paragraphs and tag descriptions may span
/// lines.
pub proof fn lemma_reformatted_lines(settings: FormatSettings, els: Seq<Element>)
    requires
        one_line_pieces(els),
    ensures
        starred(reformatted(settings, els)),
{
    let d = final_desc(els);
    let tags = sorted_tags(tag_specs(els, settings));
    lemma_final_desc_no_lf(els);
    lemma_desc_block_starred(d);
    lemma_tag_specs_no_lf(els, settings);
    lemma_sorted_tags_no_lf(tag_specs(els, settings));
    lemma_tag_text_lines_starred(tags, settings);
    lemma_tag_block_starred(tag_text_lines(tags, settings), tags);
    if d.len() > 0 || tags.len() > 0 {
        let star = seq![0x0Au8, 0x20u8, 0x2Au8];
        let close = seq![0x0Au8, 0x20u8, 0x2Au8, 0x2Fu8];
        assert(starred(star));
        assert(starred(close));
        assert(starred(doc_open()));
        let sep = if d.len() > 0 && tags.len() > 0 {
            star
        } else {
            Seq::empty()
        };
        lemma_concat(doc_open(), desc_block(d));
        lemma_concat(doc_open() + desc_block(d), sep);
        lemma_concat(doc_open() + desc_block(d) + sep, tag_block(tag_text_lines(tags, settings), tags));
        lemma_concat(
            doc_open() + desc_block(d) + sep + tag_block(tag_text_lines(tags, settings), tags),
            close,
        );
    }
}

} // verus!
