//! Reformatting of a whole docblock: its description, then its tags sorted
//! by kind and laid out in columns.
use vstd::prelude::*;

use crate::docblock::layout::{
    aligned_from, aligned_lines, at_sign, build_multiline_tag_raw, first_line, format_tags_aligned,
    format_tags_unaligned, lemma_run_end, multiline_raw, run_end, sp, unaligned_line,
};
use crate::docblock::model::{
    opt_view, tag_views, Document, Element, FormatSettings, PhpdocAlign, PhpdocNullPosition,
    TagKind, TagLine, TagSpec, TextSegment,
};
use crate::docblock::parts::{parse_tag_parts, priority_of, tag_parts, tag_priority};
use crate::docblock::types::{
    is_scalar_scan_safe, move_null_to_end, normalize_scalar_types, normalized, null_last,
    scalar_scan_safe,
};
use crate::text::{
    copy_range, find_byte, has_byte, has_byte_in, lemma_views_push, lines, lines_of, push_all, starts_with,
    starts_with_bytes, trim, trim_of, views,
};

verus! {

/// `/**`.
pub open spec fn doc_open() -> Seq<u8> {
    seq![0x2Fu8, 0x2Au8, 0x2Au8]
}

/// The trimmed lines of `ls` that are not blank.
pub open spec fn nonblank_trimmed(ls: Seq<Seq<u8>>) -> Seq<Seq<u8>>
    decreases ls.len(),
{
    if ls.len() == 0 {
        Seq::empty()
    } else {
        let r = nonblank_trimmed(ls.drop_last());
        if trim(ls.last()).len() == 0 {
            r
        } else {
            r.push(trim(ls.last()))
        }
    }
}

/// The description lines that one piece of free text gives: each non-blank
/// line of a paragraph, trimmed; inline code in backticks; an inline tag in
/// braces.
pub open spec fn segment_lines(seg: TextSegment) -> Seq<Seq<u8>> {
    match seg {
        TextSegment::Paragraph { content } => nonblank_trimmed(lines(content@)),
        TextSegment::InlineCode { content } => seq![seq![0x60u8] + content@ + seq![0x60u8]],
        TextSegment::InlineTag { name, description } => {
            let d = trim(description@);
            if d.len() == 0 {
                seq![seq![0x7Bu8, 0x40u8] + name@ + seq![0x7Du8]]
            } else {
                seq![seq![0x7Bu8, 0x40u8] + name@ + sp() + d + seq![0x7Du8]]
            }
        },
    }
}

/// The description lines of a run of text pieces.
pub open spec fn segments_lines(segs: Seq<TextSegment>) -> Seq<Seq<u8>>
    decreases segs.len(),
{
    if segs.len() == 0 {
        Seq::empty()
    } else {
        segments_lines(segs.drop_last()) + segment_lines(segs.last())
    }
}

/// An annotation written on one line: `@Name(args)` or `@Name`.
pub open spec fn annotation_line(name: Seq<u8>, arguments: Option<Seq<u8>>) -> Seq<u8> {
    match arguments {
        Some(a) => at_sign() + name + seq![0x28u8] + a + seq![0x29u8],
        None => at_sign() + name,
    }
}

/// The description lines after one more element of the description part
/// (the part before the first tag). An empty line is kept only once some
/// description text stands before it.
pub open spec fn desc_step(acc: Seq<Seq<u8>>, e: Element) -> Seq<Seq<u8>> {
    match e {
        Element::Text { segments } => acc + segments_lines(segments@),
        Element::Line => if acc.len() > 0 {
            acc.push(Seq::empty())
        } else {
            acc
        },
        Element::Annotation { name, arguments } => acc.push(
            annotation_line(name@, opt_view(arguments)),
        ),
        _ => acc,
    }
}

/// Some element is a tag.
pub open spec fn has_tag(els: Seq<Element>) -> bool {
    exists|i: int| 0 <= i < els.len() && els[i] is Tag
}

/// Some element is a code block.
pub open spec fn has_code(els: Seq<Element>) -> bool {
    exists|i: int| 0 <= i < els.len() && els[i] is Code
}

/// The description lines of the elements before the first tag.
pub open spec fn desc_lines(els: Seq<Element>) -> Seq<Seq<u8>>
    decreases els.len(),
{
    if els.len() == 0 {
        Seq::empty()
    } else {
        let prev = desc_lines(els.drop_last());
        if has_tag(els.drop_last()) {
            prev
        } else {
            desc_step(prev, els.last())
        }
    }
}

/// `var`.
pub open spec fn var_word() -> Seq<u8> {
    seq![0x76u8, 0x61u8, 0x72u8]
}

/// `link`.
pub open spec fn link_word() -> Seq<u8> {
    seq![0x6Cu8, 0x69u8, 0x6Eu8, 0x6Bu8]
}

/// `see`.
pub open spec fn see_word() -> Seq<u8> {
    seq![0x73u8, 0x65u8, 0x65u8]
}

/// The name a tag is written with: `@type` becomes `@var`, `@link` becomes
/// `@see`.
pub open spec fn effective_name(kind: TagKind, name: Seq<u8>) -> Seq<u8> {
    if kind is Type {
        var_word()
    } else if name == link_word() {
        see_word()
    } else {
        name
    }
}

/// A type as the settings want it written.
pub open spec fn adjusted_type(t: Seq<u8>, settings: FormatSettings) -> Seq<u8> {
    let t1 = if settings.phpdoc_scalar_types {
        normalized(t)
    } else {
        t
    };
    if settings.phpdoc_null_position is Last {
        null_last(t1)
    } else {
        t1
    }
}

/// The tag line of a tag element; `index` is its position among the kept tags.
pub open spec fn tag_line_of(
    kind: TagKind,
    name: Seq<u8>,
    description: Seq<u8>,
    index: nat,
    settings: FormatSettings,
) -> TagSpec {
    let en = effective_name(kind, name);
    let d = trim(description);
    if has_byte(d, 0x0Au8) {
        TagSpec {
            tag_name: at_sign() + en,
            type_str: None,
            variable: None,
            description: Seq::empty(),
            priority: priority_of(kind),
            original_index: index as usize,
            raw_lines: Some(multiline_raw(en, d, settings)),
        }
    } else {
        let parts = tag_parts(d, kind);
        TagSpec {
            tag_name: at_sign() + en,
            type_str: match parts.0 {
                Some(t) => Some(adjusted_type(t, settings)),
                None => None,
            },
            variable: parts.1,
            description: parts.2,
            priority: priority_of(kind),
            original_index: index as usize,
            raw_lines: None,
        }
    }
}

/// `@access` and `@package` tags are dropped.
pub open spec fn is_dropped_kind(kind: TagKind) -> bool {
    kind is Access || kind is Package
}

/// The tag lines of the tag elements, in source order.
pub open spec fn tag_specs(els: Seq<Element>, settings: FormatSettings) -> Seq<TagSpec>
    decreases els.len(),
{
    if els.len() == 0 {
        Seq::empty()
    } else {
        let prev = tag_specs(els.drop_last(), settings);
        match els.last() {
            Element::Tag { kind, name, description } => if is_dropped_kind(kind) {
                prev
            } else {
                prev.push(tag_line_of(kind, name@, description@, prev.len(), settings))
            },
            _ => prev,
        }
    }
}

/// The text that the scalar rewriting reads for a tag, when it runs.
pub open spec fn tag_scan_safe(kind: TagKind, description: Seq<u8>, settings: FormatSettings) -> bool {
    let d = trim(description);
    settings.phpdoc_scalar_types && !is_dropped_kind(kind) ==> if has_byte(d, 0x0Au8) {
        scalar_scan_safe(first_line(d))
    } else {
        match tag_parts(d, kind).0 {
            Some(t) => scalar_scan_safe(t),
            None => true,
        }
    }
}

/// Every tag can be rewritten without slicing inside a character.
pub open spec fn doc_scan_safe(els: Seq<Element>, settings: FormatSettings) -> bool {
    forall|i: int|
        0 <= i < els.len() ==> match #[trigger] els[i] {
            Element::Tag { kind, name, description } => tag_scan_safe(kind, description@, settings),
            _ => true,
        }
}

/// `ls` without its trailing empty lines.
pub open spec fn drop_trailing_blank(ls: Seq<Seq<u8>>) -> Seq<Seq<u8>>
    decreases ls.len(),
{
    if ls.len() > 0 && ls.last().len() == 0 {
        drop_trailing_blank(ls.drop_last())
    } else {
        ls
    }
}

/// `ls` with each run of empty lines cut down to one.
pub open spec fn collapse_blank(ls: Seq<Seq<u8>>) -> Seq<Seq<u8>>
    decreases ls.len(),
{
    if ls.len() == 0 {
        Seq::empty()
    } else {
        let prev = collapse_blank(ls.drop_last());
        if ls.last().len() > 0 || ls.len() == 1 || ls[ls.len() - 2].len() > 0 {
            prev.push(ls.last())
        } else {
            prev
        }
    }
}

/// The tags of priority `p`, in order.
pub open spec fn with_priority(tags: Seq<TagSpec>, p: u8) -> Seq<TagSpec>
    decreases tags.len(),
{
    if tags.len() == 0 {
        Seq::empty()
    } else {
        let prev = with_priority(tags.drop_last(), p);
        if tags.last().priority == p {
            prev.push(tags.last())
        } else {
            prev
        }
    }
}

/// The tags sorted by priority; tags of equal priority keep their order.
pub open spec fn sorted_tags(tags: Seq<TagSpec>) -> Seq<TagSpec> {
    with_priority(tags, 0) + with_priority(tags, 1) + with_priority(tags, 2) + with_priority(tags, 3)
}

/// The description lines written out, each after a line feed and ` * `
/// (just ` *` for an empty line).
pub open spec fn desc_block(ls: Seq<Seq<u8>>) -> Seq<u8>
    decreases ls.len(),
{
    if ls.len() == 0 {
        Seq::empty()
    } else {
        desc_block(ls.drop_last()) + if ls.last().len() == 0 {
            seq![0x0Au8, 0x20u8, 0x2Au8]
        } else {
            seq![0x0Au8, 0x20u8, 0x2Au8, 0x20u8] + ls.last()
        }
    }
}

/// The tag lines written out, each after a line feed and ` * `, with an empty
/// ` *` line where the priority changes.
pub open spec fn tag_block(ls: Seq<Seq<u8>>, tags: Seq<TagSpec>) -> Seq<u8>
    decreases ls.len(),
{
    if ls.len() == 0 {
        Seq::empty()
    } else {
        let i = ls.len() - 1;
        tag_block(ls.drop_last(), tags) + (if i > 0 && tags[i].priority != tags[i - 1].priority {
            seq![0x0Au8, 0x20u8, 0x2Au8]
        } else {
            Seq::empty()
        }) + seq![0x0Au8, 0x20u8, 0x2Au8, 0x20u8] + ls.last()
    }
}

/// The written lines of the sorted tags.
pub open spec fn tag_text_lines(tags: Seq<TagSpec>, settings: FormatSettings) -> Seq<Seq<u8>> {
    if settings.phpdoc_align is Vertical {
        aligned_lines(tags)
    } else {
        tags.map_values(|t: TagSpec| unaligned_line(t))
    }
}

/// The final description lines of a docblock.
pub open spec fn final_desc(els: Seq<Element>) -> Seq<Seq<u8>> {
    collapse_blank(drop_trailing_blank(desc_lines(els)))
}

/// The docblock has neither description nor tags to write: it is to be
/// removed.
pub open spec fn empty_doc(settings: FormatSettings, els: Seq<Element>) -> bool {
    final_desc(els).len() == 0 && sorted_tags(tag_specs(els, settings)).len() == 0
}

/// The reformatted text of a docblock with the given elements (empty for a
/// docblock that is to be removed).
pub open spec fn reformatted(settings: FormatSettings, els: Seq<Element>) -> Seq<u8> {
    let d = final_desc(els);
    let tags = sorted_tags(tag_specs(els, settings));
    if d.len() == 0 && tags.len() == 0 {
        Seq::empty()
    } else {
        doc_open() + desc_block(d) + (if d.len() > 0 && tags.len() > 0 {
            seq![0x0Au8, 0x20u8, 0x2Au8]
        } else {
            Seq::empty()
        }) + tag_block(tag_text_lines(tags, settings), tags) + seq![
            0x0Au8,
            0x20u8,
            0x2Au8,
            0x2Fu8,
        ]
    }
}

/// What reformatting gives for a comment and its parse: nothing for a
/// comment that is not a multi-line docblock, that did not parse, that holds
/// a code block, or that has neither description nor tags (it is to be
/// removed); else the reformatted text.
pub open spec fn reformat_result(
    settings: FormatSettings,
    content: Seq<u8>,
    doc: Option<Seq<Element>>,
) -> Option<Seq<u8>> {
    if !starts_with(content, doc_open()) || !has_byte(content, 0x0Au8) {
        None
    } else {
        match doc {
            None => None,
            Some(els) => if has_code(els) || empty_doc(settings, els) {
                None
            } else {
                Some(reformatted(settings, els))
            },
        }
    }
}

/// Appends the lines `src` to `dst`.
pub fn extend_lines(dst: &mut Vec<Vec<u8>>, src: Vec<Vec<u8>>)
    ensures
        views(final(dst)@) == views(old(dst)@) + views(src@),
{
    let mut src = src;
    let ghost all = views(src@);
    let mut rev: Vec<Vec<u8>> = Vec::new();
    // Move the lines out from the back, then push them back in order.
    while src.len() > 0
        invariant
            views(src@) + views(rev@).reverse() == all,
        decreases src@.len(),
    {
        let ghost s0 = src@;
        let ghost r0 = rev@;
        let x = src.pop().unwrap();
        rev.push(x);
        proof {
            lemma_views_push(r0, x);
            assert(s0 =~= src@.push(x));
            lemma_views_push(src@, x);
            assert(views(rev@).reverse() =~= seq![x@] + views(r0).reverse());
            assert(views(src@) + views(rev@).reverse() =~= views(s0) + views(r0).reverse());
        }
    }
    assert(views(src@) =~= Seq::<Seq<u8>>::empty());
    assert(views(rev@).reverse() =~= all);
    let ghost d0 = views(dst@);
    while rev.len() > 0
        invariant
            views(dst@) + views(rev@).reverse() == d0 + all,
        decreases rev@.len(),
    {
        let ghost r0 = rev@;
        let ghost dd = dst@;
        let x = rev.pop().unwrap();
        dst.push(x);
        proof {
            assert(r0 =~= rev@.push(x));
            lemma_views_push(rev@, x);
            lemma_views_push(dd, x);
            assert(views(r0).reverse() =~= seq![x@] + views(rev@).reverse());
            assert(views(dst@) + views(rev@).reverse() =~= views(dd) + views(r0).reverse());
        }
    }
    assert(views(rev@).reverse() =~= Seq::<Seq<u8>>::empty());
    assert(views(dst@) + Seq::<Seq<u8>>::empty() =~= views(dst@));
}

/// The non-blank lines of a paragraph, trimmed.
pub fn paragraph_lines(content: &[u8]) -> (r: Vec<Vec<u8>>)
    ensures
        views(r@) == nonblank_trimmed(lines(content@)),
{
    let ls = lines_of(content);
    let ghost lv = lines(content@);
    let mut r: Vec<Vec<u8>> = Vec::new();
    let mut i: usize = 0;
    while i < ls.len()
        invariant
            i <= ls@.len(),
            views(ls@) == lv,
            views(r@) == nonblank_trimmed(lv.take(i as int)),
        decreases ls@.len() - i,
    {
        let t = trim_of(ls[i].as_slice());
        assert(ls@[i as int]@ == lv[i as int]);
        assert(lv.take(i + 1).drop_last() =~= lv.take(i as int));
        if t.len() > 0 {
            let ghost r0 = r@;
            r.push(t);
            proof {
                lemma_views_push(r0, r@.last());
            }
        }
        i = i + 1;
    }
    assert(lv.take(i as int) =~= lv);
    r
}

/// The description lines of one piece of free text.
pub fn segment_desc_lines(seg: &TextSegment) -> (r: Vec<Vec<u8>>)
    ensures
        views(r@) == segment_lines(*seg),
{
    match seg {
        TextSegment::Paragraph { content } => paragraph_lines(content.as_slice()),
        TextSegment::InlineCode { content } => {
            let mut line: Vec<u8> = Vec::new();
            line.push(0x60);
            push_all(&mut line, content.as_slice());
            line.push(0x60);
            assert(line@ =~= seq![0x60u8] + content@ + seq![0x60u8]);
            let mut r: Vec<Vec<u8>> = Vec::new();
            r.push(line);
            proof {
                lemma_views_push(Seq::empty(), r@.last());
                assert(r@ =~= Seq::<Vec<u8>>::empty().push(r@.last()));
            }
            assert(views(r@) =~= seq![seq![0x60u8] + content@ + seq![0x60u8]]);
            r
        },
        TextSegment::InlineTag { name, description } => {
            let desc = trim_of(description.as_slice());
            let mut line: Vec<u8> = Vec::new();
            line.push(0x7B);
            line.push(0x40);
            push_all(&mut line, name.as_slice());
            if desc.len() > 0 {
                line.push(0x20);
                push_all(&mut line, desc.as_slice());
            }
            line.push(0x7D);
            if desc.len() > 0 {
                assert(line@ =~= seq![0x7Bu8, 0x40u8] + name@ + sp() + desc@ + seq![0x7Du8]);
            } else {
                assert(line@ =~= seq![0x7Bu8, 0x40u8] + name@ + seq![0x7Du8]);
            }
            let mut r: Vec<Vec<u8>> = Vec::new();
            r.push(line);
            proof {
                lemma_views_push(Seq::empty(), r@.last());
                assert(r@ =~= Seq::<Vec<u8>>::empty().push(r@.last()));
            }
            if desc.len() > 0 {
                assert(views(r@) =~= seq![seq![0x7Bu8, 0x40u8] + name@ + sp() + desc@ + seq![0x7Du8]]);
            } else {
                assert(views(r@) =~= seq![seq![0x7Bu8, 0x40u8] + name@ + seq![0x7Du8]]);
            }
            r
        },
    }
}

/// The description lines of a run of text pieces.
pub fn text_desc_lines(segments: &Vec<TextSegment>) -> (r: Vec<Vec<u8>>)
    ensures
        views(r@) == segments_lines(segments@),
{
    let mut r: Vec<Vec<u8>> = Vec::new();
    let mut i: usize = 0;
    while i < segments.len()
        invariant
            i <= segments@.len(),
            views(r@) == segments_lines(segments@.take(i as int)),
        decreases segments@.len() - i,
    {
        let more = segment_desc_lines(&segments[i]);
        assert(segments@.take(i + 1).drop_last() =~= segments@.take(i as int));
        extend_lines(&mut r, more);
        i = i + 1;
    }
    assert(segments@.take(i as int) =~= segments@);
    r
}

/// An annotation written on one line.
pub fn annotation_text(name: &Vec<u8>, arguments: &Option<Vec<u8>>) -> (r: Vec<u8>)
    ensures
        r@ == annotation_line(name@, opt_view(*arguments)),
{
    let mut line: Vec<u8> = Vec::new();
    line.push(0x40);
    push_all(&mut line, name.as_slice());
    match arguments {
        Some(a) => {
            line.push(0x28);
            push_all(&mut line, a.as_slice());
            line.push(0x29);
            assert(line@ =~= at_sign() + name@ + seq![0x28u8] + a@ + seq![0x29u8]);
        },
        None => {
            assert(line@ =~= at_sign() + name@);
        },
    }
    line
}

/// The name a tag is written with.
pub fn effective_tag_name(kind: TagKind, name: &Vec<u8>) -> (r: Vec<u8>)
    ensures
        r@ == effective_name(kind, name@),
{
    if kind == TagKind::Type {
        let r = vec![0x76u8, 0x61u8, 0x72u8];
        assert(r@ =~= var_word());
        return r;
    }
    let link = vec![0x6Cu8, 0x69u8, 0x6Eu8, 0x6Bu8];
    assert(link@ =~= link_word());
    if name.len() == 4 && starts_with_bytes(name.as_slice(), link.as_slice()) {
        assert(name@ =~= link_word());
        let r = vec![0x73u8, 0x65u8, 0x65u8];
        assert(r@ =~= see_word());
        return r;
    }
    proof {
        if name@ == link_word() {
            assert(name@.take(4) =~= name@);
        }
    }
    copy_range(name.as_slice(), 0, name.len())
}

/// A type as the settings want it written.
pub fn adjust_type(t: Vec<u8>, settings: &FormatSettings) -> (r: Vec<u8>)
    requires
        settings.phpdoc_scalar_types ==> scalar_scan_safe(t@),
    ensures
        r@ == adjusted_type(t@, *settings),
{
    let mut t = t;
    if settings.phpdoc_scalar_types {
        t = normalize_scalar_types(t.as_slice());
    }
    if settings.phpdoc_null_position == PhpdocNullPosition::Last {
        t = move_null_to_end(t.as_slice());
    }
    t
}

/// The tag line of a tag element.
pub fn build_tag_line(
    kind: TagKind,
    name: &Vec<u8>,
    description: &Vec<u8>,
    index: usize,
    settings: &FormatSettings,
) -> (r: TagLine)
    requires
        tag_scan_safe(kind, description@, *settings),
        !is_dropped_kind(kind),
    ensures
        r@ == tag_line_of(kind, name@, description@, index as nat, *settings),
{
    let effective = effective_tag_name(kind, name);
    let priority = tag_priority(kind);
    let desc = trim_of(description.as_slice());
    let mut tag_name: Vec<u8> = Vec::new();
    tag_name.push(0x40);
    push_all(&mut tag_name, effective.as_slice());
    assert(tag_name@ =~= at_sign() + effective@);
    if has_byte_in(desc.as_slice(), 0x0A) {
        let raw = build_multiline_tag_raw(effective.as_slice(), desc.as_slice(), settings);
        return TagLine {
            tag_name,
            type_str: None,
            variable: None,
            description: Vec::new(),
            priority,
            original_index: index,
            raw_lines: Some(raw),
        };
    }
    let (type_str, variable, rest) = parse_tag_parts(desc.as_slice(), kind);
    let type_str = match type_str {
        Some(t) => Some(adjust_type(t, settings)),
        None => None,
    };
    TagLine {
        tag_name,
        type_str,
        variable,
        description: rest,
        priority,
        original_index: index,
        raw_lines: None,
    }
}

/// A copy of `s`.
fn copy_bytes(s: &Vec<u8>) -> (r: Vec<u8>)
    ensures
        r@ == s@,
{
    let r = copy_range(s.as_slice(), 0, s.len());
    assert(r@ =~= s@);
    r
}

/// A copy of an optional byte vector.
fn copy_opt(o: &Option<Vec<u8>>) -> (r: Option<Vec<u8>>)
    ensures
        opt_view(r) == opt_view(*o),
{
    match o {
        Some(v) => Some(copy_bytes(v)),
        None => None,
    }
}

/// A copy of a vector of lines.
fn copy_lines(ls: &Vec<Vec<u8>>) -> (r: Vec<Vec<u8>>)
    ensures
        views(r@) == views(ls@),
{
    let mut r: Vec<Vec<u8>> = Vec::new();
    let mut i: usize = 0;
    while i < ls.len()
        invariant
            i <= ls@.len(),
            views(r@) == views(ls@).take(i as int),
        decreases ls@.len() - i,
    {
        let ghost r0 = r@;
        r.push(copy_bytes(&ls[i]));
        proof {
            lemma_views_push(r0, r@.last());
            assert(views(ls@).take(i + 1) =~= views(ls@).take(i as int).push(ls@[i as int]@));
        }
        i = i + 1;
    }
    assert(views(ls@).take(i as int) =~= views(ls@));
    r
}

/// A copy of a tag line.
fn copy_tag(t: &TagLine) -> (r: TagLine)
    ensures
        r@ == t@,
{
    TagLine {
        tag_name: copy_bytes(&t.tag_name),
        type_str: copy_opt(&t.type_str),
        variable: copy_opt(&t.variable),
        description: copy_bytes(&t.description),
        priority: t.priority,
        original_index: t.original_index,
        raw_lines: match &t.raw_lines {
            Some(raw) => Some(copy_lines(raw)),
            None => None,
        },
    }
}

/// The tags of priorities below `n`, bucket by bucket.
pub open spec fn buckets(tags: Seq<TagSpec>, n: nat) -> Seq<TagSpec>
    decreases n,
{
    if n == 0 {
        Seq::empty()
    } else {
        buckets(tags, (n - 1) as nat) + with_priority(tags, (n - 1) as u8)
    }
}

proof fn lemma_tag_views_push(v: Seq<TagLine>, x: TagLine)
    ensures
        tag_views(v.push(x)) == tag_views(v).push(x@),
{
    assert(tag_views(v.push(x)) =~= tag_views(v).push(x@));
}

/// The tag lines sorted by priority, keeping the order of equal priorities.
pub fn sort_tags(tags: &Vec<TagLine>) -> (r: Vec<TagLine>)
    ensures
        tag_views(r@) == sorted_tags(tag_views(tags@)),
{
    let ghost tv = tag_views(tags@);
    let mut r: Vec<TagLine> = Vec::new();
    let mut p: u8 = 0;
    while p < 4
        invariant
            p <= 4,
            tv == tag_views(tags@),
            tag_views(r@) == buckets(tv, p as nat),
        decreases 4 - p,
    {
        let mut i: usize = 0;
        let ghost before = tag_views(r@);
        while i < tags.len()
            invariant
                i <= tags@.len(),
                p < 4,
                tv == tag_views(tags@),
                before == buckets(tv, p as nat),
                tag_views(r@) == before + with_priority(tv.take(i as int), p),
            decreases tags@.len() - i,
        {
            assert(tv.take(i + 1).drop_last() =~= tv.take(i as int));
            assert(tv.take(i + 1).last() == tags@[i as int]@);
            if tags[i].priority == p {
                let ghost r0 = r@;
                r.push(copy_tag(&tags[i]));
                proof {
                    lemma_tag_views_push(r0, r@.last());
                }
            }
            i = i + 1;
        }
        assert(tv.take(i as int) =~= tv);
        p = p + 1;
    }
    assert(buckets(tv, 4) =~= sorted_tags(tv)) by {
        reveal_with_fuel(buckets, 5);
    }
    r
}

/// The description lines without their trailing empty lines.
fn drop_trailing_blank_lines(ls: &mut Vec<Vec<u8>>)
    ensures
        views(final(ls)@) == drop_trailing_blank(views(old(ls)@)),
{
    while ls.len() > 0 && ls[ls.len() - 1].len() == 0
        invariant
            drop_trailing_blank(views(ls@)) == drop_trailing_blank(views(old(ls)@)),
        decreases ls@.len(),
    {
        let ghost l0 = ls@;
        let _ = ls.pop();
        proof {
            assert(views(l0).drop_last() =~= views(ls@));
        }
    }
}

/// The description lines with each run of empty lines cut to one.
fn collapse_blank_lines(ls: &Vec<Vec<u8>>) -> (r: Vec<Vec<u8>>)
    ensures
        views(r@) == collapse_blank(views(ls@)),
{
    let ghost lv = views(ls@);
    let mut r: Vec<Vec<u8>> = Vec::new();
    let mut prev_blank = false;
    let mut i: usize = 0;
    while i < ls.len()
        invariant
            i <= ls@.len(),
            lv == views(ls@),
            prev_blank == (i > 0 && lv[i - 1].len() == 0),
            views(r@) == collapse_blank(lv.take(i as int)),
        decreases ls@.len() - i,
    {
        assert(lv.take(i + 1).drop_last() =~= lv.take(i as int));
        assert(lv[i as int] == ls@[i as int]@);
        if i > 0 {
            assert(lv.take(i + 1)[i - 1] == lv[i - 1]);
        }
        if ls[i].len() == 0 {
            if !prev_blank {
                let ghost r0 = r@;
                r.push(Vec::new());
                proof {
                    lemma_views_push(r0, r@.last());
                    assert(r@.last()@ =~= lv[i as int]);
                }
            }
            prev_blank = true;
        } else {
            let ghost r0 = r@;
            r.push(copy_bytes(&ls[i]));
            proof {
                lemma_views_push(r0, r@.last());
            }
            prev_blank = false;
        }
        i = i + 1;
    }
    assert(lv.take(i as int) =~= lv);
    r
}

/// Aligned lines come one per tag.
pub proof fn lemma_aligned_from_len(tags: Seq<TagSpec>, start: int)
    requires
        0 <= start <= tags.len(),
    ensures
        aligned_from(tags, start).len() == tags.len() - start,
    decreases tags.len() - start,
{
    if start < tags.len() {
        lemma_run_end(tags, start, start + 1);
        let e = run_end(tags, start, start + 1);
        lemma_aligned_from_len(tags, e);
    }
}

/// Whether the scalar rewriting can read the type of a tag without slicing
/// inside a character.
pub fn tag_scan_is_safe(kind: TagKind, description: &Vec<u8>, settings: &FormatSettings) -> (r:
    bool)
    ensures
        r == tag_scan_safe(kind, description@, *settings),
{
    if !settings.phpdoc_scalar_types || kind == TagKind::Access || kind == TagKind::Package {
        return true;
    }
    let d = trim_of(description.as_slice());
    match find_byte(d.as_slice(), 0x0A) {
        Some(i) => {
            proof {
                crate::text::lemma_has_byte_index(d@, 0x0Au8);
            }
            let first = copy_range(d.as_slice(), 0, i);
            assert(first@ =~= first_line(d@));
            is_scalar_scan_safe(first.as_slice())
        },
        None => {
            let (t, _, _) = parse_tag_parts(d.as_slice(), kind);
            match t {
                Some(t) => is_scalar_scan_safe(t.as_slice()),
                None => true,
            }
        },
    }
}

/// Whether every tag of a parsed docblock can be rewritten without slicing
/// inside a character; reformatting asks this of what it is given.
pub fn docblock_scan_is_safe(settings: &FormatSettings, parsed: &Document) -> (r: bool)
    ensures
        r == doc_scan_safe(parsed.elements@, *settings),
{
    let els = &parsed.elements;
    let mut i: usize = 0;
    while i < els.len()
        invariant
            i <= els@.len(),
            els@ == parsed.elements@,
            forall|j: int|
                0 <= j < i ==> match #[trigger] els@[j] {
                    Element::Tag { kind, name, description } => tag_scan_safe(
                        kind,
                        description@,
                        *settings,
                    ),
                    _ => true,
                },
        decreases els@.len() - i,
    {
        if let Element::Tag { kind, name: _, description } = &els[i] {
            if !tag_scan_is_safe(*kind, description, settings) {
                return false;
            }
        }
        i = i + 1;
    }
    true
}

/// Some element of `els` is a code block.
fn any_code(els: &Vec<Element>) -> (r: bool)
    ensures
        r == has_code(els@),
{
    let mut i: usize = 0;
    while i < els.len()
        invariant
            i <= els@.len(),
            forall|j: int| 0 <= j < i ==> !(els@[j] is Code),
        decreases els@.len() - i,
    {
        if let Element::Code { .. } = &els[i] {
            return true;
        }
        i = i + 1;
    }
    false
}

/// The elements of a parsed docblock, if it parsed.
pub open spec fn parsed_elements(parsed: Option<&Document>) -> Option<Seq<Element>> {
    match parsed {
        Some(d) => Some(d.elements@),
        None => None,
    }
}

/// Writes the description and tag lines into the final docblock text.
fn assemble(desc: &Vec<Vec<u8>>, tags: &Vec<TagLine>, settings: &FormatSettings) -> (r: Vec<u8>)
    ensures
        r@ == doc_open() + desc_block(views(desc@)) + (if desc@.len() > 0 && tags@.len() > 0 {
            seq![0x0Au8, 0x20u8, 0x2Au8]
        } else {
            Seq::empty()
        }) + tag_block(tag_text_lines(tag_views(tags@), *settings), tag_views(tags@)) + seq![
            0x0Au8,
            0x20u8,
            0x2Au8,
            0x2Fu8,
        ],
{
    let ghost dv = views(desc@);
    let ghost tv = tag_views(tags@);
    let mut output: Vec<u8> = Vec::new();
    output.push(0x2F);
    output.push(0x2A);
    output.push(0x2A);
    assert(output@ =~= doc_open() + desc_block(dv.take(0)));
    let mut i: usize = 0;
    while i < desc.len()
        invariant
            i <= desc@.len(),
            dv == views(desc@),
            output@ == doc_open() + desc_block(dv.take(i as int)),
        decreases desc@.len() - i,
    {
        let ghost o0 = output@;
        assert(dv.take(i + 1).drop_last() =~= dv.take(i as int));
        assert(dv.take(i + 1).last() == desc@[i as int]@);
        output.push(0x0A);
        output.push(0x20);
        output.push(0x2A);
        if desc[i].len() == 0 {
            assert(output@ =~= o0 + seq![0x0Au8, 0x20u8, 0x2Au8]);
        } else {
            output.push(0x20);
            push_all(&mut output, desc[i].as_slice());
            assert(output@ =~= o0 + (seq![0x0Au8, 0x20u8, 0x2Au8, 0x20u8] + desc@[i as int]@));
        }
        i = i + 1;
    }
    assert(dv.take(i as int) =~= dv);
    let ghost o1 = output@;
    if desc.len() > 0 && tags.len() > 0 {
        output.push(0x0A);
        output.push(0x20);
        output.push(0x2A);
        assert(output@ =~= o1 + seq![0x0Au8, 0x20u8, 0x2Au8]);
    } else {
        assert(output@ =~= o1 + Seq::<u8>::empty());
    }
    let ghost o2 = output@;
    let formatted = if settings.phpdoc_align == PhpdocAlign::Vertical {
        format_tags_aligned(tags.as_slice())
    } else {
        format_tags_unaligned(tags.as_slice())
    };
    let ghost fl = tag_text_lines(tv, *settings);
    assert(views(formatted@) == fl);
    proof {
        lemma_aligned_from_len(tv, 0);
    }
    assert(fl.len() == tv.len());
    assert(o2 =~= o2 + tag_block(fl.take(0), tv));
    let mut k: usize = 0;
    while k < formatted.len()
        invariant
            k <= formatted@.len(),
            views(formatted@) == fl,
            fl.len() == tv.len(),
            tv == tag_views(tags@),
            output@ == o2 + tag_block(fl.take(k as int), tv),
        decreases formatted@.len() - k,
    {
        let ghost o3 = output@;
        assert(fl.take(k + 1).drop_last() =~= fl.take(k as int));
        assert(fl.take(k + 1).last() == formatted@[k as int]@);
        if k > 0 && tags[k].priority != tags[k - 1].priority {
            output.push(0x0A);
            output.push(0x20);
            output.push(0x2A);
        }
        let ghost o4 = output@;
        output.push(0x0A);
        output.push(0x20);
        output.push(0x2A);
        output.push(0x20);
        push_all(&mut output, formatted[k].as_slice());
        assert(output@ =~= o4 + (seq![0x0Au8, 0x20u8, 0x2Au8, 0x20u8] + formatted@[k as int]@));
        assert(tv[k as int].priority == tags@[k as int].priority);
        if k > 0 {
            assert(tv[k - 1].priority == tags@[k - 1].priority);
        }
        k = k + 1;
    }
    assert(fl.take(k as int) =~= fl);
    let ghost o5 = output@;
    output.push(0x0A);
    output.push(0x20);
    output.push(0x2A);
    output.push(0x2F);
    assert(output@ =~= o5 + seq![0x0Au8, 0x20u8, 0x2Au8, 0x2Fu8]);
    output
}

/// Whether `content` starts with `/**`.
fn opens_docblock(content: &[u8]) -> (r: bool)
    ensures
        r == starts_with(content@, doc_open()),
{
    let open = vec![0x2Fu8, 0x2Au8, 0x2Au8];
    assert(open@ =~= doc_open());
    starts_with_bytes(content, open.as_slice())
}

/// Reformats a docblock comment `content` whose parse is `parsed` (none when
/// it did not parse).
///
/// Gives nothing when the comment is not a multi-line docblock, did not
/// parse, holds a code block, or has neither description nor tags (an empty
/// docblock, which is to be removed). Else gives the reformatted docblock: the description lines (trimmed,
/// without trailing blank lines and with runs of blank lines cut to one),
/// then the tags sorted by kind (`@param`, `@return`, `@throws`, others, in
/// source order within each kind) with a blank line between kinds;
/// `@access` and `@package` tags are dropped, `@type` is written `@var` and
/// `@link` `@see`.
pub fn reformat_docblock(settings: &FormatSettings, content: &[u8], parsed: Option<&Document>) -> (r:
    Option<Vec<u8>>)
    requires
        starts_with(content@, doc_open()) && has_byte(content@, 0x0Au8) && parsed is Some
            && !has_code(parsed->0.elements@) ==> doc_scan_safe(parsed->0.elements@, *settings),
    ensures
        match (r, reformat_result(*settings, content@, parsed_elements(parsed))) {
            (Some(a), Some(b)) => a@ == b,
            (None, None) => true,
            _ => false,
        },
{
    if !opens_docblock(content) || !has_byte_in(content, 0x0A) {
        return None;
    }
    let doc = match parsed {
        Some(d) => d,
        None => {
            return None;
        },
    };
    let els = &doc.elements;
    if any_code(els) {
        return None;
    }
    let ghost ev = els@;
    let mut description_lines: Vec<Vec<u8>> = Vec::new();
    let mut tag_lines: Vec<TagLine> = Vec::new();
    let mut seen_tag = false;
    let mut k: usize = 0;
    while k < els.len()
        invariant
            k <= ev.len(),
            ev == els@,
            doc_scan_safe(ev, *settings),
            views(description_lines@) == desc_lines(ev.take(k as int)),
            tag_views(tag_lines@) == tag_specs(ev.take(k as int), *settings),
            seen_tag == has_tag(ev.take(k as int)),
        decreases ev.len() - k,
    {
        let ghost pre = ev.take(k as int);
        assert(ev.take(k + 1).drop_last() =~= pre);
        assert(ev.take(k + 1).last() == ev[k as int]);
        let ghost is_tag = ev[k as int] is Tag;
        assert(has_tag(ev.take(k + 1)) == (has_tag(pre) || is_tag)) by {
            if has_tag(ev.take(k + 1)) {
                let j = choose|j: int| 0 <= j < k + 1 && (#[trigger] ev.take(k + 1)[j]) is Tag;
                if j < k {
                    assert(pre[j] == ev.take(k + 1)[j]);
                }
            }
            if has_tag(pre) {
                let j = choose|j: int| 0 <= j < k && (#[trigger] pre[j]) is Tag;
                assert(pre[j] == ev.take(k + 1)[j]);
            }
            if is_tag {
                assert(ev.take(k + 1)[k as int] is Tag);
            }
        }
        match &els[k] {
            Element::Text { segments } => {
                if !seen_tag {
                    let more = text_desc_lines(segments);
                    extend_lines(&mut description_lines, more);
                }
            },
            Element::Code { .. } => {},
            Element::Tag { kind, name, description } => {
                seen_tag = true;
                let kind = *kind;
                if !(kind == TagKind::Access || kind == TagKind::Package) {
                    assert(tag_scan_safe(kind, description@, *settings)) by {
                        assert(match ev[k as int] {
                            Element::Tag { kind, name, description } => tag_scan_safe(
                                kind,
                                description@,
                                *settings,
                            ),
                            _ => true,
                        });
                    }
                    let tag_index = tag_lines.len();
                    let line = build_tag_line(kind, name, description, tag_index, settings);
                    let ghost t0 = tag_lines@;
                    tag_lines.push(line);
                    proof {
                        lemma_tag_views_push(t0, tag_lines@.last());
                    }
                }
            },
            Element::Line => {
                if !seen_tag {
                    if description_lines.len() > 0 {
                        let ghost d0 = description_lines@;
                        description_lines.push(Vec::new());
                        proof {
                            lemma_views_push(d0, description_lines@.last());
                            assert(description_lines@.last()@ =~= Seq::<u8>::empty());
                        }
                    }
                }
            },
            Element::Annotation { name, arguments } => {
                if !seen_tag {
                    let line = annotation_text(name, arguments);
                    let ghost d0 = description_lines@;
                    description_lines.push(line);
                    proof {
                        lemma_views_push(d0, description_lines@.last());
                    }
                }
            },
        }
        k = k + 1;
    }
    assert(ev.take(k as int) =~= ev);
    drop_trailing_blank_lines(&mut description_lines);
    let description_lines = collapse_blank_lines(&description_lines);
    let sorted = sort_tags(&tag_lines);
    proof {
        let tv = tag_views(tag_lines@);
        assert(tag_views(sorted@).len() == sorted@.len());
    }
    if description_lines.len() == 0 && sorted.len() == 0 {
        return None;
    }
    Some(assemble(&description_lines, &sorted, settings))
}

} // verus!
