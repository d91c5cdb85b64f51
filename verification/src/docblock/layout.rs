//! Writing tag lines out, with or without vertical alignment of their columns.
use vstd::prelude::*;

use crate::docblock::model::{tag_views, FormatSettings, PhpdocNullPosition, TagLine, TagSpec};
use crate::docblock::types::{
    move_null_to_end, normalize_scalar_types, normalized, null_last, scalar_scan_safe,
};
use crate::docblock::properties::{gap_join, lemma_aligned_keeps_fields, tag_fields};
use crate::text::{
    copy_range, find_byte, first_index_of, join, join_with, lemma_views_push, lines, lines_of,
    push_all, trim, trim_end, trim_end_of, trim_of, views, ws_suffix_len,
};

verus! {

/// ` `.
pub open spec fn sp() -> Seq<u8> {
    seq![0x20u8]
}

/// `@`.
pub open spec fn at_sign() -> Seq<u8> {
    seq![0x40u8]
}

/// What joins the lines of a multi-line tag: a line feed and the ` * ` prefix.
pub open spec fn raw_joint() -> Seq<u8> {
    seq![0x0Au8, 0x20u8, 0x2Au8, 0x20u8]
}

/// `n` spaces.
pub open spec fn spaces(n: nat) -> Seq<u8> {
    Seq::new(n, |i: int| 0x20u8)
}

/// A space and `o`, or nothing.
pub open spec fn spaced(o: Option<Seq<u8>>) -> Seq<u8> {
    match o {
        Some(t) => sp() + t,
        None => Seq::empty(),
    }
}

/// The length of `o`, 0 for none.
pub open spec fn opt_len(o: Option<Seq<u8>>) -> nat {
    match o {
        Some(t) => t.len(),
        None => 0,
    }
}

/// A tag line written with single spaces between its columns.
pub open spec fn unaligned_line(t: TagSpec) -> Seq<u8> {
    match t.raw_lines {
        Some(raw) => join(raw, raw_joint()),
        None => t.tag_name + spaced(t.type_str) + spaced(t.variable) + if t.description.len() > 0 {
            sp() + t.description
        } else {
            Seq::empty()
        },
    }
}

/// A tag line takes part in alignment unless it spans several lines.
pub open spec fn alignable(t: TagSpec) -> bool {
    t.raw_lines is None
}

/// Widest tag name among the aligned tags of `g`.
pub open spec fn max_name(g: Seq<TagSpec>) -> nat
    decreases g.len(),
{
    if g.len() == 0 {
        0
    } else {
        let m = max_name(g.drop_last());
        if alignable(g.last()) && g.last().tag_name.len() > m {
            g.last().tag_name.len()
        } else {
            m
        }
    }
}

/// Widest type among the aligned tags of `g`.
pub open spec fn max_type(g: Seq<TagSpec>) -> nat
    decreases g.len(),
{
    if g.len() == 0 {
        0
    } else {
        let m = max_type(g.drop_last());
        if alignable(g.last()) && opt_len(g.last().type_str) > m {
            opt_len(g.last().type_str)
        } else {
            m
        }
    }
}

/// Widest variable among the aligned tags of `g`.
pub open spec fn max_var(g: Seq<TagSpec>) -> nat
    decreases g.len(),
{
    if g.len() == 0 {
        0
    } else {
        let m = max_var(g.drop_last());
        if alignable(g.last()) && opt_len(g.last().variable) > m {
            opt_len(g.last().variable)
        } else {
            m
        }
    }
}

/// Some aligned tag of `g` has a type.
pub open spec fn any_type(g: Seq<TagSpec>) -> bool
    decreases g.len(),
{
    g.len() > 0 && (any_type(g.drop_last()) || (alignable(g.last()) && g.last().type_str is Some))
}

/// Some aligned tag of `g` has a variable.
pub open spec fn any_var(g: Seq<TagSpec>) -> bool
    decreases g.len(),
{
    g.len() > 0 && (any_var(g.drop_last()) || (alignable(g.last()) && g.last().variable is Some))
}

/// The column metrics of a group of tags.
pub struct Metrics {
    pub name: nat,
    pub ty: nat,
    pub var: nat,
    pub has_types: bool,
    pub has_vars: bool,
}

pub open spec fn metrics(g: Seq<TagSpec>) -> Metrics {
    Metrics {
        name: max_name(g),
        ty: max_type(g),
        var: max_var(g),
        has_types: any_type(g),
        has_vars: any_var(g),
    }
}

/// The padding after a tag name up to the widest tag name of its group.
pub open spec fn name_padding(t: TagSpec, m: Metrics) -> Seq<u8> {
    spaces((m.name - t.tag_name.len()) as nat)
}

/// The type column of an aligned line: a space and the type, padded to the
/// widest type when more columns follow.
pub open spec fn type_column(t: TagSpec, m: Metrics) -> Seq<u8> {
    let more = m.has_vars || t.description.len() > 0;
    if m.has_types {
        sp() + match t.type_str {
            Some(ty) => ty + if more {
                spaces((m.ty - ty.len()) as nat)
            } else {
                Seq::empty()
            },
            None => if more {
                spaces(m.ty)
            } else {
                Seq::empty()
            },
        }
    } else {
        Seq::empty()
    }
}

/// The variable column of an aligned line: the variable, padded to the
/// widest variable when a description follows.
pub open spec fn var_column(t: TagSpec, m: Metrics) -> Seq<u8> {
    let more = t.description.len() > 0;
    if m.has_vars {
        sp() + match t.variable {
            Some(v) => v + if more {
                spaces((m.var - v.len()) as nat)
            } else {
                Seq::empty()
            },
            None => if more {
                spaces(m.var)
            } else {
                Seq::empty()
            },
        }
    } else {
        Seq::empty()
    }
}

/// An aligned line before trailing white space is dropped: the tag name
/// padded to the widest one, then the type, variable and description
/// columns.
pub open spec fn aligned_core(t: TagSpec, m: Metrics) -> Seq<u8> {
    t.tag_name + name_padding(t, m) + type_column(t, m) + var_column(t, m) + if t.description.len()
        > 0 {
        sp() + t.description
    } else {
        Seq::empty()
    }
}

/// A tag line written with the column metrics of its group.
pub open spec fn aligned_line(t: TagSpec, m: Metrics) -> Seq<u8> {
    match t.raw_lines {
        Some(raw) => join(raw, raw_joint()),
        None => trim_end(aligned_core(t, m)),
    }
}

/// The end of the run of tags with the priority of `tags[start]`, searching
/// from `j`.
pub open spec fn run_end(tags: Seq<TagSpec>, start: int, j: int) -> int
    decreases tags.len() - j,
{
    if 0 <= start && 0 <= j < tags.len() && tags[j].priority == tags[start].priority {
        run_end(tags, start, j + 1)
    } else {
        j
    }
}

/// A run ends within the tags, after where it is searched from.
pub proof fn lemma_run_end(tags: Seq<TagSpec>, start: int, j: int)
    requires
        0 <= start < j <= tags.len(),
    ensures
        j <= run_end(tags, start, j) <= tags.len(),
        forall|k: int| j <= k < run_end(tags, start, j) ==> tags[k].priority == tags[start].priority,
        run_end(tags, start, j) < tags.len() ==> tags[run_end(tags, start, j)].priority
            != tags[start].priority,
    decreases tags.len() - j,
{
    if j < tags.len() && tags[j].priority == tags[start].priority {
        lemma_run_end(tags, start, j + 1);
    }
}

/// The lines of one group, each aligned with the metrics of the group.
pub open spec fn aligned_group(g: Seq<TagSpec>) -> Seq<Seq<u8>> {
    g.map_values(|t: TagSpec| aligned_line(t, metrics(g)))
}

/// The aligned lines of `tags[start..]`, group by group; a group is a
/// maximal run of tags with the same priority.
pub open spec fn aligned_from(tags: Seq<TagSpec>, start: int) -> Seq<Seq<u8>>
    decreases tags.len() - start,
{
    if start < 0 || start >= tags.len() {
        Seq::empty()
    } else {
        let e = run_end(tags, start, start + 1);
        proof {
            lemma_run_end(tags, start, start + 1);
        }
        if e <= start {
            Seq::empty()
        } else {
            aligned_group(tags.subrange(start, e)) + aligned_from(tags, e)
        }
    }
}

/// All tag lines written with vertical alignment within each group.
pub open spec fn aligned_lines(tags: Seq<TagSpec>) -> Seq<Seq<u8>> {
    aligned_from(tags, 0)
}

/// The lines of a tag whose description spans several lines: the tag and the
/// (rewritten) first line, then each further line indented by two spaces, or
/// empty where it is blank.
pub open spec fn multiline_raw(name: Seq<u8>, desc: Seq<u8>, settings: FormatSettings) -> Seq<
    Seq<u8>,
> {
    let first = first_line(desc);
    let rest = after_first_line(desc);
    let f1 = if settings.phpdoc_scalar_types {
        normalized(first)
    } else {
        first
    };
    let f2 = if settings.phpdoc_null_position is Last {
        null_last(f1)
    } else {
        f1
    };
    seq![at_sign() + name + sp() + trim(f2)] + lines(rest).map_values(
        |l: Seq<u8>| continuation_line(l),
    )
}

/// The text before the first line feed (all of it if there is none).
pub open spec fn first_line(desc: Seq<u8>) -> Seq<u8> {
    match first_index_of(desc, 0x0Au8) {
        Some(i) => desc.take(i),
        None => desc,
    }
}

/// The text after the first line feed (nothing if there is none).
pub open spec fn after_first_line(desc: Seq<u8>) -> Seq<u8> {
    match first_index_of(desc, 0x0Au8) {
        Some(i) => desc.skip(i + 1),
        None => Seq::empty(),
    }
}

/// A further line of a multi-line tag.
pub open spec fn continuation_line(l: Seq<u8>) -> Seq<u8> {
    if trim(l).len() == 0 {
        Seq::empty()
    } else {
        seq![0x20u8, 0x20u8] + trim(l)
    }
}

/// Every aligned member of a group fits in the widest columns.
pub proof fn lemma_metrics_bound(g: Seq<TagSpec>, i: int)
    requires
        0 <= i < g.len(),
        alignable(g[i]),
    ensures
        g[i].tag_name.len() <= max_name(g),
        opt_len(g[i].type_str) <= max_type(g),
        opt_len(g[i].variable) <= max_var(g),
        g[i].type_str is Some ==> any_type(g),
        g[i].variable is Some ==> any_var(g),
    decreases g.len(),
{
    if i < g.len() - 1 {
        lemma_metrics_bound(g.drop_last(), i);
        assert(g.drop_last()[i] == g[i]);
    }
}

/// Writes the tag lines with single spaces between columns.
pub fn format_tags_unaligned(tags: &[TagLine]) -> (r: Vec<Vec<u8>>)
    ensures
        views(r@) == tag_views(tags@).map_values(|t: TagSpec| unaligned_line(t)),
{
    let mut r: Vec<Vec<u8>> = Vec::new();
    let mut i: usize = 0;
    let ghost tv = tag_views(tags@);
    while i < tags.len()
        invariant
            i <= tags@.len(),
            tv == tag_views(tags@),
            views(r@) == tv.take(i as int).map_values(|t: TagSpec| unaligned_line(t)),
        decreases tags@.len() - i,
    {
        let line = unaligned_tag_line(&tags[i]);
        let ghost old_r = r@;
        r.push(line);
        proof {
            lemma_views_push(old_r, r@.last());
            assert(tv.take(i + 1).map_values(|t: TagSpec| unaligned_line(t)) =~= tv.take(
                i as int,
            ).map_values(|t: TagSpec| unaligned_line(t)).push(unaligned_line(tv[i as int])));
        }
        i = i + 1;
    }
    assert(tv.take(i as int) =~= tv);
    r
}

/// `" * "`-joined lines of a multi-line tag.
fn raw_text(raw: &Vec<Vec<u8>>) -> (r: Vec<u8>)
    ensures
        r@ == join(views(raw@), raw_joint()),
{
    let joint = vec![0x0Au8, 0x20u8, 0x2Au8, 0x20u8];
    assert(joint@ =~= raw_joint());
    join_with(raw, joint.as_slice())
}

/// One tag line with single spaces between columns.
fn unaligned_tag_line(tag: &TagLine) -> (r: Vec<u8>)
    ensures
        r@ == unaligned_line(tag@),
{
    if let Some(raw) = &tag.raw_lines {
        return raw_text(raw);
    }
    let mut line = copy_range(tag.tag_name.as_slice(), 0, tag.tag_name.len());
    assert(line@ =~= tag.tag_name@);
    let ghost l0 = line@;
    if let Some(t) = &tag.type_str {
        line.push(0x20);
        push_all(&mut line, t.as_slice());
    }
    assert(line@ =~= l0 + spaced(tag@.type_str));
    let ghost l1 = line@;
    if let Some(v) = &tag.variable {
        line.push(0x20);
        push_all(&mut line, v.as_slice());
    }
    assert(line@ =~= l1 + spaced(tag@.variable));
    let ghost l2 = line@;
    if tag.description.len() > 0 {
        line.push(0x20);
        push_all(&mut line, tag.description.as_slice());
        assert(line@ =~= l2 + (sp() + tag@.description));
    } else {
        assert(line@ =~= l2 + Seq::<u8>::empty());
    }
    line
}

/// Appends `n` spaces.
fn push_spaces(line: &mut Vec<u8>, n: usize)
    ensures
        final(line)@ == old(line)@ + spaces(n as nat),
{
    let mut k: usize = 0;
    while k < n
        invariant
            k <= n,
            line@ == old(line)@ + spaces(k as nat),
        decreases n - k,
    {
        line.push(0x20);
        k = k + 1;
        assert(spaces(k as nat) =~= spaces((k - 1) as nat).push(0x20u8));
    }
}

/// The column metrics of `tags[lo..hi]`.
fn group_metrics(tags: &[TagLine], lo: usize, hi: usize) -> (r: (usize, usize, usize, bool, bool))
    requires
        lo <= hi <= tags@.len(),
    ensures
        ({
            let m = metrics(tag_views(tags@).subrange(lo as int, hi as int));
            r.0 == m.name && r.1 == m.ty && r.2 == m.var && r.3 == m.has_types && r.4
                == m.has_vars
        }),
{
    let ghost tv = tag_views(tags@);
    let mut mn: usize = 0;
    let mut mt: usize = 0;
    let mut mv: usize = 0;
    let mut ht = false;
    let mut hv = false;
    let mut k: usize = lo;
    while k < hi
        invariant
            lo <= k <= hi <= tags@.len(),
            tv == tag_views(tags@),
            ({
                let g = tv.subrange(lo as int, k as int);
                mn == max_name(g) && mt == max_type(g) && mv == max_var(g) && ht == any_type(g)
                    && hv == any_var(g)
            }),
        decreases hi - k,
    {
        let t = &tags[k];
        let ghost g1 = tv.subrange(lo as int, k + 1);
        assert(g1.drop_last() =~= tv.subrange(lo as int, k as int));
        assert(g1.last() == t@);
        if t.raw_lines.is_none() {
            if t.tag_name.len() > mn {
                mn = t.tag_name.len();
            }
            match &t.type_str {
                Some(ty) => {
                    if ty.len() > mt {
                        mt = ty.len();
                    }
                    ht = true;
                },
                None => {},
            }
            match &t.variable {
                Some(v) => {
                    if v.len() > mv {
                        mv = v.len();
                    }
                    hv = true;
                },
                None => {},
            }
        }
        k = k + 1;
    }
    (mn, mt, mv, ht, hv)
}

/// One tag line aligned with the given column metrics.
fn aligned_tag_line(
    tag: &TagLine,
    mn: usize,
    mt: usize,
    mv: usize,
    ht: bool,
    hv: bool,
) -> (r: Vec<u8>)
    requires
        alignable(tag@) ==> tag@.tag_name.len() <= mn && opt_len(tag@.type_str) <= mt && opt_len(
            tag@.variable,
        ) <= mv,
    ensures
        r@ == aligned_line(
            tag@,
            Metrics { name: mn as nat, ty: mt as nat, var: mv as nat, has_types: ht, has_vars: hv },
        ),
{
    let ghost m = Metrics {
        name: mn as nat,
        ty: mt as nat,
        var: mv as nat,
        has_types: ht,
        has_vars: hv,
    };
    if let Some(raw) = &tag.raw_lines {
        return raw_text(raw);
    }
    let has_desc = tag.description.len() > 0;
    let mut line = copy_range(tag.tag_name.as_slice(), 0, tag.tag_name.len());
    assert(line@ =~= tag.tag_name@);
    push_spaces(&mut line, mn - tag.tag_name.len());
    assert(line@ =~= tag@.tag_name + name_padding(tag@, m));
    let ghost l0 = line@;
    if ht {
        line.push(0x20);
        let ghost l0s = line@;
        match &tag.type_str {
            Some(t) => {
                push_all(&mut line, t.as_slice());
                if hv || has_desc {
                    let type_padding = mt - t.len();
                    push_spaces(&mut line, type_padding);
                } else {
                    assert(line@ =~= line@ + Seq::<u8>::empty());
                }
            },
            None => {
                if hv || has_desc {
                    push_spaces(&mut line, mt);
                } else {
                    assert(line@ =~= line@ + Seq::<u8>::empty());
                }
            },
        }
        assert(line@ =~= l0 + type_column(tag@, m));
    } else {
        assert(line@ =~= l0 + type_column(tag@, m));
    }
    let ghost l1 = line@;
    if hv {
        line.push(0x20);
        match &tag.variable {
            Some(v) => {
                push_all(&mut line, v.as_slice());
                if has_desc {
                    let var_padding = mv - v.len();
                    push_spaces(&mut line, var_padding);
                } else {
                    assert(line@ =~= line@ + Seq::<u8>::empty());
                }
            },
            None => {
                if has_desc {
                    push_spaces(&mut line, mv);
                } else {
                    assert(line@ =~= line@ + Seq::<u8>::empty());
                }
            },
        }
        assert(line@ =~= l1 + var_column(tag@, m));
    } else {
        assert(line@ =~= l1 + var_column(tag@, m));
    }
    let ghost l2 = line@;
    if has_desc {
        line.push(0x20);
        push_all(&mut line, tag.description.as_slice());
        assert(line@ =~= l2 + (sp() + tag@.description));
    } else {
        assert(line@ =~= l2 + Seq::<u8>::empty());
    }
    assert(line@ == aligned_core(tag@, m));
    trim_end_of(line.as_slice())
}

/// Writes the tag lines with the type, variable and description columns of
/// each group of equal priority vertically aligned.
pub fn format_tags_aligned(tags: &[TagLine]) -> (r: Vec<Vec<u8>>)
    ensures
        views(r@) == aligned_lines(tag_views(tags@)),
{
    let ghost tv = tag_views(tags@);
    let n = tags.len();
    let mut result: Vec<Vec<u8>> = Vec::new();
    let mut group_start: usize = 0;
    while group_start < n
        invariant
            n == tags@.len(),
            tv == tag_views(tags@),
            group_start <= n,
            views(result@) + aligned_from(tv, group_start as int) == aligned_lines(tv),
        decreases n - group_start,
    {
        let group_priority = tags[group_start].priority;
        let mut group_end = group_start + 1;
        while group_end < n && tags[group_end].priority == group_priority
            invariant
                n == tags@.len(),
                tv == tag_views(tags@),
                group_start < group_end <= n,
                group_priority == tv[group_start as int].priority,
                run_end(tv, group_start as int, group_end as int) == run_end(
                    tv,
                    group_start as int,
                    group_start + 1,
                ),
            decreases n - group_end,
        {
            group_end = group_end + 1;
        }
        let ghost g = tv.subrange(group_start as int, group_end as int);
        let (mn, mt, mv, ht, hv) = group_metrics(tags, group_start, group_end);
        let ghost before = views(result@);
        let mut k: usize = group_start;
        while k < group_end
            invariant
                n == tags@.len(),
                tv == tag_views(tags@),
                group_start <= k <= group_end <= n,
                g == tv.subrange(group_start as int, group_end as int),
                mn == max_name(g) && mt == max_type(g) && mv == max_var(g) && ht == any_type(g)
                    && hv == any_var(g),
                views(result@) == before + aligned_group(g).take(k - group_start),
            decreases group_end - k,
        {
            proof {
                assert(g[k - group_start] == tv[k as int]);
                if alignable(g[k - group_start]) {
                    lemma_metrics_bound(g, k - group_start);
                }
            }
            let line = aligned_tag_line(&tags[k], mn, mt, mv, ht, hv);
            let ghost old_r = result@;
            result.push(line);
            proof {
                lemma_views_push(old_r, result@.last());
                assert(aligned_group(g).take(k + 1 - group_start) =~= aligned_group(g).take(
                    k - group_start,
                ).push(aligned_line(g[k - group_start], metrics(g))));
            }
            k = k + 1;
        }
        assert(aligned_group(g).take(group_end - group_start) =~= aligned_group(g));
        assert(before + aligned_from(tv, group_start as int) =~= before + aligned_group(g)
            + aligned_from(tv, group_end as int));
        group_start = group_end;
    }
    assert(views(result@) + Seq::<Seq<u8>>::empty() =~= views(result@));
    result
}

/// The lines of a tag whose description spans several lines.
pub fn build_multiline_tag_raw(effective_name: &[u8], desc: &[u8], settings: &FormatSettings) -> (r:
    Vec<Vec<u8>>)
    requires
        settings.phpdoc_scalar_types ==> scalar_scan_safe(first_line(desc@)),
    ensures
        views(r@) == multiline_raw(effective_name@, desc@, *settings),
{
    let dlen = desc.len();
    let (first_line_desc, rest_lines) = match find_byte(desc, 0x0A) {
        Some(nl_pos) => (copy_range(desc, 0, nl_pos), copy_range(desc, nl_pos + 1, dlen)),
        None => (copy_range(desc, 0, desc.len()), Vec::new()),
    };
    assert(first_line_desc@ =~= first_line(desc@));
    assert(rest_lines@ =~= after_first_line(desc@));
    let mut first = first_line_desc;
    if settings.phpdoc_scalar_types {
        first = normalize_scalar_types(first.as_slice());
    }
    if settings.phpdoc_null_position == PhpdocNullPosition::Last {
        first = move_null_to_end(first.as_slice());
    }
    let mut head: Vec<u8> = Vec::new();
    head.push(0x40);
    push_all(&mut head, effective_name);
    head.push(0x20);
    let first_trimmed = trim_of(first.as_slice());
    push_all(&mut head, first_trimmed.as_slice());
    assert(head@ =~= at_sign() + effective_name@ + sp() + first_trimmed@);
    let mut lines_out: Vec<Vec<u8>> = Vec::new();
    lines_out.push(head);
    assert(views(lines_out@) =~= seq![at_sign() + effective_name@ + sp() + first_trimmed@]);
    let rest = lines_of(rest_lines.as_slice());
    let ghost ls = lines(rest_lines@);
    let ghost head_views = views(lines_out@);
    let mut i: usize = 0;
    while i < rest.len()
        invariant
            i <= rest@.len(),
            views(rest@) == ls,
            views(lines_out@) == head_views + ls.take(i as int).map_values(
                |l: Seq<u8>| continuation_line(l),
            ),
        decreases rest@.len() - i,
    {
        let trimmed = trim_of(rest[i].as_slice());
        assert(rest@[i as int]@ == ls[i as int]);
        let mut out: Vec<u8> = Vec::new();
        if trimmed.len() == 0 {
            assert(out@ =~= continuation_line(ls[i as int]));
        } else {
            out.push(0x20);
            out.push(0x20);
            push_all(&mut out, trimmed.as_slice());
            assert(out@ =~= continuation_line(ls[i as int]));
        }
        let ghost old_l = lines_out@;
        lines_out.push(out);
        proof {
            lemma_views_push(old_l, lines_out@.last());
            assert(ls.take(i + 1).map_values(|l: Seq<u8>| continuation_line(l)) =~= ls.take(
                i as int,
            ).map_values(|l: Seq<u8>| continuation_line(l)).push(continuation_line(ls[i as int])));
        }
        i = i + 1;
    }
    assert(ls.take(i as int) =~= ls);
    lines_out
}


/// Where the group of `tags[k]` starts, going group by group from `start`.
pub open spec fn group_start(tags: Seq<TagSpec>, start: int, k: int) -> int
    decreases tags.len() - start,
{
    if start < 0 || start >= tags.len() || k < start {
        start
    } else {
        let e = run_end(tags, start, start + 1);
        proof {
            lemma_run_end(tags, start, start + 1);
        }
        if e <= start || k < e {
            start
        } else {
            group_start(tags, e, k)
        }
    }
}

/// Line `k` of the aligned lines from `start` is `tags[k]` written with the
/// metrics of the group that holds it.
proof fn lemma_aligned_from_at(tags: Seq<TagSpec>, start: int, k: int)
    requires
        0 <= start <= k < tags.len(),
    ensures
        start <= group_start(tags, start, k) <= k,
        k < run_end(tags, group_start(tags, start, k), group_start(tags, start, k) + 1)
            <= tags.len(),
        aligned_from(tags, start).len() == tags.len() - start,
        aligned_from(tags, start)[k - start] == aligned_line(
            tags[k],
            metrics(
                tags.subrange(
                    group_start(tags, start, k),
                    run_end(tags, group_start(tags, start, k), group_start(tags, start, k) + 1),
                ),
            ),
        ),
    decreases tags.len() - start,
{
    lemma_run_end(tags, start, start + 1);
    crate::docblock::reformat::lemma_aligned_from_len(tags, start);
    let e = run_end(tags, start, start + 1);
    let g = tags.subrange(start, e);
    crate::docblock::reformat::lemma_aligned_from_len(tags, e);
    let head = aligned_group(g);
    assert(aligned_from(tags, start) == head + aligned_from(tags, e));
    assert(head.len() == e - start);
    if k < e {
        assert(g[k - start] == tags[k]);
        assert(aligned_from(tags, start)[k - start] == head[k - start]);
    } else {
        lemma_aligned_from_at(tags, e, k);
        assert(aligned_from(tags, start)[k - start] == aligned_from(tags, e)[k - e]);
    }
}

/// Over a whole list of tags, vertical alignment gives one line per tag, and
/// for each tag written on one line it only widens the single spaces between
/// the fields of its single-spaced line and drops white space at its end:
/// the aligned line is the same fields in the same order with one space or
/// more between each, then spaces, with white space at its end dropped, and
/// it ends in no white space. A tag that spans several lines is written as
/// it is in both forms.
pub proof fn lemma_aligned_lines_keep_fields(tags: Seq<TagSpec>)
    ensures
        aligned_lines(tags).len() == tags.len(),
        forall|k: int|
            0 <= k < tags.len() && alignable(#[trigger] tags[k]) ==> unaligned_line(tags[k])
                == join(tag_fields(tags[k]), sp()) && ws_suffix_len(aligned_lines(tags)[k]) == 0
                && exists|gaps: Seq<nat>, tail: nat|
                gaps.len() + 1 == tag_fields(tags[k]).len() && (forall|i: int|
                    0 <= i < gaps.len() ==> #[trigger] gaps[i] >= 1) && aligned_lines(tags)[k]
                    == trim_end(gap_join(tag_fields(tags[k]), gaps) + spaces(tail)),
        forall|k: int|
            0 <= k < tags.len() && !alignable(#[trigger] tags[k]) ==> aligned_lines(tags)[k]
                == unaligned_line(tags[k]),
{
    crate::docblock::reformat::lemma_aligned_from_len(tags, 0);
    assert forall|k: int| #![trigger tags[k]] 0 <= k < tags.len() implies ({
        let gs = group_start(tags, 0, k);
        let g = tags.subrange(gs, run_end(tags, gs, gs + 1));
        &&& 0 <= k - gs < g.len()
        &&& g[k - gs] == tags[k]
        &&& aligned_lines(tags)[k] == aligned_line(g[k - gs], metrics(g))
    }) by {
        lemma_aligned_from_at(tags, 0, k);
    }
    assert forall|k: int| 0 <= k < tags.len() && alignable(#[trigger] tags[k]) implies unaligned_line(
        tags[k],
    ) == join(tag_fields(tags[k]), sp()) && ws_suffix_len(aligned_lines(tags)[k]) == 0
        && exists|gaps: Seq<nat>, tail: nat|
        gaps.len() + 1 == tag_fields(tags[k]).len() && (forall|i: int|
            0 <= i < gaps.len() ==> #[trigger] gaps[i] >= 1) && aligned_lines(tags)[k] == trim_end(
            gap_join(tag_fields(tags[k]), gaps) + spaces(tail),
        ) by {
        let gs = group_start(tags, 0, k);
        let g = tags.subrange(gs, run_end(tags, gs, gs + 1));
        assert(g[k - gs] == tags[k]);
        lemma_aligned_keeps_fields(g, k - gs);
        let t = g[k - gs];
        let m = metrics(g);
        let (gaps, tail) = choose|gaps: Seq<nat>, tail: nat|
            #![trigger gap_join(tag_fields(t), gaps), spaces(tail)]
            gaps.len() + 1 == tag_fields(t).len() && (forall|i: int|
                0 <= i < gaps.len() ==> #[trigger] gaps[i] >= 1) && aligned_core(t, m) == gap_join(
                tag_fields(t),
                gaps,
            ) + spaces(tail);
        assert(aligned_lines(tags)[k] == trim_end(
            gap_join(tag_fields(tags[k]), gaps) + spaces(tail),
        ));
    }
}

} // verus!
