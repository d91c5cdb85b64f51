//! Lines with more characters than a limit are reported, unless they are a comment or a
//! string only.
use vstd::prelude::*;

use crate::docblock::types::is_continuation;
use crate::lint::meta::{Category, NodeKind, RuleMeta};
use crate::lint::report::{
    bytes_of, issue_views, utf8, Annotation, AnnotationSpec, Issue, IssueSpec, Level, Span,
};
use crate::text::{
    decimal, ends_with, ends_with_bytes, push_all, split_byte, split_on_byte, starts_with,
    starts_with_bytes, to_decimal, trim, trim_of, views,
};

verus! {

/// The settings of the rule.
#[derive(Debug, Clone, Copy, PartialEq, Eq, Hash)]
pub struct LineLengthLimitConfig {
    pub level: Level,
    /// The longest line allowed, in characters.
    pub max_length: usize,
}

impl Default for LineLengthLimitConfig {
    fn default() -> (r: Self)
        ensures
            r.level == Level::Warning,
            r.max_length == 120,
    {
        Self { level: Level::Warning, max_length: 120 }
    }
}

impl LineLengthLimitConfig {
    /// The rule is off unless enabled.
    pub fn default_enabled() -> (r: bool)
        ensures
            !r,
    {
        false
    }

    /// The level of the issues it reports.
    pub fn level(&self) -> (r: Level)
        ensures
            r == self.level,
    {
        self.level
    }
}

/// The rule with its settings.
#[derive(Debug, Clone, Copy)]
pub struct LineLengthLimitRule {
    pub meta: RuleMeta,
    pub cfg: LineLengthLimitConfig,
}

/// A line without the carriage return of a `\r\n` line end.
pub open spec fn without_cr(line: Seq<u8>) -> Seq<u8> {
    if line.len() > 0 && line.last() == 0x0Du8 {
        line.drop_last()
    } else {
        line
    }
}

/// A trimmed line that is a comment: it starts with `//`, `#`, `*` or `/*`.
pub open spec fn comment_only(t: Seq<u8>) -> bool {
    starts_with(t, utf8("//")) || starts_with(t, utf8("#")) || starts_with(t, utf8("*"))
        || starts_with(t, utf8("/*"))
}

/// A trimmed line that is a string: it starts and ends with the same quote.
pub open spec fn string_only(t: Seq<u8>) -> bool {
    (starts_with(t, utf8("'")) && ends_with(t, utf8("'"))) || (starts_with(t, utf8("\""))
        && ends_with(t, utf8("\"")))
}

/// The number of characters of UTF-8 text: its bytes that do not continue a
/// character.
pub open spec fn char_count(s: Seq<u8>) -> nat
    decreases s.len(),
{
    if s.len() == 0 {
        0
    } else {
        char_count(s.drop_last()) + if is_continuation(s.last()) {
            0nat
        } else {
            1nat
        }
    }
}

/// Scanning from byte `i`, with `seen` characters before it: the byte offset
/// at which character number `k` (from 0) starts, or the length of `s` when
/// there are not that many characters.
pub open spec fn char_start(s: Seq<u8>, i: int, seen: nat, k: nat) -> int
    decreases s.len() - i,
{
    if i < 0 || i >= s.len() {
        s.len() as int
    } else if !is_continuation(s[i]) && seen == k {
        i
    } else {
        char_start(s, i + 1, if is_continuation(s[i]) {
            seen
        } else {
            seen + 1
        }, k)
    }
}

/// The byte offset at which character number `k` (from 0) of `s` starts.
pub open spec fn char_offset(s: Seq<u8>, k: nat) -> int {
    char_start(s, 0, 0, k)
}

/// The line is reported: it has more than `max` characters and is not only
/// a comment or a string.
pub open spec fn too_long(line: Seq<u8>, max: nat) -> bool {
    let c = without_cr(line);
    char_count(c) > max && !comment_only(trim(c)) && !string_only(trim(c))
}

/// The bytes of the markers that `comment_only` and `string_only` look for.
proof fn lemma_marker_bytes()
    ensures
        utf8("'") == seq![0x27u8],
        utf8("\"") == seq![0x22u8],
        utf8("#") == seq![0x23u8],
        utf8("*") == seq![0x2Au8],
        utf8("//") == seq![0x2Fu8, 0x2Fu8],
        utf8("/*") == seq![0x2Fu8, 0x2Au8],
{
    reveal_strlit("'");
    reveal_strlit("\"");
    reveal_strlit("#");
    reveal_strlit("*");
    reveal_strlit("//");
    reveal_strlit("/*");
    vstd::string::is_ascii_spec_bytes("'");
    vstd::string::is_ascii_spec_bytes("\"");
    vstd::string::is_ascii_spec_bytes("#");
    vstd::string::is_ascii_spec_bytes("*");
    vstd::string::is_ascii_spec_bytes("//");
    vstd::string::is_ascii_spec_bytes("/*");
    assert(utf8("'") =~= seq![0x27u8]);
    assert(utf8("\"") =~= seq![0x22u8]);
    assert(utf8("#") =~= seq![0x23u8]);
    assert(utf8("*") =~= seq![0x2Au8]);
    assert(utf8("//") =~= seq![0x2Fu8, 0x2Fu8]);
    assert(utf8("/*") =~= seq![0x2Fu8, 0x2Au8]);
}

/// However long, a line is never reported when, trimmed (and without the
/// carriage return of a `\r\n` end), it is a string, starting and ending
/// with `'` or starting and ending with `"`, or begins a comment with `//`,
/// `/*`, `#` or `*`. Any other line, whose trimmed text starts with another
/// byte, is reported exactly when it has more characters than the limit.
pub proof fn lemma_skipped_lines(line: Seq<u8>, max: nat)
    ensures
        ({
            let t = trim(without_cr(line));
            t.len() > 0 && ((t[0] == 0x27u8 && t[t.len() - 1] == 0x27u8) || (t[0] == 0x22u8
                && t[t.len() - 1] == 0x22u8))
        }) ==> !too_long(line, max),
        ({
            let t = trim(without_cr(line));
            t.len() > 0 && (t[0] == 0x23u8 || t[0] == 0x2Au8 || (t.len() > 1 && t[0] == 0x2Fu8 && (
            t[1] == 0x2Fu8 || t[1] == 0x2Au8)))
        }) ==> !too_long(line, max),
        ({
            let t = trim(without_cr(line));
            t.len() > 0 && t[0] != 0x27u8 && t[0] != 0x22u8 && t[0] != 0x23u8 && t[0] != 0x2Au8
                && t[0] != 0x2Fu8
        }) ==> (too_long(line, max) <==> char_count(without_cr(line)) > max),
{
    lemma_marker_bytes();
    let t = trim(without_cr(line));
    if t.len() > 0 {
        assert(t.take(1) =~= seq![t[0]]);
        assert(t.skip(t.len() - 1) =~= seq![t[t.len() - 1]]);
        if t.len() > 1 {
            assert(t.take(2) =~= seq![t[0], t[1]]);
        }
        if t[0] != 0x27u8 && t[0] != 0x22u8 && t[0] != 0x23u8 && t[0] != 0x2Au8 && t[0] != 0x2Fu8 {
            assert(!starts_with(t, utf8("'"))) by {
                if starts_with(t, utf8("'")) {
                    assert(t.take(1)[0] == utf8("'")[0]);
                }
            }
            assert(!starts_with(t, utf8("\""))) by {
                if starts_with(t, utf8("\"")) {
                    assert(t.take(1)[0] == utf8("\"")[0]);
                }
            }
            assert(!starts_with(t, utf8("#"))) by {
                if starts_with(t, utf8("#")) {
                    assert(t.take(1)[0] == utf8("#")[0]);
                }
            }
            assert(!starts_with(t, utf8("*"))) by {
                if starts_with(t, utf8("*")) {
                    assert(t.take(1)[0] == utf8("*")[0]);
                }
            }
            assert(!starts_with(t, utf8("//"))) by {
                if starts_with(t, utf8("//")) {
                    assert(t.take(2)[0] == utf8("//")[0]);
                }
            }
            assert(!starts_with(t, utf8("/*"))) by {
                if starts_with(t, utf8("/*")) {
                    assert(t.take(2)[0] == utf8("/*")[0]);
                }
            }
        }
    }
}

/// The issue for line number `k` (from 0) that starts at `offset`: it counts
/// characters, and marks from the first character over the limit to the end
/// of the line.
pub open spec fn line_issue(level: Level, max: nat, k: nat, offset: nat, line: Seq<u8>) -> IssueSpec {
    let c = without_cr(line);
    let len = c.len();
    let n = char_count(c);
    IssueSpec {
        level,
        code: utf8("line-length-limit"),
        message: utf8("Line ") + decimal(k + 1) + utf8(" exceeds ") + decimal(max) + utf8(
            " characters (",
        ) + decimal(n) + utf8(" characters)"),
        annotations: seq![
            AnnotationSpec {
                span: Span {
                    start: (offset + char_offset(c, max)) as u32,
                    end: (offset + len) as u32,
                },
                message: decimal((n - max) as nat) + utf8(" characters over limit"),
                primary: true,
            },
            AnnotationSpec {
                span: Span { start: offset as u32, end: (offset + len) as u32 },
                message: utf8("This line is too long"),
                primary: false,
            },
        ],
        notes: Seq::empty(),
        help: Some(utf8("Consider breaking this line into multiple lines")),
        edits: None,
    }
}

/// The issues for the lines `lines[k..]`, line `k` starting at `offset`.
pub open spec fn long_line_issues(
    lines: Seq<Seq<u8>>,
    k: int,
    offset: nat,
    level: Level,
    max: nat,
) -> Seq<IssueSpec>
    decreases lines.len() - k,
{
    if k < 0 || k >= lines.len() {
        Seq::empty()
    } else {
        (if too_long(lines[k], max) {
            seq![line_issue(level, max, k as nat, offset, lines[k])]
        } else {
            Seq::empty()
        }) + long_line_issues(lines, k + 1, offset + lines[k].len() + 1, level, max)
    }
}

/// The issues for a whole source text: its lines are what lies between
/// line feeds.
pub open spec fn source_issues(source: Seq<u8>, level: Level, max: nat) -> Seq<IssueSpec> {
    long_line_issues(split_byte(source, 0x0Au8), 0, 0, level, max)
}

/// The lengths of the pieces, each with one more for its separator.
pub open spec fn total_len(ps: Seq<Seq<u8>>) -> nat
    decreases ps.len(),
{
    if ps.len() == 0 {
        0
    } else {
        ps[0].len() + 1 + total_len(ps.skip(1))
    }
}

proof fn lemma_total_len_prepend(p: Seq<u8>, ps: Seq<Seq<u8>>)
    ensures
        total_len(seq![p] + ps) == p.len() + 1 + total_len(ps),
{
    assert((seq![p] + ps).skip(1) =~= ps);
}

/// The pieces of a split, with their separators, are as long as the text
/// and one more.
pub proof fn lemma_split_total(s: Seq<u8>, d: u8)
    ensures
        total_len(split_byte(s, d)) == s.len() + 1,
    decreases s.len(),
{
    crate::text::lemma_first_index_of_props(s, d);
    match crate::text::first_index_of(s, d) {
        None => {
            assert(seq![s].skip(1) =~= Seq::<Seq<u8>>::empty());
            assert(total_len(Seq::<Seq<u8>>::empty()) == 0);
            assert(total_len(seq![s]) == s.len() + 1 + total_len(seq![s].skip(1)));
        },
        Some(i) => {
            lemma_split_total(s.skip(i + 1), d);
            lemma_total_len_prepend(s.take(i), split_byte(s.skip(i + 1), d));
        },
    }
}

/// The number of lines of `lines[k..]` that are too long.
pub open spec fn count_too_long(lines: Seq<Seq<u8>>, k: int, max: nat) -> nat
    decreases lines.len() - k,
{
    if k < 0 || k >= lines.len() {
        0
    } else {
        (if too_long(lines[k], max) {
            1nat
        } else {
            0nat
        }) + count_too_long(lines, k + 1, max)
    }
}

/// One issue per too-long line of `lines[k..]`, wherever the lines start.
pub proof fn lemma_long_line_issues_count(
    lines: Seq<Seq<u8>>,
    k: int,
    offset: nat,
    level: Level,
    max: nat,
)
    requires
        0 <= k,
    ensures
        long_line_issues(lines, k, offset, level, max).len() == count_too_long(lines, k, max),
    decreases lines.len() - k,
{
    if k < lines.len() {
        lemma_long_line_issues_count(lines, k + 1, offset + lines[k].len() + 1, level, max);
    }
}

/// The rule reports each line that has more characters than the limit and is not only
/// a comment or a string, once, and no other line: a source whose lines all
/// fit gets no issue.
pub proof fn lemma_one_issue_per_long_line(source: Seq<u8>, level: Level, max: nat)
    ensures
        source_issues(source, level, max).len() == count_too_long(split_byte(source, 0x0Au8), 0, max),
        (forall|k: int|
            0 <= k < split_byte(source, 0x0Au8).len() ==> !too_long(
                #[trigger] split_byte(source, 0x0Au8)[k],
                max,
            )) ==> source_issues(source, level, max).len() == 0,
{
    let lines = split_byte(source, 0x0Au8);
    lemma_long_line_issues_count(lines, 0, 0, level, max);
    if forall|k: int| 0 <= k < lines.len() ==> !too_long(#[trigger] lines[k], max) {
        lemma_count_none(lines, 0, max);
    }
}

/// No line is too long, so none is counted.
proof fn lemma_count_none(lines: Seq<Seq<u8>>, k: int, max: nat)
    requires
        0 <= k,
        forall|j: int| 0 <= j < lines.len() ==> !too_long(#[trigger] lines[j], max),
    ensures
        count_too_long(lines, k, max) == 0,
    decreases lines.len() - k,
{
    if k < lines.len() {
        lemma_count_none(lines, k + 1, max);
    }
}

/// The number of characters of `s`, and the byte offset at which character
/// number `k` starts (the length of `s` when there are not that many).
fn char_count_and_start(s: &[u8], k: usize) -> (r: (usize, usize))
    ensures
        r.0 == char_count(s@),
        r.1 == char_offset(s@, k as nat),
        r.1 <= s@.len(),
        r.0 <= s@.len(),
{
    let mut count: usize = 0;
    let mut pos: usize = s.len();
    let mut found = false;
    let mut i: usize = 0;
    assert(s@.take(0) =~= Seq::<u8>::empty());
    while i < s.len()
        invariant
            i <= s@.len(),
            count == char_count(s@.take(i as int)),
            count <= i,
            found ==> pos == char_offset(s@, k as nat) && pos <= s@.len(),
            !found ==> char_start(s@, i as int, count as nat, k as nat) == char_offset(s@, k as nat)
                && pos == s@.len(),
        decreases s@.len() - i,
    {
        let b = s[i];
        let cont = 0x80 <= b && b < 0xC0;
        assert(s@.take(i + 1).drop_last() =~= s@.take(i as int));
        assert(s@.take(i + 1).last() == b);
        if !cont && !found && count == k {
            pos = i;
            found = true;
        }
        if !cont {
            count = count + 1;
        }
        i = i + 1;
    }
    assert(s@.take(i as int) =~= s@);
    (count, pos)
}

impl LineLengthLimitRule {
    /// What the rule says about itself: its name, code, description,
    /// examples and category.
    pub open spec fn rule_meta() -> RuleMeta {
        RuleMeta {
            name: "Line Length Limit",
            code: "line-length-limit",
            description: "Reports lines that exceed a configurable maximum character length. Long lines reduce\nreadability and make side-by-side diffs harder to review. The default limit is 120 characters.\nLines consisting entirely of a string literal or comment are excluded.\n",
            good_example: "<?php\n\n$shortVariable = 'hello';\n",
            bad_example: "<?php\n\n$veryLongVariableNameHere = someFunction($parameterOne, $parameterTwo, $parameterThree, $parameterFour, $parameterFive, $parameterSix);\n",
            category: Category::Maintainability,
        }
    }

    /// What the rule says about itself.
    pub fn meta() -> (r: RuleMeta)
        ensures
            r == Self::rule_meta(),
    {
        RuleMeta {
            name: "Line Length Limit",
            code: "line-length-limit",
            description: "Reports lines that exceed a configurable maximum character length. Long lines reduce\nreadability and make side-by-side diffs harder to review. The default limit is 120 characters.\nLines consisting entirely of a string literal or comment are excluded.\n",
            good_example: "<?php\n\n$shortVariable = 'hello';\n",
            bad_example: "<?php\n\n$veryLongVariableNameHere = someFunction($parameterOne, $parameterTwo, $parameterThree, $parameterFour, $parameterFive, $parameterSix);\n",
            category: Category::Maintainability,
        }
    }

    /// The rule with the given settings.
    pub fn build(cfg: LineLengthLimitConfig) -> (r: Self)
        ensures
            r.cfg == cfg,
            r.meta == Self::rule_meta(),
    {
        Self { meta: Self::meta(), cfg }
    }

    /// The kinds of node the rule is run on.
    pub fn targets() -> (r: Vec<NodeKind>)
        ensures
            r@ == seq![NodeKind::Program],
    {
        let mut v: Vec<NodeKind> = Vec::new();
        v.push(NodeKind::Program);
        v
    }

    /// Whether a trimmed line is only a comment.
    fn is_comment_only(t: &[u8]) -> (r: bool)
        ensures
            r == comment_only(t@),
    {
        starts_with_bytes(t, "//".as_bytes()) || starts_with_bytes(t, "#".as_bytes())
            || starts_with_bytes(t, "*".as_bytes()) || starts_with_bytes(t, "/*".as_bytes())
    }

    /// Whether a trimmed line is only a string.
    fn is_string_only(t: &[u8]) -> (r: bool)
        ensures
            r == string_only(t@),
    {
        (starts_with_bytes(t, "'".as_bytes()) && ends_with_bytes(t, "'".as_bytes())) || (
        starts_with_bytes(t, "\"".as_bytes()) && ends_with_bytes(t, "\"".as_bytes()))
    }

    /// The issue for line number `line_num` (from 0) of `line_len` bytes and
    /// `chars` characters that starts at `offset`; the first character over
    /// the limit starts `over` bytes into the line.
    fn line_issue_for(
        &self,
        line_num: usize,
        offset: u32,
        line_len: usize,
        chars: usize,
        over: usize,
        ghost_line: Ghost<Seq<u8>>,
    ) -> (r: Issue)
        requires
            chars > self.cfg.max_length,
            offset + line_len <= u32::MAX,
            line_num < usize::MAX,
            without_cr(ghost_line@).len() == line_len,
            char_count(without_cr(ghost_line@)) == chars,
            char_offset(without_cr(ghost_line@), self.cfg.max_length as nat) == over,
            over <= line_len,
        ensures
            r@ == line_issue(
                self.cfg.level,
                self.cfg.max_length as nat,
                line_num as nat,
                offset as nat,
                ghost_line@,
            ),
    {
        let max_length = self.cfg.max_length;
        let mut message = bytes_of("Line ");
        push_all(&mut message, to_decimal((line_num + 1) as u64).as_slice());
        push_all(&mut message, " exceeds ".as_bytes());
        push_all(&mut message, to_decimal(max_length as u64).as_slice());
        push_all(&mut message, " characters (".as_bytes());
        push_all(&mut message, to_decimal(chars as u64).as_slice());
        push_all(&mut message, " characters)".as_bytes());
        let line_end = offset + line_len as u32;
        let line_span = Span { start: offset, end: line_end };
        let over_span = Span { start: offset + over as u32, end: line_end };
        let mut over_message = to_decimal((chars - max_length) as u64);
        push_all(&mut over_message, " characters over limit".as_bytes());
        let r = Issue::new(self.cfg.level(), message).with_code(bytes_of(Self::meta().code))
            .with_annotation(Annotation::primary(over_span, over_message)).with_annotation(
            Annotation::secondary(line_span, bytes_of("This line is too long")),
        ).with_help(bytes_of("Consider breaking this line into multiple lines"));
        let ghost want = line_issue(
            self.cfg.level,
            self.cfg.max_length as nat,
            line_num as nat,
            offset as nat,
            ghost_line@,
        );
        assert(r@.message =~= want.message);
        assert(r@.annotations =~= want.annotations);
        r
    }

    /// The issues of a source text: one per line with more characters than the limit that
    /// is not only a comment or a string, in order.
    pub fn check(&self, source: &[u8]) -> (r: Vec<Issue>)
        requires
            source@.len() < u32::MAX,
        ensures
            issue_views(r@) == source_issues(source@, self.cfg.level, self.cfg.max_length as nat),
    {
        let max_length = self.cfg.max_length;
        let lines = split_on_byte(source, 0x0A);
        let ghost ls = split_byte(source@, 0x0Au8);
        proof {
            lemma_split_total(source@, 0x0Au8);
            assert(ls.skip(0) =~= ls);
        }
        let mut issues: Vec<Issue> = Vec::new();
        let mut offset: u32 = 0;
        let mut line_num: usize = 0;
        while line_num < lines.len()
            invariant
                views(lines@) == ls,
                line_num <= ls.len(),
                source@.len() < u32::MAX,
                max_length == self.cfg.max_length,
                offset + total_len(ls.skip(line_num as int)) == source@.len() + 1,
                issue_views(issues@) + long_line_issues(
                    ls,
                    line_num as int,
                    offset as nat,
                    self.cfg.level,
                    max_length as nat,
                ) == source_issues(source@, self.cfg.level, max_length as nat),
            decreases ls.len() - line_num,
        {
            let line = lines[line_num].as_slice();
            assert(line@ == ls[line_num as int]);
            proof {
                assert(ls.skip(line_num as int).skip(1) =~= ls.skip(line_num + 1));
                assert(ls.skip(line_num as int)[0] == ls[line_num as int]);
            }
            let line_content = if line.len() > 0 && line[line.len() - 1] == 0x0D {
                vstd::slice::slice_subrange(line, 0, line.len() - 1)
            } else {
                line
            };
            assert(line_content@ =~= without_cr(line@));
            let line_len = line_content.len();
            let (chars, over) = char_count_and_start(line_content, max_length);
            let ghost found = issue_views(issues@);
            if chars > max_length {
                let trimmed = trim_of(line_content);
                let is_comment_only = Self::is_comment_only(trimmed.as_slice());
                let is_string_only = Self::is_string_only(trimmed.as_slice());
                if !is_comment_only && !is_string_only {
                    let issue = self.line_issue_for(
                        line_num,
                        offset,
                        line_len,
                        chars,
                        over,
                        Ghost(line@),
                    );
                    let ghost i0 = issues@;
                    issues.push(issue);
                    assert(issue_views(issues@) =~= issue_views(i0).push(issue@));
                    assert(issue_views(issues@) + long_line_issues(
                        ls,
                        line_num + 1,
                        (offset + line.len() + 1) as nat,
                        self.cfg.level,
                        max_length as nat,
                    ) =~= found + long_line_issues(
                        ls,
                        line_num as int,
                        offset as nat,
                        self.cfg.level,
                        max_length as nat,
                    ));
                } else {
                    assert(found + long_line_issues(
                        ls,
                        line_num + 1,
                        (offset + line.len() + 1) as nat,
                        self.cfg.level,
                        max_length as nat,
                    ) =~= found + long_line_issues(
                        ls,
                        line_num as int,
                        offset as nat,
                        self.cfg.level,
                        max_length as nat,
                    ));
                }
            } else {
                assert(found + long_line_issues(
                    ls,
                    line_num + 1,
                    (offset + line.len() + 1) as nat,
                    self.cfg.level,
                    max_length as nat,
                ) =~= found + long_line_issues(
                    ls,
                    line_num as int,
                    offset as nat,
                    self.cfg.level,
                    max_length as nat,
                ));
            }
            offset = offset + line.len() as u32 + 1;
            line_num = line_num + 1;
        }
        assert(issue_views(issues@) + Seq::<IssueSpec>::empty() =~= issue_views(issues@));
        issues
    }
}

} // verus!
