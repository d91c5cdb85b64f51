//! `continue` inside a `switch` acts as `break` and should be written so.
use vstd::prelude::*;

use crate::lint::ast::{DeclareBody, ExprKind, Expression, IfBody, LiteralKind, Statement, SwitchCase};
use crate::lint::meta::{Category, NodeKind, RuleMeta};
use crate::lint::report::{
    bytes_of, issue_views, utf8, Annotation, AnnotationSpec, EditSpec, Issue, IssueSpec, Level,
    Span, TextEdit,
};

verus! {

/// The settings of the rule.
#[derive(Debug, Clone, Copy, PartialEq, Eq, Hash)]
pub struct SwitchContinueToBreakConfig {
    pub level: Level,
}

impl Default for SwitchContinueToBreakConfig {
    fn default() -> (r: Self)
        ensures
            r.level == Level::Warning,
    {
        Self { level: Level::Warning }
    }
}

impl SwitchContinueToBreakConfig {
    /// The rule is off unless enabled.
    pub fn default_enabled() -> (r: bool)
        ensures
            !r,
    {
        false
    }

    /// The level of the issues it reports.
    pub fn level(&self) -> (r: Level)
        ensures
            r == self.level,
    {
        self.level
    }
}

/// The rule with its settings.
#[derive(Debug, Clone, Copy)]
pub struct SwitchContinueToBreakRule {
    pub meta: RuleMeta,
    pub cfg: SwitchContinueToBreakConfig,
}

/// The `continue` statement targets the `switch` itself: it has no level or
/// level 1.
pub open spec fn targets_switch(level: Option<Expression>) -> bool {
    match level {
        None => true,
        Some(e) => match e.kind {
            ExprKind::Literal(LiteralKind::Integer { value }) => value == Some(1u64),
            _ => false,
        },
    }
}

/// The keywords of the `continue` statements of `ss` that target the
/// enclosing `switch`, in order. Loops, nested switches and declarations
/// are not entered: a `continue` there targets something else.
pub open spec fn continues_in_list(ss: Seq<Statement>) -> Seq<Span>
    decreases ss,
{
    if ss.len() == 0 {
        Seq::empty()
    } else {
        continues_in_list(ss.subrange(0, ss.len() - 1)) + continues_in(ss[ss.len() - 1])
    }
}

/// The switch-targeting `continue` keywords of a list of statement lists.
pub open spec fn continues_in_lists(ls: Seq<Vec<Statement>>) -> Seq<Span>
    decreases ls,
{
    if ls.len() == 0 {
        Seq::empty()
    } else {
        continues_in_lists(ls.subrange(0, ls.len() - 1)) + continues_in_list(ls[ls.len() - 1]@)
    }
}

/// The switch-targeting `continue` keywords of one statement.
pub open spec fn continues_in(s: Statement) -> Seq<Span>
    decreases s,
{
    match s {
        Statement::Namespace { statements } => continues_in_list(statements@),
        Statement::Block { statements } => continues_in_list(statements@),
        Statement::Declare { body } => match body {
            DeclareBody::Statement(b) => continues_in(*b),
            DeclareBody::ColonDelimited(ss) => continues_in_list(ss@),
        },
        Statement::Try { block, catch_blocks, finally_block } => continues_in_list(block@)
            + continues_in_lists(catch_blocks@) + match finally_block {
            Some(f) => continues_in_list(f@),
            None => Seq::empty(),
        },
        Statement::If { body } => match body {
            IfBody::Statement { statement, else_ifs, else_clause } => continues_in(*statement)
                + continues_in_list(else_ifs@) + match else_clause {
                Some(e) => continues_in(*e),
                None => Seq::empty(),
            },
            IfBody::ColonDelimited { statements, else_ifs, else_clause } => continues_in_list(
                statements@,
            ) + continues_in_lists(else_ifs@) + match else_clause {
                Some(e) => continues_in_list(e@),
                None => Seq::empty(),
            },
        },
        Statement::Continue { keyword, level } => if targets_switch(level) {
            seq![keyword]
        } else {
            Seq::empty()
        },
        _ => Seq::empty(),
    }
}

/// The switch-targeting `continue` keywords of all cases, case by case.
pub open spec fn continues_in_cases(cases: Seq<SwitchCase>) -> Seq<Span>
    decreases cases.len(),
{
    if cases.len() == 0 {
        Seq::empty()
    } else {
        continues_in_cases(cases.drop_last()) + continues_in_list(cases.last().statements@)
    }
}

/// `part` occurs in `whole` as one run, in order and without gaps.
pub open spec fn has_run(whole: Seq<Span>, part: Seq<Span>) -> bool {
    exists|p: Seq<Span>, q: Seq<Span>| #[trigger] (p + part + q) == whole
}

proof fn lemma_has_run_from(whole: Seq<Span>, p: Seq<Span>, part: Seq<Span>, q: Seq<Span>)
    requires
        whole == p + part + q,
    ensures
        has_run(whole, part),
{
}

/// A run of a run is a run.
proof fn lemma_has_run_trans(a: Seq<Span>, b: Seq<Span>, c: Seq<Span>)
    requires
        has_run(a, b),
        has_run(b, c),
    ensures
        has_run(a, c),
{
    let (p1, q1) = choose|p: Seq<Span>, q: Seq<Span>| #[trigger] (p + b + q) == a;
    let (p2, q2) = choose|p: Seq<Span>, q: Seq<Span>| #[trigger] (p + c + q) == b;
    assert(a =~= (p1 + p2) + c + (q2 + q1));
    lemma_has_run_from(a, p1 + p2, c, q2 + q1);
}

/// The `continue` keywords of each statement of a list are a run of those
/// of the list.
proof fn lemma_list_runs(ss: Seq<Statement>)
    ensures
        forall|i: int| 0 <= i < ss.len() ==> has_run(continues_in_list(ss), continues_in(#[trigger] ss[i])),
    decreases ss.len(),
{
    if ss.len() > 0 {
        let init = ss.subrange(0, ss.len() - 1);
        lemma_list_runs(init);
        let whole = continues_in_list(ss);
        assert(whole == continues_in_list(init) + continues_in(ss[ss.len() - 1]));
        assert forall|i: int| 0 <= i < ss.len() implies has_run(whole, continues_in(#[trigger] ss[i])) by {
            if i == ss.len() - 1 {
                assert(whole =~= continues_in_list(init) + continues_in(ss[i]) + Seq::<Span>::empty());
                lemma_has_run_from(whole, continues_in_list(init), continues_in(ss[i]), Seq::empty());
            } else {
                assert(init[i] == ss[i]);
                assert(has_run(continues_in_list(init), continues_in(init[i])));
                assert(whole =~= Seq::<Span>::empty() + continues_in_list(init) + continues_in(ss[ss.len() - 1]));
                lemma_has_run_from(whole, Seq::empty(), continues_in_list(init), continues_in(ss[ss.len() - 1]));
                lemma_has_run_trans(whole, continues_in_list(init), continues_in(ss[i]));
            }
        }
    }
}

/// The `continue` keywords of each statement of a list of lists are a run
/// of those of the lists.
proof fn lemma_lists_runs(ls: Seq<Vec<Statement>>)
    ensures
        forall|i: int, j: int|
            0 <= i < ls.len() && 0 <= j < ls[i]@.len() ==> has_run(
                continues_in_lists(ls),
                continues_in(#[trigger] ls[i]@[j]),
            ),
    decreases ls.len(),
{
    if ls.len() > 0 {
        let init = ls.subrange(0, ls.len() - 1);
        lemma_lists_runs(init);
        let last = ls[ls.len() - 1]@;
        lemma_list_runs(last);
        let whole = continues_in_lists(ls);
        assert(whole == continues_in_lists(init) + continues_in_list(last));
        assert forall|i: int, j: int|
            0 <= i < ls.len() && 0 <= j < ls[i]@.len() implies has_run(
                whole,
                continues_in(#[trigger] ls[i]@[j]),
            ) by {
            if i == ls.len() - 1 {
                assert(whole =~= continues_in_lists(init) + continues_in_list(last) + Seq::<Span>::empty());
                lemma_has_run_from(whole, continues_in_lists(init), continues_in_list(last), Seq::empty());
                assert(has_run(continues_in_list(last), continues_in(last[j])));
                lemma_has_run_trans(whole, continues_in_list(last), continues_in(ls[i]@[j]));
            } else {
                assert(init[i] == ls[i]);
                assert(has_run(continues_in_lists(init), continues_in(init[i]@[j])));
                assert(whole =~= Seq::<Span>::empty() + continues_in_lists(init) + continues_in_list(last));
                lemma_has_run_from(whole, Seq::empty(), continues_in_lists(init), continues_in_list(last));
                lemma_has_run_trans(whole, continues_in_lists(init), continues_in(ls[i]@[j]));
            }
        }
    }
}

/// Every branch and every nested statement that is not a loop, a `switch`
/// or a declaration is searched: the switch-targeting `continue` keywords
/// of each statement directly inside a block, namespace, `declare`, `try`
/// (its block, each `catch` and `finally`) or `if` (its body, each
/// `elseif` and its `else`) occur, in order and together, among those of the
/// enclosing statement; a `continue` without a level is its own keyword,
/// and any `continue` gives its keyword or nothing; loops, `switch` and
/// declarations give nothing, as a `continue` there targets something else.
pub proof fn lemma_nested_continues_found(s: Statement)
    ensures
        match s {
            Statement::Namespace { statements } => forall|i: int|
                0 <= i < statements@.len() ==> has_run(continues_in(s), continues_in(#[trigger] statements@[i])),
            Statement::Block { statements } => forall|i: int|
                0 <= i < statements@.len() ==> has_run(continues_in(s), continues_in(#[trigger] statements@[i])),
            Statement::Declare { body } => match body {
                DeclareBody::Statement(b) => has_run(continues_in(s), continues_in(*b)),
                DeclareBody::ColonDelimited(ss) => forall|i: int|
                    0 <= i < ss@.len() ==> has_run(continues_in(s), continues_in(#[trigger] ss@[i])),
            },
            Statement::Try { block, catch_blocks, finally_block } => (forall|i: int|
                0 <= i < block@.len() ==> has_run(continues_in(s), continues_in(#[trigger] block@[i])))
                && (forall|i: int, j: int|
                0 <= i < catch_blocks@.len() && 0 <= j < catch_blocks@[i]@.len() ==> has_run(
                    continues_in(s),
                    continues_in(#[trigger] catch_blocks@[i]@[j]),
                )) && match finally_block {
                Some(f) => forall|i: int|
                    0 <= i < f@.len() ==> has_run(continues_in(s), continues_in(#[trigger] f@[i])),
                None => true,
            },
            Statement::If { body } => match body {
                IfBody::Statement { statement, else_ifs, else_clause } => has_run(
                    continues_in(s),
                    continues_in(*statement),
                ) && (forall|i: int|
                    0 <= i < else_ifs@.len() ==> has_run(continues_in(s), continues_in(#[trigger] else_ifs@[i])))
                    && match else_clause {
                    Some(e) => has_run(continues_in(s), continues_in(*e)),
                    None => true,
                },
                IfBody::ColonDelimited { statements, else_ifs, else_clause } => (forall|i: int|
                    0 <= i < statements@.len() ==> has_run(continues_in(s), continues_in(#[trigger] statements@[i])))
                    && (forall|i: int, j: int|
                    0 <= i < else_ifs@.len() && 0 <= j < else_ifs@[i]@.len() ==> has_run(
                        continues_in(s),
                        continues_in(#[trigger] else_ifs@[i]@[j]),
                    )) && match else_clause {
                    Some(e) => forall|i: int|
                        0 <= i < e@.len() ==> has_run(continues_in(s), continues_in(#[trigger] e@[i])),
                    None => true,
                },
            },
            Statement::Continue { keyword, level } => (level is None ==> continues_in(s) == seq![
                keyword,
            ]) && (continues_in(s) == seq![keyword] || continues_in(s).len() == 0),
            Statement::Foreach | Statement::For | Statement::While | Statement::DoWhile
            | Statement::Switch | Statement::Function | Statement::Class | Statement::Interface
            | Statement::Trait | Statement::Enum => continues_in(s).len() == 0,
            _ => true,
        },
{
    let cs = continues_in(s);
    match s {
        Statement::Namespace { statements } => {
            lemma_list_runs(statements@);
        },
        Statement::Block { statements } => {
            lemma_list_runs(statements@);
        },
        Statement::Declare { body } => match body {
            DeclareBody::Statement(b) => {
                assert(cs =~= Seq::<Span>::empty() + continues_in(*b) + Seq::<Span>::empty());
                lemma_has_run_from(cs, Seq::empty(), continues_in(*b), Seq::empty());
            },
            DeclareBody::ColonDelimited(ss) => {
                lemma_list_runs(ss@);
            },
        },
        Statement::Try { block, catch_blocks, finally_block } => {
            let a = continues_in_list(block@);
            let c = continues_in_lists(catch_blocks@);
            let f = match finally_block {
                Some(f) => continues_in_list(f@),
                None => Seq::<Span>::empty(),
            };
            assert(cs == a + c + f);
            lemma_list_runs(block@);
            lemma_lists_runs(catch_blocks@);
            assert(cs =~= Seq::<Span>::empty() + a + (c + f));
            lemma_has_run_from(cs, Seq::empty(), a, c + f);
            lemma_has_run_from(cs, a, c, f);
            assert(cs =~= (a + c) + f + Seq::<Span>::empty());
            lemma_has_run_from(cs, a + c, f, Seq::empty());
            assert forall|i: int| 0 <= i < block@.len() implies has_run(cs, continues_in(#[trigger] block@[i])) by {
                lemma_has_run_trans(cs, a, continues_in(block@[i]));
            }
            assert forall|i: int, j: int|
                0 <= i < catch_blocks@.len() && 0 <= j < catch_blocks@[i]@.len() implies has_run(
                    cs,
                    continues_in(#[trigger] catch_blocks@[i]@[j]),
                ) by {
                lemma_has_run_trans(cs, c, continues_in(catch_blocks@[i]@[j]));
            }
            if let Some(fb) = finally_block {
                lemma_list_runs(fb@);
                assert forall|i: int| 0 <= i < fb@.len() implies has_run(cs, continues_in(#[trigger] fb@[i])) by {
                    lemma_has_run_trans(cs, f, continues_in(fb@[i]));
                }
            }
        },
        Statement::If { body } => match body {
            IfBody::Statement { statement, else_ifs, else_clause } => {
                let a = continues_in(*statement);
                let c = continues_in_list(else_ifs@);
                let f = match else_clause {
                    Some(e) => continues_in(*e),
                    None => Seq::<Span>::empty(),
                };
                assert(cs == a + c + f);
                lemma_list_runs(else_ifs@);
                assert(cs =~= Seq::<Span>::empty() + a + (c + f));
                lemma_has_run_from(cs, Seq::empty(), a, c + f);
                lemma_has_run_from(cs, a, c, f);
                assert(cs =~= (a + c) + f + Seq::<Span>::empty());
                lemma_has_run_from(cs, a + c, f, Seq::empty());
                assert forall|i: int| 0 <= i < else_ifs@.len() implies has_run(cs, continues_in(#[trigger] else_ifs@[i])) by {
                    lemma_has_run_trans(cs, c, continues_in(else_ifs@[i]));
                }
            },
            IfBody::ColonDelimited { statements, else_ifs, else_clause } => {
                let a = continues_in_list(statements@);
                let c = continues_in_lists(else_ifs@);
                let f = match else_clause {
                    Some(e) => continues_in_list(e@),
                    None => Seq::<Span>::empty(),
                };
                assert(cs == a + c + f);
                lemma_list_runs(statements@);
                lemma_lists_runs(else_ifs@);
                assert(cs =~= Seq::<Span>::empty() + a + (c + f));
                lemma_has_run_from(cs, Seq::empty(), a, c + f);
                lemma_has_run_from(cs, a, c, f);
                assert(cs =~= (a + c) + f + Seq::<Span>::empty());
                lemma_has_run_from(cs, a + c, f, Seq::empty());
                assert forall|i: int| 0 <= i < statements@.len() implies has_run(cs, continues_in(#[trigger] statements@[i])) by {
                    lemma_has_run_trans(cs, a, continues_in(statements@[i]));
                }
                assert forall|i: int, j: int|
                    0 <= i < else_ifs@.len() && 0 <= j < else_ifs@[i]@.len() implies has_run(
                        cs,
                        continues_in(#[trigger] else_ifs@[i]@[j]),
                    ) by {
                    lemma_has_run_trans(cs, c, continues_in(else_ifs@[i]@[j]));
                }
                if let Some(eb) = else_clause {
                    lemma_list_runs(eb@);
                    assert forall|i: int| 0 <= i < eb@.len() implies has_run(cs, continues_in(#[trigger] eb@[i])) by {
                        lemma_has_run_trans(cs, f, continues_in(eb@[i]));
                    }
                }
            },
        },
        _ => {},
    }
}

/// The issue for one `continue` keyword, with its fix.
pub open spec fn continue_issue(level: Level, keyword: Span) -> IssueSpec {
    IssueSpec {
        level,
        code: utf8("switch-continue-to-break"),
        message: utf8("Use `break` instead of `continue` inside a `switch` statement"),
        annotations: seq![
            AnnotationSpec {
                span: keyword,
                message: utf8("`continue` behaves the same as `break` in a switch"),
                primary: true,
            },
        ],
        notes: seq![
            utf8("In PHP, `continue` inside a `switch` is equivalent to `break`, but is misleading."),
        ],
        help: Some(utf8("Replace `continue` with `break`")),
        edits: Some(
            seq![EditSpec { start: keyword.start, end: keyword.end, text: utf8("break") }],
        ),
    }
}

/// Whether a `continue` with this level targets the enclosing `switch`.
pub fn continue_targets_switch(level: &Option<Expression>) -> (r: bool)
    ensures
        r == targets_switch(*level),
{
    match level {
        None => true,
        Some(e) => match &e.kind {
            ExprKind::Literal(LiteralKind::Integer { value }) => match value {
                Some(v) => *v == 1,
                None => false,
            },
            _ => false,
        },
    }
}

/// Appends `more` to `acc`.
fn extend_spans(acc: &mut Vec<Span>, more: Vec<Span>)
    ensures
        final(acc)@ == old(acc)@ + more@,
{
    let mut i: usize = 0;
    while i < more.len()
        invariant
            i <= more@.len(),
            acc@ == old(acc)@ + more@.take(i as int),
        decreases more@.len() - i,
    {
        acc.push(more[i]);
        i = i + 1;
        assert(more@.take(i as int) =~= more@.take(i - 1).push(more@[i - 1]));
    }
    assert(more@.take(i as int) =~= more@);
}

/// The switch-targeting `continue` keywords of a list of statements.
pub fn find_switch_continues_in_statements(statements: &[Statement]) -> (r: Vec<Span>)
    ensures
        r@ == continues_in_list(statements@),
    decreases statements@,
{
    let mut continues: Vec<Span> = Vec::new();
    let mut i: usize = 0;
    while i < statements.len()
        invariant
            i <= statements@.len(),
            continues@ == continues_in_list(statements@.subrange(0, i as int)),
        decreases statements@.len() - i,
    {
        let more = find_switch_continues_in_statement(&statements[i]);
        proof {
            let pre = statements@.subrange(0, i + 1);
            assert(pre.subrange(0, pre.len() - 1) =~= statements@.subrange(0, i as int));
            assert(pre[pre.len() - 1] == statements@[i as int]);
        }
        extend_spans(&mut continues, more);
        i = i + 1;
    }
    assert(statements@.subrange(0, i as int) =~= statements@);
    continues
}

/// The switch-targeting `continue` keywords of a list of statement lists.
fn find_switch_continues_in_lists(lists: &Vec<Vec<Statement>>) -> (r: Vec<Span>)
    ensures
        r@ == continues_in_lists(lists@),
    decreases lists@,
{
    let mut continues: Vec<Span> = Vec::new();
    let mut i: usize = 0;
    while i < lists.len()
        invariant
            i <= lists@.len(),
            continues@ == continues_in_lists(lists@.subrange(0, i as int)),
        decreases lists@.len() - i,
    {
        let more = find_switch_continues_in_statements(lists[i].as_slice());
        proof {
            let pre = lists@.subrange(0, i + 1);
            assert(pre.subrange(0, pre.len() - 1) =~= lists@.subrange(0, i as int));
            assert(pre[pre.len() - 1] == lists@[i as int]);
        }
        extend_spans(&mut continues, more);
        i = i + 1;
    }
    assert(lists@.subrange(0, i as int) =~= lists@);
    continues
}

/// The switch-targeting `continue` keywords of one statement.
pub fn find_switch_continues_in_statement(statement: &Statement) -> (r: Vec<Span>)
    ensures
        r@ == continues_in(*statement),
    decreases statement,
{
    match statement {
        Statement::Namespace { statements } => find_switch_continues_in_statements(
            statements.as_slice(),
        ),
        Statement::Block { statements } => find_switch_continues_in_statements(
            statements.as_slice(),
        ),
        Statement::Declare { body } => match body {
            DeclareBody::Statement(s) => find_switch_continues_in_statement(s),
            DeclareBody::ColonDelimited(ss) => find_switch_continues_in_statements(ss.as_slice()),
        },
        Statement::Try { block, catch_blocks, finally_block } => {
            let mut continues = find_switch_continues_in_statements(block.as_slice());
            let more = find_switch_continues_in_lists(catch_blocks);
            extend_spans(&mut continues, more);
            match finally_block {
                Some(f) => {
                    let more = find_switch_continues_in_statements(f.as_slice());
                    extend_spans(&mut continues, more);
                },
                None => {
                    assert(continues@ =~= continues@ + Seq::<Span>::empty());
                },
            }
            continues
        },
        Statement::If { body } => match body {
            IfBody::Statement { statement, else_ifs, else_clause } => {
                let mut continues = find_switch_continues_in_statement(statement);
                let more = find_switch_continues_in_statements(else_ifs.as_slice());
                extend_spans(&mut continues, more);
                match else_clause {
                    Some(e) => {
                        let more = find_switch_continues_in_statement(e);
                        extend_spans(&mut continues, more);
                    },
                    None => {
                        assert(continues@ =~= continues@ + Seq::<Span>::empty());
                    },
                }
                continues
            },
            IfBody::ColonDelimited { statements, else_ifs, else_clause } => {
                let mut continues = find_switch_continues_in_statements(statements.as_slice());
                let more = find_switch_continues_in_lists(else_ifs);
                extend_spans(&mut continues, more);
                match else_clause {
                    Some(e) => {
                        let more = find_switch_continues_in_statements(e.as_slice());
                        extend_spans(&mut continues, more);
                    },
                    None => {
                        assert(continues@ =~= continues@ + Seq::<Span>::empty());
                    },
                }
                continues
            },
        },
        Statement::Continue { keyword, level } => {
            let mut continues: Vec<Span> = Vec::new();
            if continue_targets_switch(level) {
                continues.push(*keyword);
                assert(continues@ =~= seq![*keyword]);
            }
            continues
        },
        _ => Vec::new(),
    }
}

impl SwitchContinueToBreakRule {
    /// What the rule says about itself: its name, code, description,
    /// examples and category.
    pub open spec fn rule_meta() -> RuleMeta {
        RuleMeta {
            name: "Switch Continue to Break",
            code: "switch-continue-to-break",
            description: "Detects the use of `continue` inside a `switch` statement, which should\nbe `break` instead.\n\nIn PHP, `continue` inside a `switch` behaves the same as `break`, but\nusing `continue` is misleading because it suggests continuing a loop.\n",
            good_example: "<?php\n\nswitch ($value) {\n    case 1:\n        echo 'one';\n        break;\n}\n",
            bad_example: "<?php\n\nswitch ($value) {\n    case 1:\n        echo 'one';\n        continue;\n}\n",
            category: Category::Correctness,
        }
    }

    /// What the rule says about itself.
    pub fn meta() -> (r: RuleMeta)
        ensures
            r == Self::rule_meta(),
    {
        RuleMeta {
            name: "Switch Continue to Break",
            code: "switch-continue-to-break",
            description: "Detects the use of `continue` inside a `switch` statement, which should\nbe `break` instead.\n\nIn PHP, `continue` inside a `switch` behaves the same as `break`, but\nusing `continue` is misleading because it suggests continuing a loop.\n",
            good_example: "<?php\n\nswitch ($value) {\n    case 1:\n        echo 'one';\n        break;\n}\n",
            bad_example: "<?php\n\nswitch ($value) {\n    case 1:\n        echo 'one';\n        continue;\n}\n",
            category: Category::Correctness,
        }
    }

    /// The rule with the given settings.
    pub fn build(cfg: SwitchContinueToBreakConfig) -> (r: Self)
        ensures
            r.cfg == cfg,
            r.meta == Self::rule_meta(),
    {
        Self { meta: Self::meta(), cfg }
    }

    /// The kinds of node the rule is run on.
    pub fn targets() -> (r: Vec<NodeKind>)
        ensures
            r@ == seq![NodeKind::Switch],
    {
        let mut v: Vec<NodeKind> = Vec::new();
        v.push(NodeKind::Switch);
        v
    }

    /// The issues of a `switch` with the given cases: one per `continue` that
    /// targets the switch, with a fix that writes `break` in its place.
    pub fn check(&self, cases: &Vec<SwitchCase>) -> (r: Vec<Issue>)
        ensures
            issue_views(r@) == continues_in_cases(cases@).map_values(
                |k: Span| continue_issue(self.cfg.level, k),
            ),
    {
        let mut issues: Vec<Issue> = Vec::new();
        let mut i: usize = 0;
        while i < cases.len()
            invariant
                i <= cases@.len(),
                issue_views(issues@) == continues_in_cases(cases@.take(i as int)).map_values(
                    |k: Span| continue_issue(self.cfg.level, k),
                ),
            decreases cases@.len() - i,
        {
            let found = find_switch_continues_in_statements(cases[i].statements.as_slice());
            proof {
                assert(cases@.take(i + 1).drop_last() =~= cases@.take(i as int));
            }
            let ghost before = issue_views(issues@);
            let mut j: usize = 0;
            while j < found.len()
                invariant
                    j <= found@.len(),
                        issue_views(issues@) == before + found@.take(j as int).map_values(
                        |k: Span| continue_issue(self.cfg.level, k),
                    ),
                decreases found@.len() - j,
            {
                let keyword = found[j];
                let issue = self.continue_issue_for(keyword);
                let ghost i0 = issues@;
                issues.push(issue);
                proof {
                    assert(issue_views(issues@) =~= issue_views(i0).push(issue@));
                    assert(found@.take(j + 1).map_values(
                        |k: Span| continue_issue(self.cfg.level, k),
                    ) =~= found@.take(j as int).map_values(
                        |k: Span| continue_issue(self.cfg.level, k),
                    ).push(continue_issue(self.cfg.level, keyword)));
                }
                j = j + 1;
            }
            proof {
                assert(found@.take(j as int) =~= found@);
                assert(continues_in_cases(cases@.take(i + 1)).map_values(
                    |k: Span| continue_issue(self.cfg.level, k),
                ) =~= continues_in_cases(cases@.take(i as int)).map_values(
                    |k: Span| continue_issue(self.cfg.level, k),
                ) + found@.map_values(|k: Span| continue_issue(self.cfg.level, k)));
            }
            i = i + 1;
        }
        assert(cases@.take(i as int) =~= cases@);
        issues
    }

    /// The issue for one `continue` keyword.
    fn continue_issue_for(&self, keyword: Span) -> (r: Issue)
        ensures
            r@ == continue_issue(self.cfg.level, keyword),
    {
        let issue = Issue::new(
            self.cfg.level(),
            bytes_of("Use `break` instead of `continue` inside a `switch` statement"),
        ).with_code(bytes_of(Self::meta().code)).with_annotation(
            Annotation::primary(keyword, bytes_of("`continue` behaves the same as `break` in a switch")),
        ).with_note(
            bytes_of("In PHP, `continue` inside a `switch` is equivalent to `break`, but is misleading."),
        ).with_help(bytes_of("Replace `continue` with `break`"));
        let mut edits: Vec<TextEdit> = Vec::new();
        edits.push(TextEdit::replace(keyword, bytes_of("break")));
        let r = issue.with_edits(edits);
        assert(r@.annotations =~= continue_issue(self.cfg.level, keyword).annotations);
        assert(r@.notes =~= continue_issue(self.cfg.level, keyword).notes);
        assert(r@.edits->0 =~= continue_issue(self.cfg.level, keyword).edits->0);
        r
    }
}

} // verus!
