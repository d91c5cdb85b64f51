//! `++$i` and `--$i` are preferred where the value is discarded.
use vstd::prelude::*;

use crate::lint::ast::{ExprKind, Expression, IncrementSite, PostfixOperator};
use crate::lint::meta::{Category, NodeKind, RuleMeta};
use crate::lint::report::{
    bytes_of, issue_views, utf8, Annotation, AnnotationSpec, EditSpec, Issue, IssueSpec, Level,
    Span, TextEdit,
};
use crate::lint::rules::yoda_conditions::{span_in, text_of};
use crate::text::push_all;

verus! {

/// The settings of the rule.
#[derive(Debug, Clone, Copy, PartialEq, Eq, Hash)]
pub struct PreferPreIncrementConfig {
    pub level: Level,
}

impl Default for PreferPreIncrementConfig {
    fn default() -> (r: Self)
        ensures
            r.level == Level::Help,
    {
        Self { level: Level::Help }
    }
}

impl PreferPreIncrementConfig {
    /// The rule is off unless enabled.
    pub fn default_enabled() -> (r: bool)
        ensures
            !r,
    {
        false
    }

    /// The level of the issues it reports.
    pub fn level(&self) -> (r: Level)
        ensures
            r == self.level,
    {
        self.level
    }
}

/// The rule with its settings.
#[derive(Debug, Clone, Copy)]
pub struct PreferPreIncrementRule {
    pub meta: RuleMeta,
    pub cfg: PreferPreIncrementConfig,
}

/// The expressions of the site whose value is discarded: the expression of
/// an expression statement, the increments of a `for`.
pub open spec fn discarded(site: IncrementSite) -> Seq<Expression> {
    match site {
        IncrementSite::ExpressionStatement { expression } => seq![expression],
        IncrementSite::For { increments } => increments@,
        IncrementSite::Other => Seq::empty(),
    }
}

/// The post-increments and post-decrements among `es`.
pub open spec fn postfixes(es: Seq<Expression>) -> Seq<Expression>
    decreases es.len(),
{
    if es.len() == 0 {
        Seq::empty()
    } else {
        let prev = postfixes(es.drop_last());
        if es.last().kind is UnaryPostfix {
            prev.push(es.last())
        } else {
            prev
        }
    }
}

/// The operand spans of the post-increments lie within the source.
pub open spec fn operands_in(source: Seq<u8>, es: Seq<Expression>) -> bool {
    forall|i: int|
        0 <= i < es.len() ==> match #[trigger] es[i].kind {
            ExprKind::UnaryPostfix { operand, .. } => span_in(source, operand),
            _ => true,
        }
}

/// The issue for a post-increment or post-decrement `e`, with the fix that
/// puts the operator before the operand.
pub open spec fn postfix_issue(level: Level, source: Seq<u8>, e: Expression) -> IssueSpec {
    let (op, op_span, operand) = match e.kind {
        ExprKind::UnaryPostfix { operator, operator_span, operand } => (
            operator,
            operator_span,
            operand,
        ),
        _ => (PostfixOperator::PostIncrement, e.span, e.span),
    };
    let inc = op is PostIncrement;
    IssueSpec {
        level,
        code: utf8("prefer-pre-increment"),
        message: if inc {
            utf8("Use pre-increment `++$var` instead of post-increment `$var++`")
        } else {
            utf8("Use pre-decrement `--$var` instead of post-decrement `$var--`")
        },
        annotations: seq![
            AnnotationSpec {
                span: op_span,
                message: utf8("Post-increment/decrement operator"),
                primary: true,
            },
        ],
        notes: Seq::empty(),
        help: Some(utf8("Move the operator before the variable: `++$var` instead of `$var++`")),
        edits: Some(
            seq![
                EditSpec {
                    start: e.span.start,
                    end: e.span.end,
                    text: (if inc {
                        utf8("++")
                    } else {
                        utf8("--")
                    }) + text_of(source, operand),
                },
            ],
        ),
    }
}

impl PreferPreIncrementRule {
    /// What the rule says about itself: its name, code, description,
    /// examples and category.
    pub open spec fn rule_meta() -> RuleMeta {
        RuleMeta {
            name: "Prefer Pre-Increment",
            code: "prefer-pre-increment",
            description: "Enforces the use of pre-increment (`++$i`) and pre-decrement (`--$i`) over\npost-increment (`$i++`) and post-decrement (`$i--`).\n\nPre-increment is marginally more efficient and is the convention used by\nthe Symfony coding standards.\n",
            good_example: "<?php\n\n++$i;\n--$count;\n",
            bad_example: "<?php\n\n$i++;\n$count--;\n",
            category: Category::BestPractices,
        }
    }

    /// What the rule says about itself.
    pub fn meta() -> (r: RuleMeta)
        ensures
            r == Self::rule_meta(),
    {
        RuleMeta {
            name: "Prefer Pre-Increment",
            code: "prefer-pre-increment",
            description: "Enforces the use of pre-increment (`++$i`) and pre-decrement (`--$i`) over\npost-increment (`$i++`) and post-decrement (`$i--`).\n\nPre-increment is marginally more efficient and is the convention used by\nthe Symfony coding standards.\n",
            good_example: "<?php\n\n++$i;\n--$count;\n",
            bad_example: "<?php\n\n$i++;\n$count--;\n",
            category: Category::BestPractices,
        }
    }

    /// The rule with the given settings.
    pub fn build(cfg: PreferPreIncrementConfig) -> (r: Self)
        ensures
            r.cfg == cfg,
            r.meta == Self::rule_meta(),
    {
        Self { meta: Self::meta(), cfg }
    }

    /// The kinds of node the rule is run on.
    pub fn targets() -> (r: Vec<NodeKind>)
        ensures
            r@ == seq![NodeKind::ExpressionStatement, NodeKind::For],
    {
        let mut v: Vec<NodeKind> = Vec::new();
        v.push(NodeKind::ExpressionStatement);
        v.push(NodeKind::For);
        v
    }

    /// The issues of a node of `source`: one per post-increment or
    /// post-decrement whose value is discarded (a whole expression statement
    /// or an increment of a `for`).
    pub fn check(&self, source: &[u8], site: &IncrementSite) -> (r: Vec<Issue>)
        requires
            operands_in(source@, discarded(*site)),
        ensures
            issue_views(r@) == postfixes(discarded(*site)).map_values(
                |e: Expression| postfix_issue(self.cfg.level, source@, e),
            ),
    {
        let mut issues: Vec<Issue> = Vec::new();
        match site {
            IncrementSite::ExpressionStatement { expression } => {
                assert(discarded(*site) =~= seq![*expression]);
                assert(discarded(*site).drop_last() =~= Seq::<Expression>::empty());
                assert(postfixes(Seq::<Expression>::empty()) =~= Seq::<Expression>::empty());
                assert(postfixes(discarded(*site)) =~= if expression.kind is UnaryPostfix {
                    seq![*expression]
                } else {
                    Seq::<Expression>::empty()
                });
                if let ExprKind::UnaryPostfix { operator, operator_span, operand } = &expression.kind {
                    assert(discarded(*site)[0] == *expression);
                    let issue = self.report(
                        source,
                        expression.span,
                        *operator,
                        *operator_span,
                        *operand,
                    );
                    issues.push(issue);
                    assert(issue_views(issues@) =~= seq![issue@]);
                }
                assert(issue_views(issues@) =~= postfixes(discarded(*site)).map_values(
                    |e: Expression| postfix_issue(self.cfg.level, source@, e),
                ));
            },
            IncrementSite::For { increments } => {
                let mut i: usize = 0;
                while i < increments.len()
                    invariant
                        i <= increments@.len(),
                        operands_in(source@, increments@),
                        issue_views(issues@) == postfixes(increments@.take(i as int)).map_values(
                            |e: Expression| postfix_issue(self.cfg.level, source@, e),
                        ),
                    decreases increments@.len() - i,
                {
                    let expr = &increments[i];
                    assert(increments@.take(i + 1).drop_last() =~= increments@.take(i as int));
                    assert(increments@.take(i + 1).last() == *expr);
                    if let ExprKind::UnaryPostfix { operator, operator_span, operand } = &expr.kind {
                        assert(increments@[i as int] == *expr);
                        let issue = self.report(source, expr.span, *operator, *operator_span, *operand);
                        let ghost i0 = issues@;
                        issues.push(issue);
                        assert(issue_views(issues@) =~= issue_views(i0).push(issue@));
                    }
                    i = i + 1;
                }
                assert(increments@.take(i as int) =~= increments@);
            },
            IncrementSite::Other => {
                assert(issue_views(issues@) =~= Seq::<IssueSpec>::empty());
            },
        }
        issues
    }

    /// The issue for one post-increment or post-decrement: `operator` at
    /// `operator_span` after the operand at `operand`, the whole at `span`.
    fn report(
        &self,
        source: &[u8],
        span: Span,
        operator: PostfixOperator,
        operator_span: Span,
        operand: Span,
    ) -> (r: Issue)
        requires
            span_in(source@, operand),
        ensures
            r@ == postfix_issue(
                self.cfg.level,
                source@,
                Expression { kind: ExprKind::UnaryPostfix { operator, operator_span, operand }, span },
            ),
    {
        let (message, fix_op) = match operator {
            PostfixOperator::PostIncrement => (
                "Use pre-increment `++$var` instead of post-increment `$var++`",
                "++",
            ),
            PostfixOperator::PostDecrement => (
                "Use pre-decrement `--$var` instead of post-decrement `$var--`",
                "--",
            ),
        };
        let issue = Issue::new(self.cfg.level(), bytes_of(message)).with_code(
            bytes_of(Self::meta().code),
        ).with_annotation(
            Annotation::primary(operator_span, bytes_of("Post-increment/decrement operator")),
        ).with_help(bytes_of("Move the operator before the variable: `++$var` instead of `$var++`"));
        let mut replacement = bytes_of(fix_op);
        let operand_text = vstd::slice::slice_subrange(
            source,
            operand.start as usize,
            operand.end as usize,
        );
        push_all(&mut replacement, operand_text);
        let mut edits: Vec<TextEdit> = Vec::new();
        edits.push(TextEdit::replace(span, replacement));
        let r = issue.with_edits(edits);
        let ghost want = postfix_issue(
            self.cfg.level,
            source@,
            Expression { kind: ExprKind::UnaryPostfix { operator, operator_span, operand }, span },
        );
        assert(r@.annotations =~= want.annotations);
        assert(r@.notes =~= want.notes);
        assert(r@.edits->0 =~= want.edits->0);
        r
    }
}

} // verus!
