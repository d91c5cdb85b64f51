//! Comparisons with a constant on one side and a variable on the other must
//! put them in the configured order.
use vstd::prelude::*;

use crate::lint::ast::{Binary, BinaryOperator, ExprKind, Expression};
use crate::lint::meta::{Category, NodeKind, RuleMeta};
use crate::lint::report::{
    bytes_of, edit_views, utf8, Annotation, AnnotationSpec, EditSpec, Issue, IssueSpec, Level,
    Span, TextEdit,
};
use crate::text::copy_range;

verus! {

/// Which side the constant goes on.
#[derive(Debug, Clone, Copy, PartialEq, Eq, Hash, Structural)]
pub enum YodaConditionsStyle {
    /// Constant on the left, variable on the right.
    Yoda,
    /// Variable on the left, constant on the right.
    NonYoda,
}

impl Default for YodaConditionsStyle {
    fn default() -> (r: Self)
        ensures
            r == YodaConditionsStyle::Yoda,
    {
        YodaConditionsStyle::Yoda
    }
}

/// The settings of the rule.
#[derive(Debug, Clone, Copy, PartialEq, Eq, Hash)]
pub struct YodaConditionsConfig {
    pub level: Level,
    pub style: YodaConditionsStyle,
}

impl Default for YodaConditionsConfig {
    fn default() -> (r: Self)
        ensures
            r.level == Level::Help,
            r.style == YodaConditionsStyle::Yoda,
    {
        Self { level: Level::Help, style: YodaConditionsStyle::Yoda }
    }
}

impl YodaConditionsConfig {
    /// The rule is off unless enabled.
    pub fn default_enabled() -> (r: bool)
        ensures
            !r,
    {
        false
    }

    /// The level of the issues it reports.
    pub fn level(&self) -> (r: Level)
        ensures
            r == self.level,
    {
        self.level
    }
}

/// The rule with its settings.
#[derive(Debug, Clone, Copy)]
pub struct YodaConditionsRule {
    pub meta: RuleMeta,
    pub cfg: YodaConditionsConfig,
}

/// `==`, `!=`, `===`, `!==`, `<>`.
pub open spec fn is_equality(op: BinaryOperator) -> bool {
    op is Equal || op is NotEqual || op is Identical || op is NotIdentical || op is AngledNotEqual
}

/// `<`, `<=`, `>`, `>=`.
pub open spec fn is_comparison(op: BinaryOperator) -> bool {
    op is LessThan || op is LessThanOrEqual || op is GreaterThan || op is GreaterThanOrEqual
}

/// Literals, named and magic constants, and array literals.
pub open spec fn constant_like(e: Expression) -> bool {
    e.kind is Literal || e.kind is ConstantAccess || e.kind is MagicConstant || e.kind is Array
        || e.kind is LegacyArray
}

/// Variables, property accesses and array accesses.
pub open spec fn writable_variable(e: Expression) -> bool {
    e.kind is Variable || e.kind is Access || e.kind is ArrayAccess
}

/// The operator that compares the same way with its operands swapped; none
/// for operators that are symmetric.
pub open spec fn flipped(op: BinaryOperator) -> Option<BinaryOperator> {
    match op {
        BinaryOperator::LessThan => Some(BinaryOperator::GreaterThan),
        BinaryOperator::LessThanOrEqual => Some(BinaryOperator::GreaterThanOrEqual),
        BinaryOperator::GreaterThan => Some(BinaryOperator::LessThan),
        BinaryOperator::GreaterThanOrEqual => Some(BinaryOperator::LessThanOrEqual),
        _ => None,
    }
}

/// How a comparison operator is written.
pub open spec fn comparison_text(op: BinaryOperator) -> Seq<u8> {
    match op {
        BinaryOperator::LessThan => utf8("<"),
        BinaryOperator::LessThanOrEqual => utf8("<="),
        BinaryOperator::GreaterThan => utf8(">"),
        _ => utf8(">="),
    }
}

/// The rule reports the comparison: in Yoda style an equality with a
/// variable on the left and a constant on the right; in non-Yoda style an
/// equality or comparison with a constant on the left and a variable on
/// the right.
pub open spec fn yoda_reports(style: YodaConditionsStyle, b: Binary) -> bool {
    match style {
        YodaConditionsStyle::Yoda => is_equality(b.operator) && writable_variable(b.lhs)
            && constant_like(b.rhs),
        YodaConditionsStyle::NonYoda => (is_equality(b.operator) || is_comparison(b.operator))
            && constant_like(b.lhs) && writable_variable(b.rhs),
    }
}

/// Loose and strict equality are reported alike: for `==`, `!=`, `===`,
/// `!==` and `<>`, putting one of these operators in place of another never
/// changes whether the comparison is reported. In Yoda style such a
/// comparison is reported exactly when a writable variable is on the left
/// and a constant on the right; in non-Yoda style exactly when a constant is
/// on the left and a writable variable on the right.
pub proof fn lemma_yoda_equality_operators(style: YodaConditionsStyle, b: Binary, op: BinaryOperator)
    requires
        b.operator is Equal || b.operator is NotEqual || b.operator is Identical
            || b.operator is NotIdentical || b.operator is AngledNotEqual,
        op is Equal || op is NotEqual || op is Identical || op is NotIdentical
            || op is AngledNotEqual,
    ensures
        yoda_reports(style, b) == yoda_reports(
            style,
            (Binary { lhs: b.lhs, operator: op, operator_span: b.operator_span, rhs: b.rhs }),
        ),
        yoda_reports(YodaConditionsStyle::Yoda, b) <==> writable_variable(b.lhs) && constant_like(
            b.rhs,
        ),
        yoda_reports(YodaConditionsStyle::NonYoda, b) <==> constant_like(b.lhs)
            && writable_variable(b.rhs),
{
}

/// Order comparisons (`<`, `<=`, `>`, `>=`) are never reported in Yoda
/// style; in non-Yoda style they are reported exactly when a constant is on
/// the left and a writable variable on the right.
pub proof fn lemma_yoda_order_comparisons(b: Binary)
    requires
        b.operator is LessThan || b.operator is LessThanOrEqual || b.operator is GreaterThan
            || b.operator is GreaterThanOrEqual,
    ensures
        !yoda_reports(YodaConditionsStyle::Yoda, b),
        yoda_reports(YodaConditionsStyle::NonYoda, b) <==> constant_like(b.lhs)
            && writable_variable(b.rhs),
{
}

/// No comparison is reported in both styles, and `instanceof` and other
/// operators are reported in neither.
pub proof fn lemma_yoda_styles_exclusive(b: Binary)
    ensures
        !(yoda_reports(YodaConditionsStyle::Yoda, b) && yoda_reports(
            YodaConditionsStyle::NonYoda,
            b,
        )),
        (b.operator is Instanceof || b.operator is Other) ==> !yoda_reports(
            YodaConditionsStyle::Yoda,
            b,
        ) && !yoda_reports(YodaConditionsStyle::NonYoda, b),
{
}

/// Variables, property accesses and array accesses are the operands that
/// can be written to; literals, constants, magic constants and array
/// literals are the constant operands; no operand is both, and any other
/// expression (a call, a name, `throw`, ...) is neither.
pub proof fn lemma_operand_kinds(e: Expression)
    ensures
        writable_variable(e) <==> (e.kind is Variable || e.kind is Access || e.kind is ArrayAccess),
        constant_like(e) <==> (e.kind is Literal || e.kind is ConstantAccess
            || e.kind is MagicConstant || e.kind is Array || e.kind is LegacyArray),
        !(writable_variable(e) && constant_like(e)),
{
}

/// The span lies within the source.
pub open spec fn span_in(source: Seq<u8>, s: Span) -> bool {
    s.start <= s.end <= source.len()
}

/// The source text of a span.
pub open spec fn text_of(source: Seq<u8>, s: Span) -> Seq<u8> {
    source.subrange(s.start as int, s.end as int)
}

/// The fix: swap the operand texts, and flip a comparison operator.
pub open spec fn swap_edits(source: Seq<u8>, b: Binary) -> Seq<EditSpec> {
    let swapped = seq![
        EditSpec { start: b.rhs.span.start, end: b.rhs.span.end, text: text_of(source, b.lhs.span) },
        EditSpec { start: b.lhs.span.start, end: b.lhs.span.end, text: text_of(source, b.rhs.span) },
    ];
    match flipped(b.operator) {
        Some(f) => swapped.push(
            EditSpec {
                start: b.operator_span.start,
                end: b.operator_span.end,
                text: comparison_text(f),
            },
        ),
        None => swapped,
    }
}

/// The issue for a reported comparison.
pub open spec fn yoda_issue(
    level: Level,
    style: YodaConditionsStyle,
    source: Seq<u8>,
    b: Binary,
) -> IssueSpec {
    let yoda = style is Yoda;
    IssueSpec {
        level,
        code: utf8("yoda-conditions"),
        message: if yoda {
            utf8("Use Yoda condition style for safer comparisons")
        } else {
            utf8("Use non-Yoda condition style for readability")
        },
        annotations: seq![
            AnnotationSpec {
                span: b.operator_span,
                message: if yoda {
                    utf8("Variable should be on the right side")
                } else {
                    utf8("Variable should be on the left side")
                },
                primary: true,
            },
        ],
        notes: seq![
            if yoda {
                utf8(
                    "Yoda conditions help prevent accidental assignment bugs where `=` is used instead of `==`",
                )
            } else {
                utf8("Non-Yoda conditions read more naturally: `$count === 5`")
            },
        ],
        help: Some(
            if yoda {
                utf8("Move constant/literal to left: `5 === $count`")
            } else {
                utf8("Move variable to left side of comparison")
            },
        ),
        edits: Some(swap_edits(source, b)),
    }
}

/// Whether the expression is constant-like.
pub fn is_constant_like(expr: &Expression) -> (r: bool)
    ensures
        r == constant_like(*expr),
{
    matches!(
        expr.kind,
        ExprKind::Literal(_) | ExprKind::ConstantAccess | ExprKind::MagicConstant | ExprKind::Array
            | ExprKind::LegacyArray
    )
}

/// Whether the expression is a writable variable.
pub fn is_writable_variable(expr: &Expression) -> (r: bool)
    ensures
        r == writable_variable(*expr),
{
    matches!(expr.kind, ExprKind::Variable | ExprKind::Access | ExprKind::ArrayAccess)
}

/// The text of the flipped comparison operator, or none for other operators.
pub fn flip_comparison_operator(op: BinaryOperator) -> (r: Option<&'static str>)
    ensures
        match (r, flipped(op)) {
            (Some(t), Some(f)) => utf8(t) == comparison_text(f),
            (None, None) => true,
            _ => false,
        },
{
    match op {
        BinaryOperator::LessThan => Some(">"),
        BinaryOperator::LessThanOrEqual => Some(">="),
        BinaryOperator::GreaterThan => Some("<"),
        BinaryOperator::GreaterThanOrEqual => Some("<="),
        _ => None,
    }
}

/// The edits that swap the operands (and flip a comparison operator).
pub fn build_swap_edits(source: &[u8], binary: &Binary) -> (r: Vec<TextEdit>)
    requires
        span_in(source@, binary.lhs.span),
        span_in(source@, binary.rhs.span),
    ensures
        edit_views(r@) == swap_edits(source@, *binary),
{
    let rhs = binary.rhs.span;
    let lhs = binary.lhs.span;
    let right_side = copy_range(source, rhs.start as usize, rhs.end as usize);
    let left_side = copy_range(source, lhs.start as usize, lhs.end as usize);
    let mut edits: Vec<TextEdit> = Vec::new();
    edits.push(TextEdit::replace(rhs, left_side));
    edits.push(TextEdit::replace(lhs, right_side));
    let ghost e2 = edits@;
    if let Some(flipped_text) = flip_comparison_operator(binary.operator) {
        edits.push(TextEdit::replace(binary.operator_span, bytes_of(flipped_text)));
        assert(edit_views(edits@) =~= edit_views(e2).push(edits@.last()@));
    }
    assert(edit_views(edits@) =~= swap_edits(source@, *binary));
    edits
}

/// Flipping a comparison twice gives it back, and only comparisons
/// are flipped.
pub proof fn lemma_flip_involution(op: BinaryOperator)
    ensures
        is_comparison(op) <==> flipped(op) is Some,
        flipped(op) matches Some(f) ==> is_comparison(f) && flipped(f) == Some(op) && f != op,
{
}

/// In Yoda style, ordering comparisons are never reported, and a
/// comparison is never reported in both styles.
pub proof fn lemma_styles_exclusive(b: Binary)
    ensures
        is_comparison(b.operator) ==> !yoda_reports(YodaConditionsStyle::Yoda, b),
        !(yoda_reports(YodaConditionsStyle::Yoda, b) && yoda_reports(
            YodaConditionsStyle::NonYoda,
            b,
        )),
{
}

impl YodaConditionsRule {
    /// What the rule says about itself: its name, code, description,
    /// examples and category.
    pub open spec fn rule_meta() -> RuleMeta {
        RuleMeta {
            name: "Yoda Conditions",
            code: "yoda-conditions",
            description: "This rule enforces a consistent condition style for comparisons. In \"yoda\" mode (default),\nthe constant should always be on the left side. In \"non-yoda\" mode, the variable should\nalways be on the left side.\n",
            good_example: "<?php\n\nif ( true === $is_active ) { /* ... */ }\nif ( 5 === $count ) { /* ... */ }\n",
            bad_example: "<?php\n\nif ( $is_active === true ) { /* ... */ }\n",
            category: Category::BestPractices,
        }
    }

    /// What the rule says about itself.
    pub fn meta() -> (r: RuleMeta)
        ensures
            r == Self::rule_meta(),
    {
        RuleMeta {
            name: "Yoda Conditions",
            code: "yoda-conditions",
            description: "This rule enforces a consistent condition style for comparisons. In \"yoda\" mode (default),\nthe constant should always be on the left side. In \"non-yoda\" mode, the variable should\nalways be on the left side.\n",
            good_example: "<?php\n\nif ( true === $is_active ) { /* ... */ }\nif ( 5 === $count ) { /* ... */ }\n",
            bad_example: "<?php\n\nif ( $is_active === true ) { /* ... */ }\n",
            category: Category::BestPractices,
        }
    }

    /// The rule with the given settings.
    pub fn build(cfg: YodaConditionsConfig) -> (r: Self)
        ensures
            r.cfg == cfg,
            r.meta == Self::rule_meta(),
    {
        Self { meta: Self::meta(), cfg }
    }

    /// The kinds of node the rule is run on.
    pub fn targets() -> (r: Vec<NodeKind>)
        ensures
            r@ == seq![NodeKind::Binary],
    {
        let mut v: Vec<NodeKind> = Vec::new();
        v.push(NodeKind::Binary);
        v
    }

    /// The issue for a binary expression of `source`, if the rule reports it.
    pub fn check(&self, source: &[u8], binary: &Binary) -> (r: Option<Issue>)
        requires
            yoda_reports(self.cfg.style, *binary) ==> span_in(source@, binary.lhs.span) && span_in(
                source@,
                binary.rhs.span,
            ),
        ensures
            match r {
                Some(i) => yoda_reports(self.cfg.style, *binary) && i@ == yoda_issue(
                    self.cfg.level,
                    self.cfg.style,
                    source@,
                    *binary,
                ),
                None => !yoda_reports(self.cfg.style, *binary),
            },
    {
        let op = binary.operator;
        let is_equality = matches!(
            op,
            BinaryOperator::Equal | BinaryOperator::NotEqual | BinaryOperator::Identical
                | BinaryOperator::NotIdentical | BinaryOperator::AngledNotEqual
        );
        let is_comparison = matches!(
            op,
            BinaryOperator::LessThan | BinaryOperator::LessThanOrEqual
                | BinaryOperator::GreaterThan | BinaryOperator::GreaterThanOrEqual
        );
        if !is_equality && !is_comparison {
            return None;
        }
        let left_is_variable = is_writable_variable(&binary.lhs);
        let right_is_constant = is_constant_like(&binary.rhs);
        let left_is_constant = is_constant_like(&binary.lhs);
        let right_is_variable = is_writable_variable(&binary.rhs);
        match self.cfg.style {
            YodaConditionsStyle::Yoda => {
                if !is_equality {
                    return None;
                }
                if left_is_variable && right_is_constant {
                    let issue = Issue::new(
                        self.cfg.level(),
                        bytes_of("Use Yoda condition style for safer comparisons"),
                    ).with_code(bytes_of(Self::meta().code)).with_annotation(
                        Annotation::primary(
                            binary.operator_span,
                            bytes_of("Variable should be on the right side"),
                        ),
                    ).with_note(
                        bytes_of(
                            "Yoda conditions help prevent accidental assignment bugs where `=` is used instead of `==`",
                        ),
                    ).with_help(bytes_of("Move constant/literal to left: `5 === $count`"));
                    let r = issue.with_edits(build_swap_edits(source, binary));
                    let ghost want = yoda_issue(self.cfg.level, self.cfg.style, source@, *binary);
                    assert(r@.annotations =~= want.annotations);
                    assert(r@.notes =~= want.notes);
                    return Some(r);
                }
                None
            },
            YodaConditionsStyle::NonYoda => {
                if left_is_constant && right_is_variable {
                    let issue = Issue::new(
                        self.cfg.level(),
                        bytes_of("Use non-Yoda condition style for readability"),
                    ).with_code(bytes_of(Self::meta().code)).with_annotation(
                        Annotation::primary(
                            binary.operator_span,
                            bytes_of("Variable should be on the left side"),
                        ),
                    ).with_note(bytes_of("Non-Yoda conditions read more naturally: `$count === 5`"))
                        .with_help(bytes_of("Move variable to left side of comparison"));
                    let r = issue.with_edits(build_swap_edits(source, binary));
                    let ghost want = yoda_issue(self.cfg.level, self.cfg.style, source@, *binary);
                    assert(r@.annotations =~= want.annotations);
                    assert(r@.notes =~= want.notes);
                    return Some(r);
                }
                None
            },
        }
    }
}

} // verus!
