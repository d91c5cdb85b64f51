//! An untyped property is `null` already; `= null` is redundant.
use vstd::prelude::*;

use crate::lint::ast::{ExprKind, LiteralKind, PlainProperty, PropertyItem};
use crate::lint::meta::{Category, NodeKind, RuleMeta};
use crate::lint::report::{
    bytes_of, issue_views, utf8, Annotation, AnnotationSpec, EditSpec, Issue, IssueSpec, Level,
    TextEdit,
};

verus! {

/// The settings of the rule.
#[derive(Debug, Clone, Copy, PartialEq, Eq, Hash)]
pub struct NoNullPropertyInitConfig {
    pub level: Level,
}

impl Default for NoNullPropertyInitConfig {
    fn default() -> (r: Self)
        ensures
            r.level == Level::Help,
    {
        Self { level: Level::Help }
    }
}

impl NoNullPropertyInitConfig {
    /// The rule is off unless enabled.
    pub fn default_enabled() -> (r: bool)
        ensures
            !r,
    {
        false
    }

    /// The level of the issues it reports.
    pub fn level(&self) -> (r: Level)
        ensures
            r == self.level,
    {
        self.level
    }
}

/// The rule with its settings.
#[derive(Debug, Clone, Copy)]
pub struct NoNullPropertyInitRule {
    pub meta: RuleMeta,
    pub cfg: NoNullPropertyInitConfig,
}

/// The item is initialized with the literal `null`.
pub open spec fn null_initialized(item: PropertyItem) -> bool {
    match item {
        PropertyItem::Concrete { value, .. } => value.kind matches ExprKind::Literal(
            LiteralKind::Null,
        ),
        _ => false,
    }
}

/// The issue for an item initialized with `null`, with the fix that deletes
/// `= null`.
pub open spec fn null_init_issue(level: Level, item: PropertyItem) -> IssueSpec {
    let (equals, value) = match item {
        PropertyItem::Concrete { equals, value, .. } => (equals, value.span),
        PropertyItem::Abstract { variable } => (variable, variable),
    };
    IssueSpec {
        level,
        code: utf8("no-null-property-init"),
        message: utf8("Redundant `= null` initialization on untyped property"),
        annotations: seq![
            AnnotationSpec {
                span: value,
                message: utf8("This `= null` is redundant"),
                primary: true,
            },
        ],
        notes: seq![utf8("Untyped properties default to `null` without explicit initialization.")],
        help: Some(utf8("Remove the `= null` assignment")),
        edits: Some(seq![EditSpec { start: equals.start, end: value.end, text: Seq::empty() }]),
    }
}

/// The issues for the items of `items`, in order.
pub open spec fn null_init_issues(level: Level, items: Seq<PropertyItem>) -> Seq<IssueSpec>
    decreases items.len(),
{
    if items.len() == 0 {
        Seq::empty()
    } else {
        let prev = null_init_issues(level, items.drop_last());
        if null_initialized(items.last()) {
            prev.push(null_init_issue(level, items.last()))
        } else {
            prev
        }
    }
}

impl NoNullPropertyInitRule {
    /// What the rule says about itself: its name, code, description,
    /// examples and category.
    pub open spec fn rule_meta() -> RuleMeta {
        RuleMeta {
            name: "No Null Property Initialization",
            code: "no-null-property-init",
            description: "Detects redundant `= null` initialization on untyped properties.\n\nUntyped properties already default to `null`, making an explicit\n`= null` initializer unnecessary.\n",
            good_example: "<?php\n\nclass Foo {\n    public $name;\n}\n",
            bad_example: "<?php\n\nclass Foo {\n    public $name = null;\n}\n",
            category: Category::Redundancy,
        }
    }

    /// What the rule says about itself.
    pub fn meta() -> (r: RuleMeta)
        ensures
            r == Self::rule_meta(),
    {
        RuleMeta {
            name: "No Null Property Initialization",
            code: "no-null-property-init",
            description: "Detects redundant `= null` initialization on untyped properties.\n\nUntyped properties already default to `null`, making an explicit\n`= null` initializer unnecessary.\n",
            good_example: "<?php\n\nclass Foo {\n    public $name;\n}\n",
            bad_example: "<?php\n\nclass Foo {\n    public $name = null;\n}\n",
            category: Category::Redundancy,
        }
    }

    /// The rule with the given settings.
    pub fn build(cfg: NoNullPropertyInitConfig) -> (r: Self)
        ensures
            r.cfg == cfg,
            r.meta == Self::rule_meta(),
    {
        Self { meta: Self::meta(), cfg }
    }

    /// The kinds of node the rule is run on.
    pub fn targets() -> (r: Vec<NodeKind>)
        ensures
            r@ == seq![NodeKind::PlainProperty],
    {
        let mut v: Vec<NodeKind> = Vec::new();
        v.push(NodeKind::PlainProperty);
        v
    }

    /// The issues of a property declaration: none for a typed property (it
    /// would be left uninitialized without the initializer), else one per item
    /// initialized with `null`.
    pub fn check(&self, property: &PlainProperty) -> (r: Vec<Issue>)
        ensures
            issue_views(r@) == if property.has_hint {
                Seq::empty()
            } else {
                null_init_issues(self.cfg.level, property.items@)
            },
    {
        let mut issues: Vec<Issue> = Vec::new();
        if property.has_hint {
            assert(issue_views(issues@) =~= Seq::<IssueSpec>::empty());
            return issues;
        }
        let items = &property.items;
        let mut i: usize = 0;
        while i < items.len()
            invariant
                i <= items@.len(),
                issue_views(issues@) == null_init_issues(self.cfg.level, items@.take(i as int)),
            decreases items@.len() - i,
        {
            let item = &items[i];
            assert(items@.take(i + 1).drop_last() =~= items@.take(i as int));
            assert(items@.take(i + 1).last() == *item);
            if let PropertyItem::Concrete { variable, equals, value } = item {
                if let ExprKind::Literal(LiteralKind::Null) = &value.kind {
                    let issue = Issue::new(
                        self.cfg.level(),
                        bytes_of("Redundant `= null` initialization on untyped property"),
                    ).with_code(bytes_of(Self::meta().code)).with_annotation(
                        Annotation::primary(value.span, bytes_of("This `= null` is redundant")),
                    ).with_note(
                        bytes_of("Untyped properties default to `null` without explicit initialization."),
                    ).with_help(bytes_of("Remove the `= null` assignment"));
                    let mut edits: Vec<TextEdit> = Vec::new();
                    edits.push(TextEdit::delete(equals.start, value.span.end));
                    let issue = issue.with_edits(edits);
                    let ghost want = null_init_issue(self.cfg.level, *item);
                    assert(issue@.annotations =~= want.annotations);
                    assert(issue@.notes =~= want.notes);
                    assert(issue@.edits->0 =~= want.edits->0);
                    let ghost i0 = issues@;
                    issues.push(issue);
                    assert(issue_views(issues@) =~= issue_views(i0).push(issue@));
                }
            }
            i = i + 1;
        }
        assert(items@.take(i as int) =~= items@);
        issues
    }
}

} // verus!
