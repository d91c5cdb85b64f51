//! Control structures are written with braces, not `:` ... `endif;`.
use vstd::prelude::*;

use crate::lint::ast::{ControlKind, ControlStructure};
use crate::lint::meta::{Category, NodeKind, RuleMeta};
use crate::lint::report::{
    bytes_of, utf8, Annotation, AnnotationSpec, Issue, IssueSpec, Level, Span,
};
use crate::text::push_all;

verus! {

/// The settings of the rule.
#[derive(Debug, Clone, Copy, PartialEq, Eq, Hash)]
pub struct NoAlternativeSyntaxConfig {
    pub level: Level,
}

impl Default for NoAlternativeSyntaxConfig {
    fn default() -> (r: Self)
        ensures
            r.level == Level::Warning,
    {
        Self { level: Level::Warning }
    }
}

impl NoAlternativeSyntaxConfig {
    /// The rule is off unless enabled.
    pub fn default_enabled() -> (r: bool)
        ensures
            !r,
    {
        false
    }

    /// The level of the issues it reports.
    pub fn level(&self) -> (r: Level)
        ensures
            r == self.level,
    {
        self.level
    }
}

/// The rule with its settings.
#[derive(Debug, Clone, Copy)]
pub struct NoAlternativeSyntaxRule {
    pub meta: RuleMeta,
    pub cfg: NoAlternativeSyntaxConfig,
}

/// The keyword of a control structure.
pub open spec fn keyword_of(kind: ControlKind) -> Seq<u8> {
    match kind {
        ControlKind::If => utf8("if"),
        ControlKind::While => utf8("while"),
        ControlKind::For => utf8("for"),
        ControlKind::Foreach => utf8("foreach"),
        ControlKind::Switch => utf8("switch"),
        ControlKind::Declare => utf8("declare"),
    }
}

/// The issue for a structure written with the colon syntax, at its closing
/// keyword.
pub open spec fn alternative_issue(level: Level, kind: ControlKind, end_keyword: Span) -> IssueSpec {
    let k = keyword_of(kind);
    IssueSpec {
        level,
        code: utf8("no-alternative-syntax"),
        message: utf8("Do not use alternative syntax `end") + k + utf8("`"),
        annotations: seq![
            AnnotationSpec {
                span: end_keyword,
                message: utf8("`end") + k + utf8("` \u{2014} use brace syntax instead"),
                primary: true,
            },
        ],
        notes: Seq::empty(),
        help: Some(
            utf8("Replace the colon-delimited `") + k + utf8(":...end") + k + utf8(
                ";` with brace syntax `",
            ) + k + utf8(" { ... }`"),
        ),
        edits: None,
    }
}

/// The keyword of a control structure.
pub fn keyword_text(kind: ControlKind) -> (r: &'static str)
    ensures
        utf8(r) == keyword_of(kind),
{
    match kind {
        ControlKind::If => "if",
        ControlKind::While => "while",
        ControlKind::For => "for",
        ControlKind::Foreach => "foreach",
        ControlKind::Switch => "switch",
        ControlKind::Declare => "declare",
    }
}

impl NoAlternativeSyntaxRule {
    /// What the rule says about itself: its name, code, description,
    /// examples and category.
    pub open spec fn rule_meta() -> RuleMeta {
        RuleMeta {
            name: "No Alternative Syntax",
            code: "no-alternative-syntax",
            description: "Detects the use of alternative syntax for control structures\n(`endif`, `endwhile`, `endfor`, `endforeach`, `endswitch`).\n\nThe brace-style syntax is preferred for consistency with the rest\nof the codebase and is the convention used by the Symfony coding standards.\n",
            good_example: "<?php\n\nif ($condition) {\n    echo 'yes';\n}\n",
            bad_example: "<?php\n\nif ($condition):\n    echo 'yes';\nendif;\n",
            category: Category::Consistency,
        }
    }

    /// What the rule says about itself.
    pub fn meta() -> (r: RuleMeta)
        ensures
            r == Self::rule_meta(),
    {
        RuleMeta {
            name: "No Alternative Syntax",
            code: "no-alternative-syntax",
            description: "Detects the use of alternative syntax for control structures\n(`endif`, `endwhile`, `endfor`, `endforeach`, `endswitch`).\n\nThe brace-style syntax is preferred for consistency with the rest\nof the codebase and is the convention used by the Symfony coding standards.\n",
            good_example: "<?php\n\nif ($condition) {\n    echo 'yes';\n}\n",
            bad_example: "<?php\n\nif ($condition):\n    echo 'yes';\nendif;\n",
            category: Category::Consistency,
        }
    }

    /// The rule with the given settings.
    pub fn build(cfg: NoAlternativeSyntaxConfig) -> (r: Self)
        ensures
            r.cfg == cfg,
            r.meta == Self::rule_meta(),
    {
        Self { meta: Self::meta(), cfg }
    }

    /// The kinds of node the rule is run on.
    pub fn targets() -> (r: Vec<NodeKind>)
        ensures
            r@ == seq![NodeKind::If, NodeKind::While, NodeKind::For, NodeKind::Foreach, NodeKind::Switch, NodeKind::Declare],
    {
        let mut v: Vec<NodeKind> = Vec::new();
        v.push(NodeKind::If);
        v.push(NodeKind::While);
        v.push(NodeKind::For);
        v.push(NodeKind::Foreach);
        v.push(NodeKind::Switch);
        v.push(NodeKind::Declare);
        v
    }

    /// The issue for a control structure, if it is written with the colon
    /// syntax.
    pub fn check(&self, node: &ControlStructure) -> (r: Option<Issue>)
        ensures
            match (r, node.end_keyword) {
                (Some(i), Some(end)) => i@ == alternative_issue(self.cfg.level, node.kind, end),
                (None, None) => true,
                _ => false,
            },
    {
        match node.end_keyword {
            Some(end) => Some(self.report(keyword_text(node.kind), end)),
            None => None,
        }
    }

    /// The issue for the closing keyword `end_keyword_span` of a structure
    /// with keyword `keyword`.
    fn report(&self, keyword: &str, end_keyword_span: Span) -> (r: Issue)
        ensures
            forall|kind: ControlKind|
                keyword_of(kind) == utf8(keyword) ==> r@ == #[trigger] alternative_issue(
                    self.cfg.level,
                    kind,
                    end_keyword_span,
                ),
    {
        let k = keyword.as_bytes();
        let mut message = bytes_of("Do not use alternative syntax `end");
        push_all(&mut message, k);
        push_all(&mut message, "`".as_bytes());
        let mut note = bytes_of("`end");
        push_all(&mut note, k);
        push_all(&mut note, "` \u{2014} use brace syntax instead".as_bytes());
        let mut help = bytes_of("Replace the colon-delimited `");
        push_all(&mut help, k);
        push_all(&mut help, ":...end".as_bytes());
        push_all(&mut help, k);
        push_all(&mut help, ";` with brace syntax `".as_bytes());
        push_all(&mut help, k);
        push_all(&mut help, " { ... }`".as_bytes());
        let r = Issue::new(self.cfg.level(), message).with_code(bytes_of(Self::meta().code))
            .with_annotation(Annotation::primary(end_keyword_span, note)).with_help(help);
        assert forall|kind: ControlKind|
            keyword_of(kind) == utf8(keyword) implies r@ == #[trigger] alternative_issue(
            self.cfg.level,
            kind,
            end_keyword_span,
        ) by {
            let want = alternative_issue(self.cfg.level, kind, end_keyword_span);
            assert(r@.annotations =~= want.annotations);
            assert(r@.message =~= want.message);
            assert(r@.help->0 =~= want.help->0);
        }
        r
    }
}

} // verus!
