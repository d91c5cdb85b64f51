//! What each rule says about itself.
use vstd::prelude::*;

verus! {

/// The category a rule belongs to.
#[derive(Debug, Clone, Copy, PartialEq, Eq, Structural)]
pub enum Category {
    BestPractices,
    Consistency,
    Correctness,
    Maintainability,
    Redundancy,
    Safety,
}

/// The name, code, description and examples of a rule.
#[derive(Debug, Clone, Copy)]
pub struct RuleMeta {
    pub name: &'static str,
    pub code: &'static str,
    pub description: &'static str,
    pub good_example: &'static str,
    pub bad_example: &'static str,
    pub category: Category,
}

/// The kinds of syntax node that a rule asks to be shown.
#[derive(Debug, Clone, Copy, PartialEq, Eq, Structural)]
pub enum NodeKind {
    Program,
    Binary,
    Closure,
    Declare,
    ExpressionStatement,
    For,
    Foreach,
    If,
    PlainProperty,
    Switch,
    UseItem,
    While,
}

} // verus!
