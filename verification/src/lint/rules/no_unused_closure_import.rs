//! Variables imported into a closure must be used in it.
use vstd::prelude::*;

use crate::lint::ast::{ClosureExpr, ClosureUseVariable, Node};
use crate::lint::meta::{Category, NodeKind, RuleMeta};
use crate::lint::report::{
    bytes_of, issue_views, utf8, Annotation, AnnotationSpec, Issue, IssueSpec, Level,
};
use crate::lint::rules::no_unneeded_import_alias::bytes_eq;
use crate::text::push_all;

verus! {

/// The settings of the rule.
#[derive(Debug, Clone, Copy, PartialEq, Eq, Hash)]
pub struct NoUnusedClosureImportConfig {
    pub level: Level,
}

impl Default for NoUnusedClosureImportConfig {
    fn default() -> (r: Self)
        ensures
            r.level == Level::Warning,
    {
        Self { level: Level::Warning }
    }
}

impl NoUnusedClosureImportConfig {
    /// The rule is off unless enabled.
    pub fn default_enabled() -> (r: bool)
        ensures
            !r,
    {
        false
    }

    /// The level of the issues it reports.
    pub fn level(&self) -> (r: Level)
        ensures
            r == self.level,
    {
        self.level
    }
}

/// The rule with its settings.
#[derive(Debug, Clone, Copy)]
pub struct NoUnusedClosureImportRule {
    pub meta: RuleMeta,
    pub cfg: NoUnusedClosureImportConfig,
}

/// One of `names` is `v`.
pub open spec fn name_in(names: Seq<Vec<u8>>, v: Seq<u8>) -> bool {
    exists|i: int| 0 <= i < names.len() && names[i]@ == v
}

/// The node reads the variable `v` of the closure: it is `v`, or a nested
/// closure imports `v`, or an arrow function (that has no parameter `v`)
/// reads it, or a child does. Declarations, `global`, anonymous classes and
/// the names that `catch` and `static` bind do not count.
pub open spec fn uses_var(n: Node, v: Seq<u8>) -> bool
    decreases n,
{
    match n {
        Node::DirectVariable { name } => name@ == v,
        Node::Closure { use_variables } => name_in(use_variables@, v),
        Node::ArrowFunction { parameters, expression } => !name_in(parameters@, v) && uses_var(
            *expression,
            v,
        ),
        Node::TryCatchClause { block } => uses_var(*block, v),
        Node::StaticAbstractItem => false,
        Node::StaticConcreteItem { value } => uses_var(*value, v),
        Node::Global | Node::AnonymousClass | Node::Declaration => false,
        Node::Other { children } => any_uses(children@, v),
    }
}

/// Some node of `ns` reads `v`.
pub open spec fn any_uses(ns: Seq<Node>, v: Seq<u8>) -> bool
    decreases ns,
{
    ns.len() > 0 && (any_uses(ns.subrange(0, ns.len() - 1), v) || uses_var(ns[ns.len() - 1], v))
}

/// The `use` variable is unused: imported by value and read nowhere in the body.
pub open spec fn unused_import(u: ClosureUseVariable, body: Seq<Node>) -> bool {
    !u.by_reference && !any_uses(body, u.name@)
}

/// The issue for an unused import.
pub open spec fn unused_issue(level: Level, u: ClosureUseVariable) -> IssueSpec {
    IssueSpec {
        level,
        code: utf8("no-unused-closure-import"),
        message: utf8("Unused closure import `") + u.name@ + utf8("`"),
        annotations: seq![
            AnnotationSpec {
                span: u.span,
                message: utf8("This variable is imported but never used in the closure body"),
                primary: true,
            },
        ],
        notes: Seq::empty(),
        help: Some(utf8("Remove `") + u.name@ + utf8("` from the `use` clause")),
        edits: None,
    }
}

/// The issues for the first `n` variables of a `use` clause.
pub open spec fn unused_issues(
    level: Level,
    uses: Seq<ClosureUseVariable>,
    body: Seq<Node>,
    n: int,
) -> Seq<IssueSpec>
    decreases n,
{
    if n <= 0 {
        Seq::empty()
    } else {
        let prev = unused_issues(level, uses, body, n - 1);
        if unused_import(uses[n - 1], body) {
            prev.push(unused_issue(level, uses[n - 1]))
        } else {
            prev
        }
    }
}

/// The number of the first `n` imports that are unused.
pub open spec fn count_unused(uses: Seq<ClosureUseVariable>, body: Seq<Node>, n: int) -> nat
    decreases n,
{
    if n <= 0 {
        0
    } else {
        count_unused(uses, body, n - 1) + if unused_import(uses[n - 1], body) {
            1nat
        } else {
            0nat
        }
    }
}

/// The rule reports each import that is taken by value and read nowhere in
/// the body once, and nothing else: never an import by reference, never an
/// import that the body reads.
pub proof fn lemma_one_issue_per_unused_import(
    level: Level,
    uses: Seq<ClosureUseVariable>,
    body: Seq<Node>,
    n: int,
)
    requires
        0 <= n <= uses.len(),
    ensures
        unused_issues(level, uses, body, n).len() == count_unused(uses, body, n),
        forall|i: int|
            0 <= i < uses.len() && (uses[i].by_reference || any_uses(body, uses[i].name@))
                ==> !#[trigger] unused_import(uses[i], body),
    decreases n,
{
    if n > 0 {
        lemma_one_issue_per_unused_import(level, uses, body, n - 1);
    }
}

/// Whether one of `names` is `var_name`.
fn contains_name(names: &Vec<Vec<u8>>, var_name: &[u8]) -> (r: bool)
    ensures
        r == name_in(names@, var_name@),
{
    let mut i: usize = 0;
    while i < names.len()
        invariant
            i <= names@.len(),
            forall|k: int| 0 <= k < i ==> names@[k]@ != var_name@,
        decreases names@.len() - i,
    {
        if bytes_eq(names[i].as_slice(), var_name) {
            return true;
        }
        i = i + 1;
    }
    false
}

/// Whether the node reads `var_name`.
pub fn node_uses_variable(node: &Node, var_name: &[u8]) -> (r: bool)
    ensures
        r == uses_var(*node, var_name@),
    decreases node, 1nat,
{
    match node {
        Node::DirectVariable { name } => bytes_eq(name.as_slice(), var_name),
        Node::Closure { use_variables } => closure_uses_variable(use_variables, var_name),
        Node::ArrowFunction { parameters, expression } => arrow_function_uses_variable(
            parameters,
            expression,
            var_name,
        ),
        Node::TryCatchClause { block } => node_uses_variable(block, var_name),
        Node::StaticAbstractItem => false,
        Node::StaticConcreteItem { value } => node_uses_variable(value, var_name),
        Node::Global | Node::AnonymousClass | Node::Declaration => false,
        Node::Other { children } => nodes_use_variable(children.as_slice(), var_name),
    }
}

/// A nested closure reads `var_name` when its `use` clause imports it.
pub fn closure_uses_variable(use_variables: &Vec<Vec<u8>>, var_name: &[u8]) -> (r: bool)
    ensures
        r == name_in(use_variables@, var_name@),
{
    contains_name(use_variables, var_name)
}

/// An arrow function reads `var_name` when it has no parameter of that name
/// and its expression reads it.
pub fn arrow_function_uses_variable(
    parameters: &Vec<Vec<u8>>,
    expression: &Box<Node>,
    var_name: &[u8],
) -> (r: bool)
    ensures
        r == (!name_in(parameters@, var_name@) && uses_var(**expression, var_name@)),
    decreases **expression, 2nat,
{
    if contains_name(parameters, var_name) {
        return false;
    }
    node_uses_variable(expression, var_name)
}

/// Whether some node of `nodes` reads `var_name`.
pub fn nodes_use_variable(nodes: &[Node], var_name: &[u8]) -> (r: bool)
    ensures
        r == any_uses(nodes@, var_name@),
    decreases nodes@, 1nat,
{
    let mut i: usize = 0;
    while i < nodes.len()
        invariant
            i <= nodes@.len(),
            !any_uses(nodes@.subrange(0, i as int), var_name@),
        decreases nodes@.len() - i,
    {
        let u = node_uses_variable(&nodes[i], var_name);
        proof {
            let pre = nodes@.subrange(0, i + 1);
            assert(pre.subrange(0, pre.len() - 1) =~= nodes@.subrange(0, i as int));
            assert(pre[pre.len() - 1] == nodes@[i as int]);
        }
        if u {
            proof {
                lemma_any_uses_prefix(nodes@, i + 1, var_name@);
            }
            return true;
        }
        i = i + 1;
    }
    assert(nodes@.subrange(0, i as int) =~= nodes@);
    false
}

/// A list reads `v` when a prefix of it does.
pub proof fn lemma_any_uses_prefix(ns: Seq<Node>, n: int, v: Seq<u8>)
    requires
        0 <= n <= ns.len(),
        any_uses(ns.subrange(0, n), v),
    ensures
        any_uses(ns, v),
    decreases ns.len() - n,
{
    if n < ns.len() {
        let pre = ns.subrange(0, n + 1);
        assert(pre.subrange(0, pre.len() - 1) =~= ns.subrange(0, n));
        lemma_any_uses_prefix(ns, n + 1, v);
    } else {
        assert(ns.subrange(0, n) =~= ns);
    }
}

impl NoUnusedClosureImportRule {
    /// What the rule says about itself: its name, code, description,
    /// examples and category.
    pub open spec fn rule_meta() -> RuleMeta {
        RuleMeta {
            name: "No Unused Closure Import",
            code: "no-unused-closure-import",
            description: "Detects unused variables in closure `use` clauses.\n\nVariables imported into a closure via `use ($var)` that are never\nreferenced in the closure body are unnecessary and should be removed.\n",
            good_example: "<?php\n\n$greeting = 'Hello';\n$fn = function () use ($greeting) {\n    echo $greeting;\n};\n",
            bad_example: "<?php\n\n$unused = 'Hello';\n$fn = function () use ($unused) {\n    echo 'World';\n};\n",
            category: Category::Redundancy,
        }
    }

    /// What the rule says about itself.
    pub fn meta() -> (r: RuleMeta)
        ensures
            r == Self::rule_meta(),
    {
        RuleMeta {
            name: "No Unused Closure Import",
            code: "no-unused-closure-import",
            description: "Detects unused variables in closure `use` clauses.\n\nVariables imported into a closure via `use ($var)` that are never\nreferenced in the closure body are unnecessary and should be removed.\n",
            good_example: "<?php\n\n$greeting = 'Hello';\n$fn = function () use ($greeting) {\n    echo $greeting;\n};\n",
            bad_example: "<?php\n\n$unused = 'Hello';\n$fn = function () use ($unused) {\n    echo 'World';\n};\n",
            category: Category::Redundancy,
        }
    }

    /// The rule with the given settings.
    pub fn build(cfg: NoUnusedClosureImportConfig) -> (r: Self)
        ensures
            r.cfg == cfg,
            r.meta == Self::rule_meta(),
    {
        Self { meta: Self::meta(), cfg }
    }

    /// The kinds of node the rule is run on.
    pub fn targets() -> (r: Vec<NodeKind>)
        ensures
            r@ == seq![NodeKind::Closure],
    {
        let mut v: Vec<NodeKind> = Vec::new();
        v.push(NodeKind::Closure);
        v
    }

    /// The issues of a closure: one per variable imported by value that its
    /// body never reads.
    pub fn check(&self, closure: &ClosureExpr) -> (r: Vec<Issue>)
        ensures
            issue_views(r@) == match closure.use_clause {
                Some(uses) => unused_issues(self.cfg.level, uses@, closure.body@, uses@.len() as int),
                None => Seq::empty(),
            },
    {
        let mut issues: Vec<Issue> = Vec::new();
        let uses = match &closure.use_clause {
            Some(u) => u,
            None => {
                assert(issue_views(issues@) =~= Seq::<IssueSpec>::empty());
                return issues;
            },
        };
        let mut i: usize = 0;
        while i < uses.len()
            invariant
                i <= uses@.len(),
                closure.use_clause == Some(*uses),
                issue_views(issues@) == unused_issues(
                    self.cfg.level,
                    uses@,
                    closure.body@,
                    i as int,
                ),
            decreases uses@.len() - i,
        {
            let use_var = &uses[i];
            if !use_var.by_reference {
                let var_name = use_var.name.as_slice();
                if !nodes_use_variable(closure.body.as_slice(), var_name) {
                    let mut message = bytes_of("Unused closure import `");
                    push_all(&mut message, var_name);
                    push_all(&mut message, "`".as_bytes());
                    let mut help = bytes_of("Remove `");
                    push_all(&mut help, var_name);
                    push_all(&mut help, "` from the `use` clause".as_bytes());
                    let issue = Issue::new(self.cfg.level(), message).with_code(
                        bytes_of(Self::meta().code),
                    ).with_annotation(
                        Annotation::primary(
                            use_var.span,
                            bytes_of("This variable is imported but never used in the closure body"),
                        ),
                    ).with_help(help);
                    let ghost want = unused_issue(self.cfg.level, *use_var);
                    assert(issue@.annotations =~= want.annotations);
                    let ghost i0 = issues@;
                    issues.push(issue);
                    assert(issue_views(issues@) =~= issue_views(i0).push(issue@));
                }
            }
            i = i + 1;
        }
        issues
    }
}

} // verus!
