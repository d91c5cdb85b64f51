//! A `switch` case that falls through must say so in a comment.
use vstd::prelude::*;

use crate::lint::ast::{DeclareBody, ExprKind, Expression, IfBody, Statement, SwitchCase};
use crate::lint::meta::{Category, NodeKind, RuleMeta};
use crate::lint::report::{
    bytes_of, issue_views, utf8, Annotation, AnnotationSpec, Issue, IssueSpec, Level, Span,
};
use crate::text::{contains, contains_bytes, lower, to_lower};

verus! {

/// The settings of the rule.
#[derive(Debug, Clone, Copy, PartialEq, Eq, Hash)]
pub struct NoBreakCommentConfig {
    pub level: Level,
}

impl Default for NoBreakCommentConfig {
    fn default() -> (r: Self)
        ensures
            r.level == Level::Warning,
    {
        Self { level: Level::Warning }
    }
}

impl NoBreakCommentConfig {
    /// The rule is off unless enabled.
    pub fn default_enabled() -> (r: bool)
        ensures
            !r,
    {
        false
    }

    /// The level of the issues it reports.
    pub fn level(&self) -> (r: Level)
        ensures
            r == self.level,
    {
        self.level
    }
}

/// The rule with its settings.
#[derive(Debug, Clone, Copy)]
pub struct NoBreakCommentRule {
    pub meta: RuleMeta,
    pub cfg: NoBreakCommentConfig,
}

/// Some statement of the list ends the case.
pub open spec fn terminates_list(ss: Seq<Statement>) -> bool
    decreases ss,
{
    ss.len() > 0 && (terminates_list(ss.subrange(0, ss.len() - 1)) || terminates(ss[ss.len() - 1]))
}

/// Every statement of the list ends the case.
pub open spec fn all_terminate(ss: Seq<Statement>) -> bool
    decreases ss,
{
    ss.len() == 0 || (all_terminate(ss.subrange(0, ss.len() - 1)) && terminates(ss[ss.len() - 1]))
}

/// Every list of the lists ends the case.
pub open spec fn all_lists_terminate(ls: Seq<Vec<Statement>>) -> bool
    decreases ls,
{
    ls.len() == 0 || (all_lists_terminate(ls.subrange(0, ls.len() - 1)) && terminates_list(
        ls[ls.len() - 1]@,
    ))
}

/// An expression that ends the case: `throw`, `exit`, `die`.
pub open spec fn expression_terminates(e: Expression) -> bool {
    e.kind is Throw || e.kind is Exit || e.kind is Die
}

/// Every branch of the `if` ends the case, and there is an `else`.
pub open spec fn if_terminates(body: IfBody) -> bool
    decreases body,
{
    match body {
        IfBody::Statement { statement, else_ifs, else_clause } => terminates(*statement)
            && all_terminate(else_ifs@) && match else_clause {
            Some(e) => terminates(*e),
            None => false,
        },
        IfBody::ColonDelimited { statements, else_ifs, else_clause } => terminates_list(statements@)
            && all_lists_terminate(else_ifs@) && match else_clause {
            Some(e) => terminates_list(e@),
            None => false,
        },
    }
}

/// The statement ends the case: `break`, `continue`, `return`, `goto`,
/// `throw`, `exit`, `die`, or a block, `declare`, `try` or `if` that ends it
/// on every path. Loops, switches and declarations do not.
pub open spec fn terminates(s: Statement) -> bool
    decreases s,
{
    match s {
        Statement::Namespace { statements } => terminates_list(statements@),
        Statement::Block { statements } => terminates_list(statements@),
        Statement::Declare { body } => match body {
            DeclareBody::Statement(b) => terminates(*b),
            DeclareBody::ColonDelimited(ss) => terminates_list(ss@),
        },
        Statement::Try { block, catch_blocks, finally_block } => (match finally_block {
            Some(f) => terminates_list(f@),
            None => false,
        }) || (terminates_list(block@) && all_lists_terminate(catch_blocks@)),
        Statement::If { body } => if_terminates(body),
        Statement::Break | Statement::Continue { .. } | Statement::Return | Statement::Goto => true,
        Statement::Expression { expression } => expression_terminates(expression),
        _ => false,
    }
}

/// Some statement of `ss` ends the case.
pub open spec fn some_statement_ends(ss: Seq<Statement>) -> bool {
    exists|j: int| 0 <= j < ss.len() && terminates(#[trigger] ss[j])
}

/// A list ends the case exactly when one of its statements does.
pub proof fn lemma_list_ends_case(ss: Seq<Statement>)
    ensures
        terminates_list(ss) <==> some_statement_ends(ss),
    decreases ss.len(),
{
    if ss.len() > 0 {
        let init = ss.subrange(0, ss.len() - 1);
        lemma_list_ends_case(init);
        if some_statement_ends(ss) {
            let i = choose|i: int| 0 <= i < ss.len() && terminates(#[trigger] ss[i]);
            if i < ss.len() - 1 {
                assert(terminates(init[i]));
            }
        }
        if terminates_list(init) {
            let i = choose|i: int| 0 <= i < init.len() && terminates(#[trigger] init[i]);
            assert(terminates(ss[i]));
        }
    }
}

/// `all_terminate` holds exactly when every statement ends the case.
pub proof fn lemma_all_end_case(ss: Seq<Statement>)
    ensures
        all_terminate(ss) <==> forall|i: int| 0 <= i < ss.len() ==> terminates(#[trigger] ss[i]),
    decreases ss.len(),
{
    if ss.len() > 0 {
        let init = ss.subrange(0, ss.len() - 1);
        lemma_all_end_case(init);
        if all_terminate(ss) {
            assert forall|i: int| 0 <= i < ss.len() implies terminates(#[trigger] ss[i]) by {
                if i < ss.len() - 1 {
                    assert(terminates(init[i]));
                }
            }
        }
        if forall|i: int| 0 <= i < ss.len() ==> terminates(#[trigger] ss[i]) {
            assert forall|i: int| 0 <= i < init.len() implies terminates(#[trigger] init[i]) by {
                assert(terminates(ss[i]));
            }
            assert(terminates(ss[ss.len() - 1]));
        }
    }
}

/// `all_lists_terminate` holds exactly when every list has a statement
/// that ends the case.
pub proof fn lemma_all_lists_end_case(ls: Seq<Vec<Statement>>)
    ensures
        all_lists_terminate(ls) <==> forall|i: int|
            0 <= i < ls.len() ==> some_statement_ends(#[trigger] ls[i]@),
    decreases ls.len(),
{
    if ls.len() > 0 {
        let init = ls.subrange(0, ls.len() - 1);
        lemma_all_lists_end_case(init);
        assert forall|i: int| 0 <= i < ls.len() implies (terminates_list(ls[i]@)
            <==> some_statement_ends(#[trigger] ls[i]@)) by {
            lemma_list_ends_case(ls[i]@);
        }
        if all_lists_terminate(ls) {
            assert forall|i: int| 0 <= i < ls.len() implies some_statement_ends(#[trigger] ls[i]@) by {
                if i < ls.len() - 1 {
                    assert(init[i] == ls[i]);
                    assert(some_statement_ends(init[i]@));
                }
            }
        }
        if forall|i: int| 0 <= i < ls.len() ==> some_statement_ends(#[trigger] ls[i]@) {
            assert forall|i: int| 0 <= i < init.len() implies some_statement_ends(#[trigger] init[i]@) by {
                assert(init[i] == ls[i]);
                assert(some_statement_ends(ls[i]@));
            }
            assert(some_statement_ends(ls[ls.len() - 1]@));
        }
    }
}

/// An `if` ends the case exactly when it has an `else` and every branch
/// (its body, each `elseif` and the `else`) ends it: one branch that falls
/// through, or a missing `else`, lets the whole `if` fall through.
pub proof fn lemma_if_ends_case(
    statement: Box<Statement>,
    else_ifs: Vec<Statement>,
    else_clause: Option<Box<Statement>>,
)
    ensures
        if_terminates((IfBody::Statement { statement, else_ifs, else_clause })) <==> (terminates(
            *statement,
        ) && (forall|i: int| 0 <= i < else_ifs@.len() ==> terminates(#[trigger] else_ifs@[i]))
            && match else_clause {
            Some(e) => terminates(*e),
            None => false,
        }),
{
    lemma_all_end_case(else_ifs@);
}

/// The same for an `if` written with colons: it ends the case exactly when
/// it has an `else` and each of its branches has a statement that ends it.
pub proof fn lemma_colon_if_ends_case(
    statements: Vec<Statement>,
    else_ifs: Vec<Vec<Statement>>,
    else_clause: Option<Vec<Statement>>,
)
    ensures
        if_terminates((IfBody::ColonDelimited { statements, else_ifs, else_clause })) <==> (
        some_statement_ends(statements@) && (forall|i: int|
            0 <= i < else_ifs@.len() ==> some_statement_ends(#[trigger] else_ifs@[i]@))
            && match else_clause {
            Some(e) => some_statement_ends(e@),
            None => false,
        }),
{
    lemma_list_ends_case(statements@);
    lemma_all_lists_end_case(else_ifs@);
    if let Some(e) = else_clause {
        lemma_list_ends_case(e@);
    }
}

/// A block ends the case exactly when one of its statements does.
pub proof fn lemma_block_ends_case(s: Statement)
    ensures
        s matches Statement::Block { statements } ==> (terminates(s) <==> some_statement_ends(
            statements@,
        )),
{
    if let Statement::Block { statements } = s {
        lemma_list_ends_case(statements@);
    }
}

/// Which statements end a case: `break`, `continue`, `return` and `goto`
/// always do; loops, `switch` and declarations never do; an expression
/// statement does exactly when it is `throw`, `exit` or `die`; a block or a
/// namespace when one of its statements does; a `try` when its `finally`
/// has a statement that ends the case, or when its block and every `catch`
/// each have one.
pub proof fn lemma_statement_ends_case(s: Statement)
    ensures
        match s {
            Statement::Break | Statement::Continue { .. } | Statement::Return | Statement::Goto => terminates(s),
            Statement::Foreach | Statement::For | Statement::While | Statement::DoWhile
            | Statement::Switch | Statement::Function | Statement::Class | Statement::Interface
            | Statement::Trait | Statement::Enum | Statement::Other => !terminates(s),
            Statement::Expression { expression } => terminates(s) <==> (expression.kind is Throw
                || expression.kind is Exit || expression.kind is Die),
            Statement::Block { statements } => terminates(s) <==> some_statement_ends(statements@),
            Statement::Namespace { statements } => terminates(s) <==> some_statement_ends(statements@),
            Statement::Try { block, catch_blocks, finally_block } => terminates(s) <==> ((match finally_block {
                Some(f) => some_statement_ends(f@),
                None => false,
            }) || (some_statement_ends(block@) && forall|i: int|
                0 <= i < catch_blocks@.len() ==> some_statement_ends(#[trigger] catch_blocks@[i]@))),
            _ => true,
        },
{
    match s {
        Statement::Block { statements } => {
            lemma_list_ends_case(statements@);
        },
        Statement::Namespace { statements } => {
            lemma_list_ends_case(statements@);
        },
        Statement::Try { block, catch_blocks, finally_block } => {
            lemma_list_ends_case(block@);
            lemma_all_lists_end_case(catch_blocks@);
            if let Some(f) = finally_block {
                lemma_list_ends_case(f@);
            }
        },
        _ => {},
    }
}

/// The comments that mark an intended fall-through (compared in lower case).
pub open spec fn fallthrough_marker(k: int) -> Seq<u8> {
    if k == 0 {
        utf8("// no break")
    } else if k == 1 {
        utf8("// no-break")
    } else if k == 2 {
        utf8("/* no break")
    } else if k == 3 {
        utf8("/* no-break")
    } else if k == 4 {
        utf8("// fall through")
    } else if k == 5 {
        utf8("// fall-through")
    } else if k == 6 {
        utf8("// fallthrough")
    } else if k == 7 {
        utf8("/* fall through")
    } else if k == 8 {
        utf8("/* fall-through")
    } else if k == 9 {
        utf8("/* fallthrough")
    } else if k == 10 {
        utf8("# no break")
    } else if k == 11 {
        utf8("# no-break")
    } else if k == 12 {
        utf8("# fall through")
    } else if k == 13 {
        utf8("# fall-through")
    } else {
        utf8("# fallthrough")
    }
}

/// The text holds a fall-through comment, in any letter case.
pub open spec fn has_fallthrough_comment(text: Seq<u8>) -> bool {
    exists|k: int| 0 <= k < 15 && contains(lower(text), fallthrough_marker(k))
}

/// The source between the start of case `i` and the start of the next case.
pub open spec fn case_region(source: Seq<u8>, cases: Seq<SwitchCase>, i: int) -> Seq<u8> {
    source.subrange(cases[i].span.start as int, cases[i + 1].span.start as int)
}

/// Case `i` falls through to the next one: it is not the last case, it has
/// statements, and none of them ends the case.
pub open spec fn falls_through(cases: Seq<SwitchCase>, i: int) -> bool {
    0 <= i < cases.len() - 1 && cases[i].statements@.len() > 0 && !terminates_list(
        cases[i].statements@,
    )
}

/// Case `i` falls through without a comment that says so.
pub open spec fn unmarked_fallthrough(source: Seq<u8>, cases: Seq<SwitchCase>, i: int) -> bool {
    falls_through(cases, i) && !has_fallthrough_comment(case_region(source, cases, i))
}

/// The regions between cases that fall through lie within the source.
pub open spec fn regions_in_source(source: Seq<u8>, cases: Seq<SwitchCase>) -> bool {
    forall|i: int|
        #![trigger cases[i]]
        falls_through(cases, i) ==> cases[i].span.start <= cases[i + 1].span.start <= source.len()
}

/// The issue for a case that falls through unmarked.
pub open spec fn fallthrough_issue(level: Level, keyword: Span) -> IssueSpec {
    IssueSpec {
        level,
        code: utf8("no-break-comment"),
        message: utf8("Switch case falls through without a `// no break` comment"),
        annotations: seq![
            AnnotationSpec {
                span: keyword,
                message: utf8("This case falls through to the next case"),
                primary: true,
            },
        ],
        notes: seq![utf8("Intentional fall-through should be documented with a `// no break` comment.")],
        help: Some(
            utf8("Add a `// no break` comment at the end of the case, or add a `break` statement"),
        ),
        edits: None,
    }
}

/// The issues for the first `n` cases, in order.
pub open spec fn fallthrough_issues(
    source: Seq<u8>,
    cases: Seq<SwitchCase>,
    level: Level,
    n: int,
) -> Seq<IssueSpec>
    decreases n,
{
    if n <= 0 {
        Seq::empty()
    } else {
        let prev = fallthrough_issues(source, cases, level, n - 1);
        if unmarked_fallthrough(source, cases, n - 1) {
            prev.push(fallthrough_issue(level, cases[n - 1].keyword))
        } else {
            prev
        }
    }
}

/// The number of the first `n` cases that fall through unmarked.
pub open spec fn count_unmarked(source: Seq<u8>, cases: Seq<SwitchCase>, n: int) -> nat
    decreases n,
{
    if n <= 0 {
        0
    } else {
        count_unmarked(source, cases, n - 1) + if unmarked_fallthrough(source, cases, n - 1) {
            1nat
        } else {
            0nat
        }
    }
}

/// The rule reports each case that falls through without a fall-through
/// comment once, and nothing else: never the last case, never a case with
/// no statements, never a case that ends in `break`, `return` and the like
/// on every path; a switch whose fall-throughs are all marked gets no issue.
pub proof fn lemma_one_issue_per_unmarked_case(
    source: Seq<u8>,
    cases: Seq<SwitchCase>,
    level: Level,
    n: int,
)
    requires
        0 <= n <= cases.len(),
    ensures
        fallthrough_issues(source, cases, level, n).len() == count_unmarked(source, cases, n),
        cases.len() > 0 ==> !unmarked_fallthrough(source, cases, cases.len() - 1),
        forall|i: int|
            0 <= i < cases.len() && (cases[i].statements@.len() == 0 || terminates_list(
                cases[i].statements@,
            )) ==> !#[trigger] unmarked_fallthrough(source, cases, i),
        (forall|i: int| 0 <= i < n ==> !#[trigger] unmarked_fallthrough(source, cases, i))
            ==> fallthrough_issues(source, cases, level, n).len() == 0,
    decreases n,
{
    if n > 0 {
        lemma_one_issue_per_unmarked_case(source, cases, level, n - 1);
    }
}

/// Whether some statement of the list ends the case.
pub fn statements_terminate_switch_case(statements: &[Statement]) -> (r: bool)
    ensures
        r == terminates_list(statements@),
    decreases statements@,
{
    let mut i: usize = 0;
    while i < statements.len()
        invariant
            i <= statements@.len(),
            !terminates_list(statements@.subrange(0, i as int)),
        decreases statements@.len() - i,
    {
        let t = statement_terminates_switch_case(&statements[i]);
        proof {
            let pre = statements@.subrange(0, i + 1);
            assert(pre.subrange(0, pre.len() - 1) =~= statements@.subrange(0, i as int));
            assert(pre[pre.len() - 1] == statements@[i as int]);
        }
        if t {
            proof {
                lemma_terminates_list_prefix(statements@, i + 1);
            }
            return true;
        }
        i = i + 1;
    }
    assert(statements@.subrange(0, i as int) =~= statements@);
    false
}

/// A list ends the case when a prefix of it does.
pub proof fn lemma_terminates_list_prefix(ss: Seq<Statement>, n: int)
    requires
        0 <= n <= ss.len(),
        terminates_list(ss.subrange(0, n)),
    ensures
        terminates_list(ss),
    decreases ss.len() - n,
{
    if n < ss.len() {
        let pre = ss.subrange(0, n + 1);
        assert(pre.subrange(0, pre.len() - 1) =~= ss.subrange(0, n));
        lemma_terminates_list_prefix(ss, n + 1);
    } else {
        assert(ss.subrange(0, n) =~= ss);
    }
}

/// Whether every statement of the list ends the case.
fn all_statements_terminate(statements: &[Statement]) -> (r: bool)
    ensures
        r == all_terminate(statements@),
    decreases statements@,
{
    let mut i: usize = 0;
    while i < statements.len()
        invariant
            i <= statements@.len(),
            all_terminate(statements@.subrange(0, i as int)),
        decreases statements@.len() - i,
    {
        let t = statement_terminates_switch_case(&statements[i]);
        proof {
            let pre = statements@.subrange(0, i + 1);
            assert(pre.subrange(0, pre.len() - 1) =~= statements@.subrange(0, i as int));
            assert(pre[pre.len() - 1] == statements@[i as int]);
        }
        if !t {
            proof {
                lemma_all_terminate_prefix(statements@, i + 1);
            }
            return false;
        }
        i = i + 1;
    }
    assert(statements@.subrange(0, i as int) =~= statements@);
    true
}

/// A list whose prefix has a statement that does not end the case does not
/// end it on every statement.
pub proof fn lemma_all_terminate_prefix(ss: Seq<Statement>, n: int)
    requires
        0 <= n <= ss.len(),
        !all_terminate(ss.subrange(0, n)),
    ensures
        !all_terminate(ss),
    decreases ss.len() - n,
{
    if n < ss.len() {
        let pre = ss.subrange(0, n + 1);
        assert(pre.subrange(0, pre.len() - 1) =~= ss.subrange(0, n));
        lemma_all_terminate_prefix(ss, n + 1);
    } else {
        assert(ss.subrange(0, n) =~= ss);
    }
}

/// A list of lists that has a list that does not end the case, in a prefix.
pub proof fn lemma_all_lists_prefix(ls: Seq<Vec<Statement>>, n: int)
    requires
        0 <= n <= ls.len(),
        !all_lists_terminate(ls.subrange(0, n)),
    ensures
        !all_lists_terminate(ls),
    decreases ls.len() - n,
{
    if n < ls.len() {
        let pre = ls.subrange(0, n + 1);
        assert(pre.subrange(0, pre.len() - 1) =~= ls.subrange(0, n));
        lemma_all_lists_prefix(ls, n + 1);
    } else {
        assert(ls.subrange(0, n) =~= ls);
    }
}

/// Whether every list of the lists ends the case.
fn all_lists_terminate_switch_case(lists: &Vec<Vec<Statement>>) -> (r: bool)
    ensures
        r == all_lists_terminate(lists@),
    decreases lists@,
{
    let mut i: usize = 0;
    while i < lists.len()
        invariant
            i <= lists@.len(),
            all_lists_terminate(lists@.subrange(0, i as int)),
        decreases lists@.len() - i,
    {
        let t = statements_terminate_switch_case(lists[i].as_slice());
        proof {
            let pre = lists@.subrange(0, i + 1);
            assert(pre.subrange(0, pre.len() - 1) =~= lists@.subrange(0, i as int));
            assert(pre[pre.len() - 1] == lists@[i as int]);
        }
        if !t {
            proof {
                lemma_all_lists_prefix(lists@, i + 1);
            }
            return false;
        }
        i = i + 1;
    }
    assert(lists@.subrange(0, i as int) =~= lists@);
    true
}

/// Whether the statement ends the case.
pub fn statement_terminates_switch_case(statement: &Statement) -> (r: bool)
    ensures
        r == terminates(*statement),
    decreases statement,
{
    match statement {
        Statement::Namespace { statements } => statements_terminate_switch_case(
            statements.as_slice(),
        ),
        Statement::Block { statements } => statements_terminate_switch_case(statements.as_slice()),
        Statement::Declare { body } => match body {
            DeclareBody::Statement(s) => statement_terminates_switch_case(s),
            DeclareBody::ColonDelimited(ss) => statements_terminate_switch_case(ss.as_slice()),
        },
        Statement::Try { block, catch_blocks, finally_block } => {
            let finally_terminates = match finally_block {
                Some(f) => statements_terminate_switch_case(f.as_slice()),
                None => false,
            };
            if finally_terminates {
                return true;
            }
            statements_terminate_switch_case(block.as_slice()) && all_lists_terminate_switch_case(
                catch_blocks,
            )
        },
        Statement::If { body } => if_statement_terminates_switch_case(body),
        Statement::Break | Statement::Continue { .. } | Statement::Return | Statement::Goto => true,
        Statement::Expression { expression } => expression_terminates_switch_case(expression),
        _ => false,
    }
}

/// Whether every branch of the `if` ends the case (and there is an `else`).
pub fn if_statement_terminates_switch_case(body: &IfBody) -> (r: bool)
    ensures
        r == if_terminates(*body),
    decreases body,
{
    match body {
        IfBody::Statement { statement, else_ifs, else_clause } => {
            statement_terminates_switch_case(statement) && all_statements_terminate(
                else_ifs.as_slice(),
            ) && match else_clause {
                Some(e) => statement_terminates_switch_case(e),
                None => false,
            }
        },
        IfBody::ColonDelimited { statements, else_ifs, else_clause } => {
            statements_terminate_switch_case(statements.as_slice())
                && all_lists_terminate_switch_case(else_ifs) && match else_clause {
                Some(e) => statements_terminate_switch_case(e.as_slice()),
                None => false,
            }
        },
    }
}

/// Whether the expression ends the case.
pub fn expression_terminates_switch_case(expression: &Expression) -> (r: bool)
    ensures
        r == expression_terminates(*expression),
{
    matches!(expression.kind, ExprKind::Throw | ExprKind::Exit | ExprKind::Die)
}

/// The `k`-th fall-through comment marker.
fn fallthrough_marker_text(k: usize) -> (r: &'static str)
    requires
        k < 15,
    ensures
        utf8(r) == fallthrough_marker(k as int),
{
    if k == 0 {
        "// no break"
    } else if k == 1 {
        "// no-break"
    } else if k == 2 {
        "/* no break"
    } else if k == 3 {
        "/* no-break"
    } else if k == 4 {
        "// fall through"
    } else if k == 5 {
        "// fall-through"
    } else if k == 6 {
        "// fallthrough"
    } else if k == 7 {
        "/* fall through"
    } else if k == 8 {
        "/* fall-through"
    } else if k == 9 {
        "/* fallthrough"
    } else if k == 10 {
        "# no break"
    } else if k == 11 {
        "# no-break"
    } else if k == 12 {
        "# fall through"
    } else if k == 13 {
        "# fall-through"
    } else {
        "# fallthrough"
    }
}

/// Whether `text` holds a fall-through comment, in any letter case.
pub fn has_no_break_comment(text: &[u8]) -> (r: bool)
    ensures
        r == has_fallthrough_comment(text@),
{
    let lowered = to_lower(text);
    let l = lowered.as_slice();
    let mut k: usize = 0;
    while k < 15
        invariant
            k <= 15,
            lowered@ == lower(text@),
            l@ == lower(text@),
            forall|j: int| 0 <= j < k ==> !contains(lower(text@), fallthrough_marker(j)),
        decreases 15 - k,
    {
        let marker = fallthrough_marker_text(k);
        let mb = marker.as_bytes();
        if contains_bytes(l, mb) {
            assert(contains(lower(text@), fallthrough_marker(k as int)));
            return true;
        }
        k = k + 1;
    }
    false
}

impl NoBreakCommentRule {
    /// What the rule says about itself: its name, code, description,
    /// examples and category.
    pub open spec fn rule_meta() -> RuleMeta {
        RuleMeta {
            name: "No Break Comment",
            code: "no-break-comment",
            description: "Requires a `// no break` comment when a `switch` case falls through\nto the next case without a `break`, `return`, `continue`, or `throw`.\n\nFall-through cases without a comment are ambiguous \u{2014} readers cannot tell\nif the fall-through is intentional or a missing `break` bug.\n",
            good_example: "<?php\n\nswitch ($value) {\n    case 1:\n        echo 'one';\n        // no break\n    case 2:\n        echo 'two';\n        break;\n}\n",
            bad_example: "<?php\n\nswitch ($value) {\n    case 1:\n        echo 'one';\n    case 2:\n        echo 'two';\n        break;\n}\n",
            category: Category::Safety,
        }
    }

    /// What the rule says about itself.
    pub fn meta() -> (r: RuleMeta)
        ensures
            r == Self::rule_meta(),
    {
        RuleMeta {
            name: "No Break Comment",
            code: "no-break-comment",
            description: "Requires a `// no break` comment when a `switch` case falls through\nto the next case without a `break`, `return`, `continue`, or `throw`.\n\nFall-through cases without a comment are ambiguous \u{2014} readers cannot tell\nif the fall-through is intentional or a missing `break` bug.\n",
            good_example: "<?php\n\nswitch ($value) {\n    case 1:\n        echo 'one';\n        // no break\n    case 2:\n        echo 'two';\n        break;\n}\n",
            bad_example: "<?php\n\nswitch ($value) {\n    case 1:\n        echo 'one';\n    case 2:\n        echo 'two';\n        break;\n}\n",
            category: Category::Safety,
        }
    }

    /// The rule with the given settings.
    pub fn build(cfg: NoBreakCommentConfig) -> (r: Self)
        ensures
            r.cfg == cfg,
            r.meta == Self::rule_meta(),
    {
        Self { meta: Self::meta(), cfg }
    }

    /// The kinds of node the rule is run on.
    pub fn targets() -> (r: Vec<NodeKind>)
        ensures
            r@ == seq![NodeKind::Switch],
    {
        let mut v: Vec<NodeKind> = Vec::new();
        v.push(NodeKind::Switch);
        v
    }

    /// The issue for a case that falls through unmarked.
    fn fallthrough_issue_for(&self, keyword: Span) -> (r: Issue)
        ensures
            r@ == fallthrough_issue(self.cfg.level, keyword),
    {
        let r = Issue::new(
            self.cfg.level(),
            bytes_of("Switch case falls through without a `// no break` comment"),
        ).with_code(bytes_of(Self::meta().code)).with_annotation(
            Annotation::primary(keyword, bytes_of("This case falls through to the next case")),
        ).with_note(
            bytes_of("Intentional fall-through should be documented with a `// no break` comment."),
        ).with_help(
            bytes_of("Add a `// no break` comment at the end of the case, or add a `break` statement"),
        );
        assert(r@.annotations =~= fallthrough_issue(self.cfg.level, keyword).annotations);
        assert(r@.notes =~= fallthrough_issue(self.cfg.level, keyword).notes);
        r
    }

    /// The issues of a `switch` with the given cases in `source`: one for each
    /// case but the last that has statements, none of which ends the case,
    /// and no fall-through comment between its start and the next case.
    pub fn check(&self, source: &[u8], cases: &Vec<SwitchCase>) -> (r: Vec<Issue>)
        requires
            regions_in_source(source@, cases@),
        ensures
            issue_views(r@) == fallthrough_issues(
                source@,
                cases@,
                self.cfg.level,
                cases@.len() as int,
            ),
    {
        let mut issues: Vec<Issue> = Vec::new();
        let n = cases.len();
        let mut i: usize = 0;
        while i < n
            invariant
                n == cases@.len(),
                i <= n,
                regions_in_source(source@, cases@),
                issue_views(issues@) == fallthrough_issues(
                    source@,
                    cases@,
                    self.cfg.level,
                    i as int,
                ),
            decreases n - i,
        {
            if i == n - 1 {
                assert(!falls_through(cases@, i as int));
                i = i + 1;
                continue ;
            }
            let case = &cases[i];
            let statements = case.statements.as_slice();
            if statements.len() == 0 {
                i = i + 1;
                continue ;
            }
            if statements_terminate_switch_case(statements) {
                i = i + 1;
                continue ;
            }
            assert(falls_through(cases@, i as int));
            let region_start = case.span.start as usize;
            let region_end = cases[i + 1].span.start as usize;
            let case_text = vstd::slice::slice_subrange(source, region_start, region_end);
            if !has_no_break_comment(case_text) {
                let issue = self.fallthrough_issue_for(case.keyword);
                let ghost i0 = issues@;
                issues.push(issue);
                assert(issue_views(issues@) =~= issue_views(i0).push(issue@));
            }
            i = i + 1;
        }
        issues
    }
}

} // verus!
