use mago_style::lint::ast::{
    ClosureExpr, ClosureUseVariable, DeclareBody, ExprKind, Expression, IfBody, LiteralKind, Node,
    Statement, SwitchCase,
};
use mago_style::lint::meta::NodeKind;
use mago_style::lint::report::{Level, Span};
use mago_style::lint::rules::no_break_comment::{
    expression_terminates_switch_case, has_no_break_comment, if_statement_terminates_switch_case,
    statement_terminates_switch_case, statements_terminate_switch_case, NoBreakCommentConfig,
    NoBreakCommentRule,
};
use mago_style::lint::rules::no_unused_closure_import::{
    arrow_function_uses_variable, closure_uses_variable, node_uses_variable, nodes_use_variable,
    NoUnusedClosureImportConfig, NoUnusedClosureImportRule,
};
use mago_style::lint::rules::switch_continue_to_break::{
    continue_targets_switch, find_switch_continues_in_statement, find_switch_continues_in_statements,
    SwitchContinueToBreakConfig, SwitchContinueToBreakRule,
};

fn span(start: u32, end: u32) -> Span {
    Span { start, end }
}

fn text(v: &[u8]) -> String {
    String::from_utf8(v.to_vec()).unwrap()
}

fn level(v: u64) -> Option<Expression> {
    Some(Expression { kind: ExprKind::Literal(LiteralKind::Integer { value: Some(v) }), span: span(0, 1) })
}

fn cont(start: u32, lvl: Option<Expression>) -> Statement {
    Statement::Continue { keyword: span(start, start + 8), level: lvl }
}

fn echo() -> Statement {
    Statement::Expression { expression: Expression { kind: ExprKind::Other, span: span(0, 1) } }
}

fn case(start: u32, statements: Vec<Statement>) -> SwitchCase {
    SwitchCase { keyword: span(start, start + 4), span: span(start, start + 10), statements }
}

fn continue_rule() -> SwitchContinueToBreakRule {
    SwitchContinueToBreakRule::build(SwitchContinueToBreakConfig::default())
}

#[test]
fn break_in_switch_is_ok() {
    let cases = vec![case(10, vec![echo(), Statement::Break]), case(40, vec![echo(), Statement::Break])];
    assert!(continue_rule().check(&cases).is_empty());
}

#[test]
fn continue_in_switch_is_reported_with_break_fix() {
    let cases = vec![case(10, vec![echo(), cont(30, None)])];
    let issues = continue_rule().check(&cases);
    assert_eq!(issues.len(), 1);
    assert_eq!(text(&issues[0].code), "switch-continue-to-break");
    assert_eq!(text(&issues[0].message), "Use `break` instead of `continue` inside a `switch` statement");
    assert_eq!(issues[0].annotations[0].span, span(30, 38));
    let edit = &issues[0].edits.as_ref().unwrap()[0];
    assert_eq!((edit.start, edit.end), (30, 38));
    assert_eq!(text(&edit.text), "break");
}

#[test]
fn continue_1_is_reported_and_continue_2_is_not() {
    let cases = vec![case(10, vec![cont(30, level(1))]), case(50, vec![cont(60, level(2))])];
    let issues = continue_rule().check(&cases);
    assert_eq!(issues.len(), 1);
    assert_eq!(issues[0].annotations[0].span, span(30, 38));
    assert!(continue_targets_switch(&None));
    assert!(continue_targets_switch(&level(1)));
    assert!(!continue_targets_switch(&level(2)));
    let unknown = Some(Expression { kind: ExprKind::Variable, span: span(0, 1) });
    assert!(!continue_targets_switch(&unknown));
}

#[test]
fn nested_continue_in_if_is_reported() {
    let iff = Statement::If {
        body: IfBody::Statement {
            statement: Box::new(Statement::Block { statements: vec![cont(40, None)] }),
            else_ifs: vec![],
            else_clause: None,
        },
    };
    let cases = vec![case(10, vec![iff, Statement::Break])];
    let issues = continue_rule().check(&cases);
    assert_eq!(issues.len(), 1);
    assert_eq!(issues[0].annotations[0].span, span(40, 48));
}

#[test]
fn continue_inside_loops_is_ok() {
    let cases = vec![case(10, vec![Statement::While, Statement::Foreach, Statement::Break])];
    assert!(continue_rule().check(&cases).is_empty());
    assert!(find_switch_continues_in_statement(&Statement::For).is_empty());
    assert!(find_switch_continues_in_statement(&Statement::Switch).is_empty());
}

#[test]
fn continues_are_found_in_every_nesting_in_order() {
    let stmts = vec![
        Statement::Declare { body: DeclareBody::ColonDelimited(vec![cont(1, None)]) },
        Statement::Try {
            block: vec![cont(2, None)],
            catch_blocks: vec![vec![cont(3, None)], vec![cont(4, level(3))]],
            finally_block: Some(vec![cont(5, None)]),
        },
        Statement::If {
            body: IfBody::ColonDelimited {
                statements: vec![cont(6, None)],
                else_ifs: vec![vec![cont(7, None)]],
                else_clause: Some(vec![cont(8, None)]),
            },
        },
        Statement::Namespace { statements: vec![cont(9, None)] },
        Statement::Declare { body: DeclareBody::Statement(Box::new(cont(10, None))) },
    ];
    let found = find_switch_continues_in_statements(&stmts);
    let starts: Vec<u32> = found.iter().map(|s| s.start).collect();
    assert_eq!(starts, vec![1, 2, 3, 5, 6, 7, 8, 9, 10]);
}

#[test]
fn continue_and_break_rule_metadata() {
    assert_eq!(SwitchContinueToBreakRule::meta().code, "switch-continue-to-break");
    assert_eq!(SwitchContinueToBreakRule::targets(), vec![NodeKind::Switch]);
    assert_eq!(NoBreakCommentRule::meta().code, "no-break-comment");
    assert_eq!(NoBreakCommentRule::targets(), vec![NodeKind::Switch]);
    assert_eq!(NoUnusedClosureImportRule::meta().code, "no-unused-closure-import");
    assert_eq!(NoUnusedClosureImportRule::targets(), vec![NodeKind::Closure]);
}

fn break_rule() -> NoBreakCommentRule {
    NoBreakCommentRule::build(NoBreakCommentConfig { level: Level::Warning })
}

#[test]
fn fall_through_without_comment_is_reported() {
    let source = "switch ($x) {\n    case 1:\n        foo();\n    case 2:\n        bar();\n        break;\n}\n";
    let c1 = source.find("case 1").unwrap() as u32;
    let c2 = source.find("case 2").unwrap() as u32;
    let cases = vec![
        SwitchCase { keyword: span(c1, c1 + 4), span: span(c1, c2 - 5), statements: vec![echo()] },
        SwitchCase { keyword: span(c2, c2 + 4), span: span(c2, c2 + 40), statements: vec![echo(), Statement::Break] },
    ];
    let issues = break_rule().check(source.as_bytes(), &cases);
    assert_eq!(issues.len(), 1);
    assert_eq!(issues[0].level, Level::Warning);
    assert_eq!(text(&issues[0].message), "Switch case falls through without a `// no break` comment");
    assert_eq!(issues[0].annotations[0].span, span(c1, c1 + 4));
    assert!(issues[0].edits.is_none());
}

#[test]
fn fall_through_with_comment_is_ok() {
    let source = "switch ($x) {\n    case 1:\n        foo();\n        // No Break\n    case 2:\n        bar();\n}\n";
    let c1 = source.find("case 1").unwrap() as u32;
    let c2 = source.find("case 2").unwrap() as u32;
    let cases = vec![
        SwitchCase { keyword: span(c1, c1 + 4), span: span(c1, c2 - 5), statements: vec![echo()] },
        SwitchCase { keyword: span(c2, c2 + 4), span: span(c2, c2 + 20), statements: vec![echo()] },
    ];
    assert!(break_rule().check(source.as_bytes(), &cases).is_empty());
}

#[test]
fn empty_case_last_case_and_terminating_cases_are_ok() {
    let source = "x".repeat(200);
    let cases = vec![
        case(0, vec![]),
        case(20, vec![Statement::Return]),
        case(40, vec![echo(), Statement::Expression { expression: Expression { kind: ExprKind::Throw, span: span(0, 1) } }]),
        case(60, vec![Statement::Block { statements: vec![echo(), Statement::Goto] }]),
        case(80, vec![echo()]),
    ];
    assert!(break_rule().check(source.as_bytes(), &cases).is_empty());
}

#[test]
fn fall_through_comment_forms() {
    for marker in [
        "// no break", "// NO-BREAK", "/* no break */", "/* no-break */", "// fall through", "// Fall-Through",
        "// fallthrough", "/* fall through */", "/* fall-through */", "/* fallthrough */", "# no break",
        "# no-break", "# fall through", "# fall-through", "# FALLTHROUGH",
    ] {
        assert!(has_no_break_comment(format!("foo();\n{}\n", marker).as_bytes()), "{}", marker);
    }
    assert!(!has_no_break_comment(b"foo(); // keep going\n"));
    assert!(!has_no_break_comment(b"no break"));
}

#[test]
fn what_terminates_a_case() {
    assert!(statement_terminates_switch_case(&Statement::Break));
    assert!(statement_terminates_switch_case(&cont(0, level(2))));
    assert!(statement_terminates_switch_case(&Statement::Return));
    assert!(!statement_terminates_switch_case(&Statement::While));
    assert!(!statement_terminates_switch_case(&Statement::Function));
    for kind in [ExprKind::Throw, ExprKind::Exit, ExprKind::Die] {
        assert!(expression_terminates_switch_case(&Expression { kind, span: span(0, 1) }));
    }
    assert!(!expression_terminates_switch_case(&Expression { kind: ExprKind::Other, span: span(0, 1) }));
    assert!(statements_terminate_switch_case(&[echo(), Statement::Break]));
    assert!(!statements_terminate_switch_case(&[echo()]));
    assert!(!statements_terminate_switch_case(&[]));
    let try_finally = Statement::Try { block: vec![echo()], catch_blocks: vec![], finally_block: Some(vec![Statement::Return]) };
    assert!(statement_terminates_switch_case(&try_finally));
    let try_all = Statement::Try { block: vec![Statement::Return], catch_blocks: vec![vec![Statement::Break]], finally_block: None };
    assert!(statement_terminates_switch_case(&try_all));
    let try_some = Statement::Try { block: vec![Statement::Return], catch_blocks: vec![vec![echo()]], finally_block: None };
    assert!(!statement_terminates_switch_case(&try_some));
}

#[test]
fn if_terminates_only_with_else_and_every_branch() {
    let with_else = IfBody::Statement {
        statement: Box::new(Statement::Return),
        else_ifs: vec![Statement::Break],
        else_clause: Some(Box::new(Statement::Return)),
    };
    assert!(if_statement_terminates_switch_case(&with_else));
    let without_else = IfBody::Statement { statement: Box::new(Statement::Return), else_ifs: vec![], else_clause: None };
    assert!(!if_statement_terminates_switch_case(&without_else));
    let branch_open = IfBody::ColonDelimited {
        statements: vec![Statement::Return],
        else_ifs: vec![vec![echo()]],
        else_clause: Some(vec![Statement::Return]),
    };
    assert!(!if_statement_terminates_switch_case(&branch_open));
    let colon_all = IfBody::ColonDelimited {
        statements: vec![echo(), Statement::Return],
        else_ifs: vec![vec![Statement::Break]],
        else_clause: Some(vec![Statement::Goto]),
    };
    assert!(if_statement_terminates_switch_case(&colon_all));
}

fn var(name: &str) -> Node {
    Node::DirectVariable { name: name.as_bytes().to_vec() }
}

fn use_var(name: &str, by_reference: bool, start: u32) -> ClosureUseVariable {
    ClosureUseVariable { by_reference, name: name.as_bytes().to_vec(), span: span(start, start + name.len() as u32) }
}

fn closure_rule() -> NoUnusedClosureImportRule {
    NoUnusedClosureImportRule::build(NoUnusedClosureImportConfig::default())
}

#[test]
fn used_closure_import_is_ok() {
    let closure = ClosureExpr {
        use_clause: Some(vec![use_var("$greeting", false, 30)]),
        body: vec![Node::Other { children: vec![var("$greeting")] }],
    };
    assert!(closure_rule().check(&closure).is_empty());
    let no_use = ClosureExpr { use_clause: None, body: vec![] };
    assert!(closure_rule().check(&no_use).is_empty());
}

#[test]
fn unused_closure_import_is_reported() {
    let closure = ClosureExpr {
        use_clause: Some(vec![use_var("$unused", false, 30), use_var("$used", false, 40), use_var("$ref", true, 50)]),
        body: vec![var("$used")],
    };
    let issues = closure_rule().check(&closure);
    assert_eq!(issues.len(), 1);
    assert_eq!(text(&issues[0].code), "no-unused-closure-import");
    assert_eq!(text(&issues[0].message), "Unused closure import `$unused`");
    assert_eq!(issues[0].annotations[0].span, span(30, 37));
    assert_eq!(text(issues[0].help.as_ref().unwrap()), "Remove `$unused` from the `use` clause");
}

#[test]
fn variable_uses_in_nested_nodes() {
    assert!(node_uses_variable(&var("$a"), b"$a"));
    assert!(!node_uses_variable(&var("$b"), b"$a"));
    let nested = Node::Closure { use_variables: vec![b"$a".to_vec()] };
    assert!(node_uses_variable(&nested, b"$a"));
    assert!(closure_uses_variable(&vec![b"$x".to_vec(), b"$a".to_vec()], b"$a"));
    assert!(!closure_uses_variable(&vec![], b"$a"));
    let shadowed = Node::ArrowFunction { parameters: vec![b"$a".to_vec()], expression: Box::new(var("$a")) };
    assert!(!node_uses_variable(&shadowed, b"$a"));
    let captured = Box::new(var("$a"));
    assert!(arrow_function_uses_variable(&vec![b"$b".to_vec()], &captured, b"$a"));
    assert!(!arrow_function_uses_variable(&vec![b"$a".to_vec()], &captured, b"$a"));
    let catch = Node::TryCatchClause { block: Box::new(Node::Other { children: vec![var("$a")] }) };
    assert!(node_uses_variable(&catch, b"$a"));
    assert!(node_uses_variable(&Node::StaticConcreteItem { value: Box::new(var("$a")) }, b"$a"));
    for n in [Node::StaticAbstractItem, Node::Global, Node::AnonymousClass, Node::Declaration] {
        assert!(!node_uses_variable(&n, b"$a"));
    }
    assert!(nodes_use_variable(&[var("$x"), Node::Other { children: vec![var("$a")] }], b"$a"));
    assert!(!nodes_use_variable(&[], b"$a"));
}
