use mago_style::lint::ast::{
    BinaryOperator, ExprKind, Expression, Hint, Identifier, NameSite, NamespaceMember, Program,
    TopStatement, UseItems, UseStatement,
};
use mago_style::lint::meta::{Category, NodeKind};
use mago_style::lint::report::{Issue, Level, Span};
use mago_style::lint::rules::global_namespace_import::{
    collect_imported_names, lex_le_bytes, trim_leading_backslashes, FqnCollector,
    GlobalNamespaceImportConfig, GlobalNamespaceImportRule, NameKind,
};

fn span(start: u32, end: u32) -> Span {
    Span { start, end }
}

fn text(v: &[u8]) -> String {
    String::from_utf8(v.to_vec()).unwrap()
}

fn apply_fix(source: &str, issue: &Issue) -> String {
    let mut edits = issue.edits.clone().unwrap();
    edits.sort_by(|a, b| b.start.cmp(&a.start));
    let mut out = source.as_bytes().to_vec();
    for e in edits {
        out.splice(e.start as usize..e.end as usize, e.text.iter().cloned());
    }
    String::from_utf8(out).unwrap()
}

/// The fully-qualified name `written` at its first occurrence in `source`.
fn fq(source: &str, written: &str) -> Identifier {
    let start = source.find(written).unwrap() as u32;
    Identifier::FullyQualified { value: written.as_bytes().to_vec(), span: span(start, start + written.len() as u32) }
}

fn name_expr(id: Identifier) -> Expression {
    let s = match &id {
        Identifier::Local { span, .. } | Identifier::Qualified { span, .. } | Identifier::FullyQualified { span, .. } => *span,
    };
    Expression { kind: ExprKind::Identifier(id), span: s }
}

fn namespace(source: &str, name: &str, members: Vec<NamespaceMember>) -> TopStatement {
    let end = (source.find(name).unwrap() + name.len()) as u32;
    TopStatement::Namespace { name_end: Some(end), statements: members }
}

fn use_stmt(source: &str, written: &str, names: &[&str]) -> UseStatement {
    let start = source.find(written).unwrap() as u32;
    UseStatement {
        span: span(start, start + written.len() as u32),
        items: UseItems::Sequence { names: names.iter().map(|n| n.as_bytes().to_vec()).collect() },
    }
}

fn classes() -> GlobalNamespaceImportRule {
    GlobalNamespaceImportRule::build(GlobalNamespaceImportConfig::default())
}

fn rule(classes: bool, functions: bool, constants: bool) -> GlobalNamespaceImportRule {
    GlobalNamespaceImportRule::build(GlobalNamespaceImportConfig {
        level: Level::Warning,
        import_classes: classes,
        import_functions: functions,
        import_constants: constants,
    })
}

#[test]
fn fqcn_in_namespaced_file_is_reported_with_import_fix() {
    let source = "<?php\n\nnamespace App;\n\n$d = new \\DateTime();\n";
    let program = Program {
        statements: vec![namespace(source, "App", vec![NamespaceMember::Other])],
        sites: vec![NameSite::Instantiation { class: name_expr(fq(source, "\\DateTime")) }],
    };
    let issues = classes().check(&program);
    assert_eq!(issues.len(), 1);
    let issue = &issues[0];
    assert_eq!(issue.level, Level::Warning);
    assert_eq!(text(&issue.code), "global-namespace-import");
    assert_eq!(text(&issue.message), "Fully-qualified name `\\DateTime` should be imported");
    assert_eq!(text(&issue.annotations[0].message), "Use `DateTime` instead of `\\DateTime`");
    assert_eq!(text(issue.help.as_ref().unwrap()), "Add `use DateTime;` and replace `\\DateTime` with `DateTime`");
    assert_eq!(apply_fix(source, issue), "<?php\n\nnamespace App\nuse DateTime;;\n\n$d = new DateTime();\n");
}

#[test]
fn fix_inserts_after_the_last_use_statement() {
    let source = "<?php\n\nnamespace App;\n\nuse Foo\\Bar;\n\n$d = new \\DateTime();\n";
    let program = Program {
        statements: vec![namespace(source, "App", vec![NamespaceMember::Use(use_stmt(source, "use Foo\\Bar;", &["Foo\\Bar"]))])],
        sites: vec![NameSite::Instantiation { class: name_expr(fq(source, "\\DateTime")) }],
    };
    let issues = classes().check(&program);
    assert_eq!(issues.len(), 1);
    assert_eq!(
        apply_fix(source, &issues[0]),
        "<?php\n\nnamespace App;\n\nuse Foo\\Bar;\nuse DateTime;\n\n$d = new DateTime();\n"
    );
}

#[test]
fn already_imported_class_is_ok() {
    let source = "<?php\n\nnamespace App;\n\nuse DateTime;\n\n$d = new \\DateTime();\n";
    let program = Program {
        statements: vec![namespace(source, "App", vec![NamespaceMember::Use(use_stmt(source, "use DateTime;", &["DateTime"]))])],
        sites: vec![NameSite::Instantiation { class: name_expr(fq(source, "\\DateTime")) }],
    };
    assert!(classes().check(&program).is_empty());
}

#[test]
fn root_namespace_fqcn_is_ok() {
    let source = "<?php\n\n$d = new \\DateTime();\n";
    let program = Program {
        statements: vec![TopStatement::Other],
        sites: vec![NameSite::Instantiation { class: name_expr(fq(source, "\\DateTime")) }],
    };
    assert!(classes().check(&program).is_empty());
}

#[test]
fn import_classes_disabled_is_ok() {
    let source = "<?php\n\nnamespace App;\n\n$d = new \\DateTime();\n";
    let program = Program {
        statements: vec![namespace(source, "App", vec![])],
        sites: vec![NameSite::Instantiation { class: name_expr(fq(source, "\\DateTime")) }],
    };
    assert!(rule(false, false, false).check(&program).is_empty());
    assert!(rule(false, true, true).check(&program).is_empty());
}

#[test]
fn multiple_references_are_reported_sorted_by_name() {
    let source = "<?php\n\nnamespace App;\n\n$e = new \\Exception('test');\n$d = new \\DateTime();\n$f = new \\DateTime();\n";
    let second_dt = source.rfind("\\DateTime").unwrap() as u32;
    let program = Program {
        statements: vec![namespace(source, "App", vec![])],
        sites: vec![
            NameSite::Instantiation { class: name_expr(fq(source, "\\Exception")) },
            NameSite::Instantiation { class: name_expr(fq(source, "\\DateTime")) },
            NameSite::Instantiation {
                class: name_expr(Identifier::FullyQualified { value: b"\\DateTime".to_vec(), span: span(second_dt, second_dt + 9) }),
            },
        ],
    };
    let issues = classes().check(&program);
    assert_eq!(issues.len(), 3);
    assert_eq!(text(&issues[0].message), "Fully-qualified name `\\DateTime` should be imported");
    assert_eq!(text(&issues[1].message), "Fully-qualified name `\\DateTime` should be imported");
    assert_eq!(text(&issues[2].message), "Fully-qualified name `\\Exception` should be imported");
    assert!(issues[0].annotations[0].span.start < issues[1].annotations[0].span.start);
    assert_eq!(issues[1].annotations[0].span.start, second_dt);
}

#[test]
fn non_global_and_unqualified_names_are_ok() {
    let source = "<?php\n\nnamespace App;\n\nuse Other\\Service\\Foo;\n\n$f = new Foo();\n$g = new \\Other\\Bar();\n";
    let foo = source.rfind("Foo").unwrap() as u32;
    let program = Program {
        statements: vec![namespace(source, "App", vec![NamespaceMember::Use(use_stmt(source, "use Other\\Service\\Foo;", &["Other\\Service\\Foo"]))])],
        sites: vec![
            NameSite::Instantiation { class: name_expr(Identifier::Local { value: b"Foo".to_vec(), span: span(foo, foo + 3) }) },
            NameSite::Instantiation { class: name_expr(fq(source, "\\Other\\Bar")) },
        ],
    };
    assert!(classes().check(&program).is_empty());
}

#[test]
fn functions_are_reported_only_when_enabled() {
    let source = "<?php\n\nnamespace App;\n\n$len = \\strlen('hello');\n$found = \\in_array(1, [1, 2, 3]);\n";
    let program = Program {
        statements: vec![namespace(source, "App", vec![])],
        sites: vec![
            NameSite::FunctionCall { function: name_expr(fq(source, "\\strlen")) },
            NameSite::FunctionCall { function: name_expr(fq(source, "\\in_array")) },
        ],
    };
    assert!(rule(true, false, false).check(&program).is_empty());
    let issues = rule(false, true, false).check(&program);
    assert_eq!(issues.len(), 2);
    assert_eq!(text(&issues[0].message), "Fully-qualified name `\\in_array` should be imported");
    assert_eq!(text(&issues[1].message), "Fully-qualified name `\\strlen` should be imported");
}

#[test]
fn constants_are_reported_only_when_enabled() {
    let source = "<?php\n\nnamespace App;\n\n$eol = \\PHP_EOL;\n";
    let program = Program {
        statements: vec![namespace(source, "App", vec![])],
        sites: vec![NameSite::ConstantAccess { name: fq(source, "\\PHP_EOL") }],
    };
    assert!(rule(true, false, false).check(&program).is_empty());
    let issues = rule(false, false, true).check(&program);
    assert_eq!(issues.len(), 1);
    assert_eq!(apply_fix(source, &issues[0]), "<?php\n\nnamespace App\nuse PHP_EOL;;\n\n$eol = PHP_EOL;\n");
}

#[test]
fn hints_instanceof_and_static_accesses_name_classes() {
    let source = "<?php\n\nnamespace App;\n\nfunction foo(\\A $d): void {}\n$x = $o instanceof \\B;\n\\C::m();\n\\D::$p;\n\\E::K;\n$y = $o + \\F;\n";
    let program = Program {
        statements: vec![namespace(source, "App", vec![])],
        sites: vec![
            NameSite::Hint(Hint::Identifier(fq(source, "\\A"))),
            NameSite::Hint(Hint::Other),
            NameSite::Binary { operator: BinaryOperator::Instanceof, rhs: name_expr(fq(source, "\\B")) },
            NameSite::StaticMethodCall { class: name_expr(fq(source, "\\C")) },
            NameSite::StaticPropertyAccess { class: name_expr(fq(source, "\\D")) },
            NameSite::ClassConstantAccess { class: name_expr(fq(source, "\\E")) },
            NameSite::Binary { operator: BinaryOperator::Other, rhs: name_expr(fq(source, "\\F")) },
        ],
    };
    let issues = classes().check(&program);
    let names: Vec<String> = issues.iter().map(|i| text(&i.message)).collect();
    assert_eq!(
        names,
        vec![
            "Fully-qualified name `\\A` should be imported",
            "Fully-qualified name `\\B` should be imported",
            "Fully-qualified name `\\C` should be imported",
            "Fully-qualified name `\\D` should be imported",
            "Fully-qualified name `\\E` should be imported",
        ]
    );
}

#[test]
fn mixed_kinds_only_classes_reported() {
    let source = "<?php\n\nnamespace App;\n\n$len = \\strlen('hello');\n$eol = \\PHP_EOL;\n";
    let program = Program {
        statements: vec![namespace(source, "App", vec![])],
        sites: vec![
            NameSite::FunctionCall { function: name_expr(fq(source, "\\strlen")) },
            NameSite::ConstantAccess { name: fq(source, "\\PHP_EOL") },
        ],
    };
    assert!(rule(true, false, false).check(&program).is_empty());
}

#[test]
fn names_inside_use_statements_are_skipped() {
    let source = "<?php\nnamespace App;\nuse \\Foo;\n$b = new \\Bar();\n";
    let program = Program {
        statements: vec![namespace(source, "App", vec![NamespaceMember::Use(use_stmt(source, "use \\Foo;", &["\\Foo"]))])],
        sites: vec![
            NameSite::Instantiation { class: name_expr(fq(source, "\\Foo")) },
            NameSite::Instantiation { class: name_expr(fq(source, "\\Bar")) },
        ],
    };
    let issues = classes().check(&program);
    assert_eq!(issues.len(), 1);
    assert_eq!(text(&issues[0].message), "Fully-qualified name `\\Bar` should be imported");
}

#[test]
fn without_a_place_to_insert_there_is_no_fix() {
    let source = "<?php\nnamespace {\n$d = new \\DateTime();\n}\n";
    let program = Program {
        statements: vec![TopStatement::Namespace { name_end: None, statements: vec![] }],
        sites: vec![NameSite::Instantiation { class: name_expr(fq(source, "\\DateTime")) }],
    };
    let issues = classes().check(&program);
    assert_eq!(issues.len(), 1);
    assert!(issues[0].edits.is_none());
}

#[test]
fn top_level_use_counts_too() {
    let source = "<?php\nuse A\\DateTime;\nnamespace App;\n$d = new \\DateTime();\n";
    let program = Program {
        statements: vec![
            TopStatement::Use(use_stmt(source, "use A\\DateTime;", &["A\\DateTime"])),
            namespace(source, "App", vec![]),
        ],
        sites: vec![NameSite::Instantiation { class: name_expr(fq(source, "\\DateTime")) }],
    };
    assert!(classes().check(&program).is_empty());
}

#[test]
fn collector_and_helpers() {
    let source = "\\\\Foo \\A\\B Bar";
    let mut c = FqnCollector::new();
    c.add_from_identifier(&Identifier::FullyQualified { value: b"\\\\Foo".to_vec(), span: span(0, 5) }, NameKind::Class);
    c.add_from_identifier(&Identifier::FullyQualified { value: b"\\A\\B".to_vec(), span: span(6, 10) }, NameKind::Class);
    c.add_from_identifier(&Identifier::Local { value: b"Bar".to_vec(), span: span(11, 14) }, NameKind::Class);
    c.add_from_expression(&Expression { kind: ExprKind::Other, span: span(0, 1) }, NameKind::Function);
    assert_eq!(source.len(), 14);
    assert_eq!(c.refs.len(), 1);
    assert_eq!(c.refs[0].name, b"Foo".to_vec());
    assert_eq!(c.refs[0].kind, NameKind::Class);
    let collected = FqnCollector::collect(&vec![
        NameSite::FunctionCall { function: name_expr(Identifier::FullyQualified { value: b"\\f".to_vec(), span: span(0, 2) }) },
        NameSite::ConstantAccess { name: Identifier::FullyQualified { value: b"\\K".to_vec(), span: span(3, 5) } },
    ]);
    assert_eq!(collected.refs.len(), 2);
    assert_eq!(collected.refs[0].kind, NameKind::Function);
    assert_eq!(collected.refs[1].kind, NameKind::Constant);
    assert_eq!(trim_leading_backslashes(b"\\\\A\\B"), b"A\\B".to_vec());
    assert_eq!(trim_leading_backslashes(b"A"), b"A".to_vec());
    assert!(lex_le_bytes(b"DateTime", b"Exception"));
    assert!(lex_le_bytes(b"Date", b"DateTime"));
    assert!(lex_le_bytes(b"Same", b"Same"));
    assert!(!lex_le_bytes(b"Exception", b"DateTime"));
    assert!(!lex_le_bytes(b"b", b"B"));
    let mut imported: Vec<Vec<u8>> = Vec::new();
    let u = UseStatement { span: span(0, 1), items: UseItems::MixedList { names: vec![b"\\A\\B".to_vec(), b"C".to_vec()] } };
    collect_imported_names(&u, &mut imported);
    assert_eq!(imported, vec![b"B".to_vec(), b"C".to_vec()]);
    let t = UseStatement { span: span(0, 1), items: UseItems::TypedSequence { names: vec![b"ns\\f".to_vec()] } };
    collect_imported_names(&t, &mut imported);
    assert_eq!(imported.len(), 3);
    assert_eq!(imported[2], b"f".to_vec());
    let again = UseStatement { span: span(0, 1), items: UseItems::Sequence { names: vec![b"X\\C".to_vec(), b"D".to_vec(), b"D".to_vec()] } };
    collect_imported_names(&again, &mut imported);
    assert_eq!(imported, vec![b"B".to_vec(), b"C".to_vec(), b"f".to_vec(), b"D".to_vec()]);
}

#[test]
fn namespace_rule_metadata() {
    let meta = GlobalNamespaceImportRule::meta();
    assert_eq!(meta.code, "global-namespace-import");
    assert_eq!(meta.name, "Global Namespace Import");
    assert_eq!(meta.category, Category::Consistency);
    assert_eq!(GlobalNamespaceImportRule::targets(), vec![NodeKind::Program]);
    let cfg = GlobalNamespaceImportConfig::default();
    assert!(cfg.import_classes && !cfg.import_functions && !cfg.import_constants);
    assert_eq!(cfg.level(), Level::Warning);
    assert!(!GlobalNamespaceImportConfig::default_enabled());
}
