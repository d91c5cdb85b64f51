use mago_style::lint::ast::{
    Binary, BinaryOperator, ControlKind, ControlStructure, ExprKind, Expression, IncrementSite,
    LiteralKind, PlainProperty, PostfixOperator, PropertyItem, UseItem, UseItemAlias,
};
use mago_style::lint::meta::{Category, NodeKind};
use mago_style::lint::report::{Annotation, Issue, Level, Span, TextEdit};
use mago_style::lint::rules::line_length_limit::{LineLengthLimitConfig, LineLengthLimitRule};
use mago_style::lint::rules::no_alternative_syntax::{
    keyword_text, NoAlternativeSyntaxConfig, NoAlternativeSyntaxRule,
};
use mago_style::lint::rules::no_null_property_init::{NoNullPropertyInitConfig, NoNullPropertyInitRule};
use mago_style::lint::rules::no_unneeded_import_alias::{
    bytes_eq, NoUnneededImportAliasConfig, NoUnneededImportAliasRule,
};
use mago_style::lint::rules::prefer_pre_increment::{PreferPreIncrementConfig, PreferPreIncrementRule};
use mago_style::lint::rules::yoda_conditions::{
    flip_comparison_operator, is_constant_like, is_writable_variable, YodaConditionsConfig,
    YodaConditionsRule, YodaConditionsStyle,
};

fn span(start: u32, end: u32) -> Span {
    Span { start, end }
}

fn expr(kind: ExprKind, start: u32, end: u32) -> Expression {
    Expression { kind, span: span(start, end) }
}

fn text(v: &[u8]) -> String {
    String::from_utf8(v.to_vec()).unwrap()
}

/// Applies the edits of an issue to the source, from the last to the first.
fn apply_fix(source: &str, issue: &Issue) -> String {
    let mut edits = issue.edits.clone().unwrap();
    edits.sort_by(|a, b| b.start.cmp(&a.start));
    let mut out = source.as_bytes().to_vec();
    for e in edits {
        out.splice(e.start as usize..e.end as usize, e.text.iter().cloned());
    }
    String::from_utf8(out).unwrap()
}

fn post_increment(source: &str, var: &str, start: u32) -> Expression {
    let end = start + var.len() as u32;
    assert_eq!(&source[start as usize..end as usize], var);
    expr(
        ExprKind::UnaryPostfix {
            operator: PostfixOperator::PostIncrement,
            operator_span: span(end, end + 2),
            operand: span(start, end),
        },
        start,
        end + 2,
    )
}

#[test]
fn span_join_runs_from_first_start_to_second_end() {
    let s = span(3, 5).join(span(10, 12));
    assert_eq!(s, span(3, 12));
}

#[test]
fn issue_builders_fill_each_part() {
    let issue = Issue::new(Level::Error, b"m".to_vec())
        .with_code(b"c".to_vec())
        .with_annotation(Annotation::primary(span(1, 2), b"p".to_vec()))
        .with_annotation(Annotation::secondary(span(0, 3), b"s".to_vec()))
        .with_note(b"n".to_vec())
        .with_help(b"h".to_vec())
        .with_edits(vec![TextEdit::replace(span(1, 2), b"x".to_vec()), TextEdit::delete(4, 6)]);
    assert_eq!(issue.level, Level::Error);
    assert_eq!(issue.code, b"c".to_vec());
    assert_eq!(issue.message, b"m".to_vec());
    assert_eq!(issue.annotations.len(), 2);
    assert!(issue.annotations[0].primary);
    assert!(!issue.annotations[1].primary);
    assert_eq!(issue.notes, vec![b"n".to_vec()]);
    assert_eq!(issue.help, Some(b"h".to_vec()));
    let edits = issue.edits.unwrap();
    assert_eq!((edits[0].start, edits[0].end, edits[0].text.clone()), (1, 2, b"x".to_vec()));
    assert_eq!((edits[1].start, edits[1].end, edits[1].text.clone()), (4, 6, Vec::new()));
}

#[test]
fn rule_metadata_codes_and_targets() {
    assert_eq!(PreferPreIncrementRule::meta().code, "prefer-pre-increment");
    assert_eq!(PreferPreIncrementRule::meta().category, Category::BestPractices);
    assert_eq!(PreferPreIncrementRule::targets(), vec![NodeKind::ExpressionStatement, NodeKind::For]);
    assert_eq!(YodaConditionsRule::meta().code, "yoda-conditions");
    assert_eq!(YodaConditionsRule::targets(), vec![NodeKind::Binary]);
    assert_eq!(NoAlternativeSyntaxRule::meta().code, "no-alternative-syntax");
    assert_eq!(
        NoAlternativeSyntaxRule::targets(),
        vec![NodeKind::If, NodeKind::While, NodeKind::For, NodeKind::Foreach, NodeKind::Switch, NodeKind::Declare]
    );
    assert_eq!(NoNullPropertyInitRule::meta().code, "no-null-property-init");
    assert_eq!(NoNullPropertyInitRule::targets(), vec![NodeKind::PlainProperty]);
    assert_eq!(NoUnneededImportAliasRule::meta().code, "no-unneeded-import-alias");
    assert_eq!(NoUnneededImportAliasRule::targets(), vec![NodeKind::UseItem]);
    assert_eq!(LineLengthLimitRule::meta().code, "line-length-limit");
    assert_eq!(LineLengthLimitRule::meta().category, Category::Maintainability);
    assert_eq!(LineLengthLimitRule::targets(), vec![NodeKind::Program]);
}

#[test]
fn config_defaults() {
    let p = PreferPreIncrementConfig::default();
    assert_eq!(p.level(), p.level);
    assert!(!PreferPreIncrementConfig::default_enabled());
    let y = YodaConditionsConfig::default();
    assert_eq!(y.level, Level::Help);
    assert_eq!(y.style, YodaConditionsStyle::Yoda);
    assert_eq!(YodaConditionsStyle::default(), YodaConditionsStyle::Yoda);
    let l = LineLengthLimitConfig::default();
    assert_eq!(l.max_length, 120);
    assert_eq!(l.level(), Level::Warning);
    assert!(!LineLengthLimitConfig::default_enabled());
    let _ = NoAlternativeSyntaxConfig::default();
    let _ = NoNullPropertyInitConfig::default();
    let _ = NoUnneededImportAliasConfig::default();
}

#[test]
fn build_keeps_the_settings() {
    let cfg = LineLengthLimitConfig { level: Level::Error, max_length: 7 };
    let rule = LineLengthLimitRule::build(cfg);
    assert_eq!(rule.cfg.max_length, 7);
    assert_eq!(rule.cfg.level, Level::Error);
    assert_eq!(rule.meta.code, "line-length-limit");
}

#[test]
fn post_increment_statement_is_reported_with_fix() {
    let source = "<?php\n\n$i++;\n";
    let e = post_increment(source, "$i", 7);
    let rule = PreferPreIncrementRule::build(PreferPreIncrementConfig::default());
    let issues = rule.check(source.as_bytes(), &IncrementSite::ExpressionStatement { expression: e });
    assert_eq!(issues.len(), 1);
    assert_eq!(text(&issues[0].code), "prefer-pre-increment");
    assert_eq!(text(&issues[0].message), "Use pre-increment `++$var` instead of post-increment `$var++`");
    assert_eq!(issues[0].annotations[0].span, span(9, 11));
    assert_eq!(apply_fix(source, &issues[0]), "<?php\n\n++$i;\n");
}

#[test]
fn post_decrement_statement_is_reported_with_fix() {
    let source = "<?php\n\n$count--;\n";
    let e = expr(
        ExprKind::UnaryPostfix {
            operator: PostfixOperator::PostDecrement,
            operator_span: span(13, 15),
            operand: span(7, 13),
        },
        7,
        15,
    );
    let rule = PreferPreIncrementRule::build(PreferPreIncrementConfig::default());
    let issues = rule.check(source.as_bytes(), &IncrementSite::ExpressionStatement { expression: e });
    assert_eq!(issues.len(), 1);
    assert_eq!(text(&issues[0].message), "Use pre-decrement `--$var` instead of post-decrement `$var--`");
    assert_eq!(apply_fix(source, &issues[0]), "<?php\n\n--$count;\n");
}

#[test]
fn post_increment_in_for_loop_is_reported() {
    let source = "<?php\n\nfor ($i = 0; $i < $count; $i++) {\n}\n";
    let start = source.find("$i++").unwrap() as u32;
    let e = post_increment(source, "$i", start);
    let rule = PreferPreIncrementRule::build(PreferPreIncrementConfig::default());
    let site = IncrementSite::For { increments: vec![expr(ExprKind::Other, 0, 1), e] };
    let issues = rule.check(source.as_bytes(), &site);
    assert_eq!(issues.len(), 1);
    assert_eq!(apply_fix(source, &issues[0]), "<?php\n\nfor ($i = 0; $i < $count; ++$i) {\n}\n");
}

#[test]
fn pre_increment_and_other_sites_are_ok() {
    let rule = PreferPreIncrementRule::build(PreferPreIncrementConfig::default());
    let source = "<?php\n\n++$i;\n";
    let site = IncrementSite::ExpressionStatement { expression: expr(ExprKind::Other, 7, 11) };
    assert!(rule.check(source.as_bytes(), &site).is_empty());
    assert!(rule.check(source.as_bytes(), &IncrementSite::Other).is_empty());
}

fn variable(start: u32, end: u32) -> Expression {
    expr(ExprKind::Variable, start, end)
}

fn constant(start: u32, end: u32) -> Expression {
    expr(ExprKind::ConstantAccess, start, end)
}

fn integer(start: u32, end: u32, v: u64) -> Expression {
    expr(ExprKind::Literal(LiteralKind::Integer { value: Some(v) }), start, end)
}

#[test]
fn yoda_style_reports_variable_on_left_with_swap_fix() {
    let source = "if ($is_active === true) { }";
    let b = Binary {
        lhs: variable(4, 14),
        operator: BinaryOperator::Identical,
        operator_span: span(15, 18),
        rhs: constant(19, 23),
    };
    let rule = YodaConditionsRule::build(YodaConditionsConfig::default());
    let issue = rule.check(source.as_bytes(), &b).unwrap();
    assert_eq!(issue.level, Level::Help);
    assert_eq!(text(&issue.code), "yoda-conditions");
    assert_eq!(text(&issue.message), "Use Yoda condition style for safer comparisons");
    assert_eq!(issue.annotations[0].span, span(15, 18));
    assert_eq!(issue.notes.len(), 1);
    assert_eq!(apply_fix(source, &issue), "if (true === $is_active) { }");
}

#[test]
fn yoda_style_accepts_constant_on_left_and_ignores_comparisons() {
    let rule = YodaConditionsRule::build(YodaConditionsConfig::default());
    let source = "5 === $count";
    let ok = Binary { lhs: integer(0, 1, 5), operator: BinaryOperator::Identical, operator_span: span(2, 5), rhs: variable(6, 12) };
    assert!(rule.check(source.as_bytes(), &ok).is_none());
    let source = "$count > 5";
    let cmp = Binary { lhs: variable(0, 6), operator: BinaryOperator::GreaterThan, operator_span: span(7, 8), rhs: integer(9, 10, 5) };
    assert!(rule.check(source.as_bytes(), &cmp).is_none());
}

#[test]
fn non_yoda_style_reports_constant_on_left_and_flips_comparison() {
    let cfg = YodaConditionsConfig { level: Level::Warning, style: YodaConditionsStyle::NonYoda };
    let rule = YodaConditionsRule::build(cfg);
    let source = "if (5 < $count) { }";
    let b = Binary { lhs: integer(4, 5, 5), operator: BinaryOperator::LessThan, operator_span: span(6, 7), rhs: variable(8, 14) };
    let issue = rule.check(source.as_bytes(), &b).unwrap();
    assert_eq!(issue.level, Level::Warning);
    assert_eq!(text(&issue.message), "Use non-Yoda condition style for readability");
    assert_eq!(apply_fix(source, &issue), "if ($count > 5) { }");

    let source = "if (10 >= $count) { }";
    let b = Binary { lhs: integer(4, 6, 10), operator: BinaryOperator::GreaterThanOrEqual, operator_span: span(7, 9), rhs: variable(10, 16) };
    let issue = rule.check(source.as_bytes(), &b).unwrap();
    assert_eq!(apply_fix(source, &issue), "if ($count <= 10) { }");

    let source = "if (true === $is_active) { }";
    let b = Binary { lhs: constant(4, 8), operator: BinaryOperator::Identical, operator_span: span(9, 12), rhs: variable(13, 23) };
    let issue = rule.check(source.as_bytes(), &b).unwrap();
    assert_eq!(apply_fix(source, &issue), "if ($is_active === true) { }");
}

#[test]
fn non_yoda_style_accepts_variables_or_constants_on_both_sides() {
    let cfg = YodaConditionsConfig { level: Level::Help, style: YodaConditionsStyle::NonYoda };
    let rule = YodaConditionsRule::build(cfg);
    let two_vars = Binary { lhs: variable(0, 2), operator: BinaryOperator::Identical, operator_span: span(3, 6), rhs: variable(7, 9) };
    assert!(rule.check(b"$a === $b", &two_vars).is_none());
    let two_consts = Binary { lhs: integer(0, 1, 1), operator: BinaryOperator::Identical, operator_span: span(2, 5), rhs: integer(6, 7, 2) };
    assert!(rule.check(b"1 === 2", &two_consts).is_none());
    let var_left = Binary { lhs: variable(0, 2), operator: BinaryOperator::NotIdentical, operator_span: span(3, 6), rhs: expr(ExprKind::Literal(LiteralKind::Null), 7, 11) };
    assert!(rule.check(b"$x !== null", &var_left).is_none());
}

#[test]
fn comparison_operators_flip_to_their_mirror() {
    let ops = [
        BinaryOperator::LessThan,
        BinaryOperator::LessThanOrEqual,
        BinaryOperator::GreaterThan,
        BinaryOperator::GreaterThanOrEqual,
    ];
    let texts = [">", ">=", "<", "<="];
    for (op, t) in ops.iter().zip(texts.iter()) {
        assert_eq!(flip_comparison_operator(*op), Some(*t));
    }
    assert_eq!(flip_comparison_operator(BinaryOperator::Identical), None);
    assert_eq!(flip_comparison_operator(BinaryOperator::Equal), None);
}

#[test]
fn constant_like_and_writable_classification() {
    assert!(is_constant_like(&integer(0, 1, 1)));
    assert!(is_constant_like(&expr(ExprKind::MagicConstant, 0, 1)));
    assert!(is_constant_like(&expr(ExprKind::Array, 0, 1)));
    assert!(is_constant_like(&expr(ExprKind::LegacyArray, 0, 1)));
    assert!(!is_constant_like(&variable(0, 1)));
    assert!(is_writable_variable(&variable(0, 1)));
    assert!(is_writable_variable(&expr(ExprKind::Access, 0, 1)));
    assert!(is_writable_variable(&expr(ExprKind::ArrayAccess, 0, 1)));
    assert!(!is_writable_variable(&expr(ExprKind::Other, 0, 1)));
}

#[test]
fn alternative_syntax_is_reported_at_end_keyword() {
    let rule = NoAlternativeSyntaxRule::build(NoAlternativeSyntaxConfig::default());
    let node = ControlStructure { kind: ControlKind::Foreach, end_keyword: Some(span(40, 50)) };
    let issue = rule.check(&node).unwrap();
    assert_eq!(text(&issue.code), "no-alternative-syntax");
    assert_eq!(text(&issue.message), "Do not use alternative syntax `endforeach`");
    assert_eq!(issue.annotations[0].span, span(40, 50));
    assert_eq!(text(&issue.annotations[0].message), "`endforeach` \u{2014} use brace syntax instead");
    assert_eq!(
        text(issue.help.as_ref().unwrap()),
        "Replace the colon-delimited `foreach:...endforeach;` with brace syntax `foreach { ... }`"
    );
    assert!(issue.edits.is_none());
}

#[test]
fn brace_syntax_is_not_reported() {
    let rule = NoAlternativeSyntaxRule::build(NoAlternativeSyntaxConfig::default());
    for kind in [ControlKind::If, ControlKind::While, ControlKind::For, ControlKind::Switch, ControlKind::Declare] {
        assert!(rule.check(&ControlStructure { kind, end_keyword: None }).is_none());
    }
    assert_eq!(keyword_text(ControlKind::Declare), "declare");
    assert_eq!(keyword_text(ControlKind::If), "if");
}

#[test]
fn null_initialized_untyped_property_is_reported_with_fix() {
    let source = "class A { public $a = null, $b = 1, $c; }";
    let a = source.find("$a").unwrap() as u32;
    let eq = source.find("= null").unwrap() as u32;
    let null_start = eq + 2;
    let items = vec![
        PropertyItem::Concrete {
            variable: span(a, a + 2),
            equals: span(eq, eq + 1),
            value: expr(ExprKind::Literal(LiteralKind::Null), null_start, null_start + 4),
        },
        PropertyItem::Concrete {
            variable: span(28, 30),
            equals: span(31, 32),
            value: integer(33, 34, 1),
        },
        PropertyItem::Abstract { variable: span(36, 38) },
    ];
    let rule = NoNullPropertyInitRule::build(NoNullPropertyInitConfig::default());
    let issues = rule.check(&PlainProperty { has_hint: false, items: items.clone() });
    assert_eq!(issues.len(), 1);
    assert_eq!(text(&issues[0].message), "Redundant `= null` initialization on untyped property");
    assert_eq!(issues[0].annotations[0].span, span(null_start, null_start + 4));
    let edit = &issues[0].edits.as_ref().unwrap()[0];
    assert_eq!((edit.start, edit.end), (eq, null_start + 4));
    assert!(edit.text.is_empty());
    assert!(rule.check(&PlainProperty { has_hint: true, items }).is_empty());
}

#[test]
fn alias_equal_to_last_segment_is_reported() {
    let source = "use App\\Models\\User as User;";
    let name_end = source.find(" as").unwrap() as u32;
    let as_start = name_end + 1;
    let id_start = as_start + 3;
    let item = UseItem {
        name: span(4, name_end),
        alias: Some(UseItemAlias { as_keyword: span(as_start, as_start + 2), identifier: span(id_start, id_start + 4) }),
    };
    let rule = NoUnneededImportAliasRule::build(NoUnneededImportAliasConfig::default());
    let issue = rule.check(source.as_bytes(), &item).unwrap();
    assert_eq!(text(&issue.message), "Unnecessary import alias `as User`");
    assert_eq!(issue.annotations[0].span, span(as_start, id_start + 4));
    assert_eq!(apply_fix(source, &issue), "use App\\Models\\User;");
}

#[test]
fn different_alias_or_no_alias_is_ok() {
    let source = "use App\\Models\\User as Member;";
    let item = UseItem {
        name: span(4, 19),
        alias: Some(UseItemAlias { as_keyword: span(20, 22), identifier: span(23, 29) }),
    };
    let rule = NoUnneededImportAliasRule::build(NoUnneededImportAliasConfig::default());
    assert!(rule.check(source.as_bytes(), &item).is_none());
    assert!(rule.check(source.as_bytes(), &UseItem { name: span(4, 19), alias: None }).is_none());
    assert!(bytes_eq(b"abc", b"abc"));
    assert!(!bytes_eq(b"abc", b"abd"));
    assert!(!bytes_eq(b"abc", b"ab"));
}

fn line_rule(max: usize) -> LineLengthLimitRule {
    LineLengthLimitRule::build(LineLengthLimitConfig { level: Level::Warning, max_length: max })
}

#[test]
fn short_lines_are_ok() {
    let source = "<?php\n\n$x = 1;\n$y = 'hello world';\n";
    assert!(line_rule(120).check(source.as_bytes()).is_empty());
}

#[test]
fn long_code_line_is_reported_with_exact_text() {
    let source = "<?php\n\n$veryLongVariable = someFunction($parameterOne, $parameterTwo);\n";
    let issues = line_rule(40).check(source.as_bytes());
    assert_eq!(issues.len(), 1);
    let len = "$veryLongVariable = someFunction($parameterOne, $parameterTwo);".len();
    assert_eq!(text(&issues[0].message), format!("Line 3 exceeds 40 characters ({} characters)", len));
    assert_eq!(text(&issues[0].annotations[0].message), format!("{} characters over limit", len - 40));
    assert_eq!(issues[0].annotations[0].span, span(7 + 40, 7 + len as u32));
    assert_eq!(issues[0].annotations[1].span, span(7, 7 + len as u32));
    assert!(!issues[0].annotations[1].primary);
    assert_eq!(text(issues[0].help.as_ref().unwrap()), "Consider breaking this line into multiple lines");
}

#[test]
fn long_comment_and_string_lines_are_skipped() {
    let comment = "<?php\n\n// This is a very long comment that exceeds the forty character limit but should be skipped\n";
    assert!(line_rule(40).check(comment.as_bytes()).is_empty());
    let doc = "<?php\n/**\n * A long docblock line that goes on and on well past the limit\n */\n";
    assert!(line_rule(40).check(doc.as_bytes()).is_empty());
    let string = "<?php\n    'a string literal that is far too long for the limit of forty'\n";
    assert!(line_rule(40).check(string.as_bytes()).is_empty());
}

#[test]
fn multiple_long_lines_are_each_reported() {
    let source = "<?php\n\n$first = someFunction($parameterOne, $parameterTwo);\n$x = 1;\n$second = anotherFunction($parameterThree, $parameterFour);\n";
    let issues = line_rule(30).check(source.as_bytes());
    assert_eq!(issues.len(), 2);
    assert!(text(&issues[0].message).starts_with("Line 3 exceeds 30 characters"));
    assert!(text(&issues[1].message).starts_with("Line 5 exceeds 30 characters"));
}

#[test]
fn line_at_exact_limit_is_ok_and_crlf_is_not_counted() {
    assert!(line_rule(5).check(b"<?php\n").is_empty());
    assert!(line_rule(5).check(b"<?php\r\n").is_empty());
    let issues = line_rule(4).check(b"<?php\r\n");
    assert_eq!(issues.len(), 1);
    assert_eq!(text(&issues[0].message), "Line 1 exceeds 4 characters (5 characters)");
}

#[test]
fn line_length_counts_characters_not_bytes() {
    let source = format!("<?php\n$a = '{}';\n", "\u{e9}".repeat(30));
    assert!(line_rule(40).check(source.as_bytes()).is_empty());
    let issues = line_rule(20).check(source.as_bytes());
    assert_eq!(issues.len(), 1);
    assert_eq!(text(&issues[0].message), "Line 2 exceeds 20 characters (38 characters)");
    assert_eq!(text(&issues[0].annotations[0].message), "18 characters over limit");
    let line_start = 6u32;
    let line_bytes = source.lines().nth(1).unwrap().len() as u32;
    let over_start = source[6..].char_indices().nth(20).unwrap().0 as u32;
    assert_eq!(issues[0].annotations[0].span, span(line_start + over_start, line_start + line_bytes));
    assert_eq!(issues[0].annotations[1].span, span(line_start, line_start + line_bytes));
}
