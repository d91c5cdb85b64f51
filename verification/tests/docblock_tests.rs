use mago_style::docblock::layout::{build_multiline_tag_raw, format_tags_aligned, format_tags_unaligned};
use mago_style::docblock::model::{
    Document, Element, FormatSettings, PhpdocAlign, PhpdocNullPosition, TagKind, TagLine, TextSegment,
};
use mago_style::docblock::parts::{parse_tag_parts, split_type_from_desc, split_variable, tag_priority};
use mago_style::docblock::reformat::{docblock_scan_is_safe, reformat_docblock, sort_tags, tag_scan_is_safe};
use mago_style::docblock::types::{
    check_scalar_word, is_scalar_scan_safe, move_null_to_end, normalize_scalar_types, reorder_outer_union_null, split_top_level,
};

fn b(s: &str) -> Vec<u8> {
    s.as_bytes().to_vec()
}

fn text(v: &[u8]) -> String {
    String::from_utf8(v.to_vec()).unwrap()
}

fn settings(scalar: bool, null_last: bool, vertical: bool) -> FormatSettings {
    FormatSettings {
        phpdoc_scalar_types: scalar,
        phpdoc_null_position: if null_last { PhpdocNullPosition::Last } else { PhpdocNullPosition::Keep },
        phpdoc_align: if vertical { PhpdocAlign::Vertical } else { PhpdocAlign::Left },
    }
}

fn para(s: &str) -> Element {
    Element::Text { segments: vec![TextSegment::Paragraph { content: b(s) }] }
}

fn tag(kind: TagKind, name: &str, description: &str) -> Element {
    Element::Tag { kind, name: b(name), description: b(description) }
}

const DOC: &str = "/**\n * parsed\n */";

fn reformat(s: &FormatSettings, elements: Vec<Element>) -> Option<String> {
    let doc = Document { elements };
    reformat_docblock(s, DOC.as_bytes(), Some(&doc)).map(|v| text(&v))
}

#[test]
fn description_and_tags_are_rewritten() {
    let out = reformat(
        &settings(true, true, false),
        vec![
            para("Does a thing."),
            Element::Line,
            tag(TagKind::Param, "param", "integer|null $x The x."),
            tag(TagKind::Return, "return", "boolean"),
        ],
    );
    assert_eq!(
        out.unwrap(),
        "/**\n * Does a thing.\n *\n * @param int|null $x The x.\n *\n * @return bool\n */"
    );
}

#[test]
fn tags_are_sorted_by_priority_and_null_moves_last() {
    let out = reformat(
        &settings(false, true, false),
        vec![
            tag(TagKind::Other, "since", "1.0"),
            tag(TagKind::Return, "return", "string"),
            tag(TagKind::Throws, "throws", "\\RuntimeException when it fails"),
            tag(TagKind::Param, "param", "null|string $a"),
            tag(TagKind::Param, "param", "int $b"),
        ],
    );
    assert_eq!(
        out.unwrap(),
        "/**\n * @param string|null $a\n * @param int $b\n *\n * @return string\n *\n * @throws \\RuntimeException when it fails\n *\n * @since 1.0\n */"
    );
}

#[test]
fn settings_off_keep_types_as_written() {
    let out = reformat(&settings(false, false, false), vec![tag(TagKind::Param, "param", "null|integer $x")]);
    assert_eq!(out.unwrap(), "/**\n * @param null|integer $x\n */");
}

#[test]
fn vertical_alignment_lines_up_columns() {
    let out = reformat(
        &settings(false, false, true),
        vec![
            tag(TagKind::Param, "param", "int $a First"),
            tag(TagKind::Param, "param", "string $bb Second"),
            tag(TagKind::Param, "param", "array<int, string> $c"),
            tag(TagKind::Return, "return", "void"),
        ],
    )
    .unwrap();
    let expected = format!(
        "/**\n * @param int{} $a  First\n * @param string{} $bb Second\n * @param array<int, string> $c\n *\n * @return void\n */",
        " ".repeat(15),
        " ".repeat(12)
    );
    assert_eq!(out, expected);
    let lines: Vec<&str> = out.lines().collect();
    let col_a = lines[1].find("$a").unwrap();
    let col_bb = lines[2].find("$bb").unwrap();
    let col_c = lines[3].find("$c").unwrap();
    assert_eq!(col_a, col_bb);
    assert_eq!(col_a, col_c);
    assert_eq!(lines[1].find("First").unwrap(), lines[2].find("Second").unwrap());
}

#[test]
fn alignment_pads_shorter_tag_names_before_the_type() {
    let tags = vec![
        TagLine { tag_name: b("@var"), type_str: Some(b("int")), variable: Some(b("$x")), description: Vec::new(), priority: 3, original_index: 0, raw_lines: None },
        TagLine { tag_name: b("@property"), type_str: Some(b("string")), variable: Some(b("$name")), description: b("The name"), priority: 3, original_index: 1, raw_lines: None },
    ];
    let lines: Vec<String> = format_tags_aligned(&tags).iter().map(|l| text(l)).collect();
    assert_eq!(lines, vec![format!("@var{}int{}$x", " ".repeat(6), " ".repeat(4)), "@property string $name The name".to_string()]);
    let plain: Vec<String> = format_tags_unaligned(&tags).iter().map(|l| text(l)).collect();
    assert_eq!(plain, vec!["@var int $x".to_string(), "@property string $name The name".to_string()]);
    let params = vec![
        TagLine { tag_name: b("@param"), type_str: Some(b("int")), variable: Some(b("$a")), description: Vec::new(), priority: 0, original_index: 0, raw_lines: None },
        TagLine { tag_name: b("@psalm-param"), type_str: Some(b("string")), variable: Some(b("$b")), description: Vec::new(), priority: 0, original_index: 1, raw_lines: None },
    ];
    let lines: Vec<String> = format_tags_aligned(&params).iter().map(|l| text(l)).collect();
    assert_eq!(lines, vec!["@param       int    $a".to_string(), "@psalm-param string $b".to_string()]);
    let no_types = vec![
        TagLine { tag_name: b("@since"), type_str: None, variable: None, description: b("1.0"), priority: 3, original_index: 0, raw_lines: None },
        TagLine { tag_name: b("@deprecated"), type_str: None, variable: None, description: b("use x"), priority: 3, original_index: 1, raw_lines: None },
        TagLine { tag_name: b("@internal"), type_str: None, variable: None, description: Vec::new(), priority: 3, original_index: 2, raw_lines: None },
    ];
    let lines: Vec<String> = format_tags_aligned(&no_types).iter().map(|l| text(l)).collect();
    assert_eq!(lines, vec!["@since      1.0".to_string(), "@deprecated use x".to_string(), "@internal".to_string()]);
}

#[test]
fn empty_docblock_is_removed() {
    let out = reformat(&settings(true, true, true), vec![Element::Line, tag(TagKind::Access, "access", "public"), tag(TagKind::Package, "package", "x")]);
    assert_eq!(out, None);
    let out = reformat(&settings(true, true, true), vec![]);
    assert_eq!(out, None);
    let doc = Document { elements: vec![] };
    assert!(reformat_docblock(&settings(false, false, false), b"/**\n */", Some(&doc)).is_none());
}

#[test]
fn not_a_multi_line_docblock_or_unparsed_is_left_alone() {
    let doc = Document { elements: vec![para("x")] };
    let s = settings(true, true, false);
    assert!(reformat_docblock(&s, b"/* plain\n */", Some(&doc)).is_none());
    assert!(reformat_docblock(&s, b"/** one line */", Some(&doc)).is_none());
    assert!(reformat_docblock(&s, DOC.as_bytes(), None).is_none());
    let with_code = Document { elements: vec![para("x"), Element::Code { directives: vec![b("php")], content: b("echo 1;") }] };
    assert!(reformat_docblock(&s, DOC.as_bytes(), Some(&with_code)).is_none());
}

#[test]
fn aliases_are_renamed_and_access_package_dropped() {
    let out = reformat(
        &settings(false, false, false),
        vec![
            tag(TagKind::Type, "type", "int $x"),
            tag(TagKind::Other, "link", "https://example.com"),
            tag(TagKind::Access, "access", "private"),
            tag(TagKind::Other, "see", "Foo::bar()"),
        ],
    );
    assert_eq!(out.unwrap(), "/**\n * @var int $x\n * @see https://example.com\n * @see Foo::bar()\n */");
}

#[test]
fn description_pieces_and_blank_lines() {
    let out = reformat(
        &settings(false, false, false),
        vec![
            Element::Line,
            para("  First line  \n\n  second "),
            Element::Line,
            Element::Line,
            Element::Text {
                segments: vec![
                    TextSegment::InlineCode { content: b("x()") },
                    TextSegment::InlineTag { name: b("see"), description: b(" Foo ") },
                    TextSegment::InlineTag { name: b("inheritDoc"), description: b("  ") },
                ],
            },
            Element::Annotation { name: b("Route"), arguments: Some(b("\"/\"")) },
            Element::Annotation { name: b("Deprecated"), arguments: None },
            Element::Line,
            Element::Line,
        ],
    );
    assert_eq!(
        out.unwrap(),
        "/**\n * First line\n * second\n *\n * `x()`\n * {@see Foo}\n * {@inheritDoc}\n * @Route(\"/\")\n * @Deprecated\n */"
    );
}

#[test]
fn text_after_the_first_tag_is_not_description() {
    let out = reformat(
        &settings(false, false, false),
        vec![tag(TagKind::Return, "return", "int"), para("ignored"), Element::Annotation { name: b("X"), arguments: None }],
    );
    assert_eq!(out.unwrap(), "/**\n * @return int\n */");
}

#[test]
fn multi_line_tag_keeps_its_structure() {
    let out = reformat(
        &settings(true, false, false),
        vec![tag(TagKind::Return, "return", "array{\n    id: integer,\n\n    name: string\n}")],
    );
    assert_eq!(
        out.unwrap(),
        "/**\n * @return array{\n *   id: integer,\n * \n *   name: string\n *   }\n */"
    );
    let raw = build_multiline_tag_raw(b"param", b"integer|null $x\n  more", &settings(true, true, false));
    let raw: Vec<String> = raw.iter().map(|l| text(l)).collect();
    assert_eq!(raw, vec!["@param int|null $x".to_string(), "  more".to_string()]);
}

#[test]
fn splitting_the_type_from_a_description() {
    let (t, rest) = split_type_from_desc(b"  array<int, string> $x rest");
    assert_eq!(t, Some(b("array<int, string>")));
    assert_eq!(rest, b(" $x rest"));
    let (t, rest) = split_type_from_desc(b"$x rest");
    assert_eq!(t, None);
    assert_eq!(rest, b("$x rest"));
    let (t, rest) = split_type_from_desc(b"   ");
    assert_eq!(t, None);
    assert!(rest.is_empty());
    for input in ["  array<int, string> $x rest", "int", " Foo|Bar<x y> z ", "$v"] {
        let (t, rest) = split_type_from_desc(input.as_bytes());
        let mut joined = t.unwrap_or_default();
        joined.extend(rest);
        assert_eq!(joined, input.trim_start().as_bytes().to_vec());
        let (v, rest) = split_variable(input.as_bytes());
        let mut joined = v.unwrap_or_default();
        joined.extend(rest);
        assert_eq!(joined, input.trim_start().as_bytes().to_vec());
    }
    let (t, rest) = split_type_from_desc(b"callable(int): void\tdesc");
    assert_eq!(t, Some(b("callable(int):")));
    assert_eq!(rest, b(" void\tdesc"));
}

#[test]
fn splitting_the_variable() {
    assert_eq!(split_variable(b"...$args rest"), (Some(b("...$args")), b(" rest")));
    assert_eq!(split_variable(b"&$ref"), (Some(b("&$ref")), Vec::new()));
    assert_eq!(split_variable(b"  $a_b1-c"), (Some(b("$a_b1")), b("-c")));
    assert_eq!(split_variable(b"foo"), (None, b("foo")));
    assert_eq!(split_variable(b"..."), (None, b("...")));
}

#[test]
fn tag_parts_by_kind() {
    assert_eq!(parse_tag_parts(b"int $x desc", TagKind::Param), (Some(b("int")), Some(b("$x")), b("desc")));
    assert_eq!(parse_tag_parts(b"$x desc", TagKind::PsalmParam), (None, Some(b("$x")), b("desc")));
    assert_eq!(parse_tag_parts(b"Foo bar", TagKind::Return), (Some(b("Foo")), None, b("bar")));
    assert_eq!(parse_tag_parts(b"\\Exception when bad", TagKind::Throws), (Some(b("\\Exception")), None, b("when bad")));
    assert_eq!(parse_tag_parts(b"$x", TagKind::Var), (None, None, b("$x")));
    assert_eq!(parse_tag_parts(b"string $name The name", TagKind::PropertyRead), (Some(b("string")), Some(b("$name")), b("The name")));
    assert_eq!(parse_tag_parts(b"  Some text ", TagKind::Other), (None, None, b("Some text")));
    assert_eq!(parse_tag_parts(b"   ", TagKind::Param), (None, None, Vec::new()));
}

#[test]
fn priorities_of_tag_kinds() {
    assert_eq!(tag_priority(TagKind::Param), 0);
    assert_eq!(tag_priority(TagKind::PsalmParam), 0);
    assert_eq!(tag_priority(TagKind::PhpstanParam), 0);
    assert_eq!(tag_priority(TagKind::Return), 1);
    assert_eq!(tag_priority(TagKind::PhpstanReturn), 1);
    assert_eq!(tag_priority(TagKind::Throws), 2);
    assert_eq!(tag_priority(TagKind::Var), 3);
    assert_eq!(tag_priority(TagKind::Other), 3);
}

#[test]
fn scalar_type_names_are_normalized_at_word_boundaries() {
    assert_eq!(
        text(&normalize_scalar_types(b"integer|boolean|double|real|integers|myinteger|array<integer>|_real")),
        "int|bool|float|float|integers|myinteger|array<int>|_real"
    );
    assert_eq!(text(&normalize_scalar_types(b"")), "");
    assert_eq!(check_scalar_word(b"integer|x"), Some((7, b("int"))));
    assert_eq!(check_scalar_word(b"real"), Some((4, b("float"))));
    assert_eq!(check_scalar_word(b"boolean"), Some((7, b("bool"))));
    assert_eq!(check_scalar_word(b"double>"), Some((6, b("float"))));
    assert_eq!(check_scalar_word(b"integers"), None);
    assert_eq!(check_scalar_word(b"int"), None);
}

#[test]
fn null_is_moved_to_the_end_of_a_union() {
    assert_eq!(text(&move_null_to_end(b"null|string")), "string|null");
    assert_eq!(text(&move_null_to_end(b" null | int ")), "int|null");
    assert_eq!(text(&move_null_to_end(b"null|array<int|null>|Foo")), "array<int|null>|Foo|null");
    assert_eq!(text(&move_null_to_end(b"?string")), "?string");
    assert_eq!(text(&move_null_to_end(b"string")), "string");
    assert_eq!(text(&move_null_to_end(b"string|int")), "string|int");
    assert_eq!(text(&move_null_to_end(b"null|null")), "null");
    assert!(move_null_to_end(b"Foo|null|Bar").ends_with(b"null"));
    assert_eq!(text(&reorder_outer_union_null(b"null")), "null");
}

#[test]
fn top_level_split_respects_brackets() {
    let parts: Vec<String> = split_top_level(b"a|b<c|d>|e", b'|').iter().map(|p| text(p)).collect();
    assert_eq!(parts, vec!["a", "b<c|d>", "e"]);
    let parts: Vec<String> = split_top_level(b"", b'|').iter().map(|p| text(p)).collect();
    assert_eq!(parts, vec![""]);
    let parts: Vec<String> = split_top_level(b"array{a: int|string}|(x|y)|", b'|').iter().map(|p| text(p)).collect();
    assert_eq!(parts, vec!["array{a: int|string}", "(x|y)", ""]);
    assert_eq!(parts.join("|"), "array{a: int|string}|(x|y)|");
}

fn tag_line(name: &str, priority: u8, index: usize) -> TagLine {
    TagLine { tag_name: b(name), type_str: None, variable: None, description: Vec::new(), priority, original_index: index, raw_lines: None }
}

#[test]
fn sorting_tags_is_stable_by_priority() {
    let tags = vec![
        tag_line("@a", 3, 0),
        tag_line("@b", 0, 1),
        tag_line("@c", 1, 2),
        tag_line("@d", 0, 3),
        tag_line("@e", 2, 4),
        tag_line("@f", 3, 5),
    ];
    let sorted = sort_tags(&tags);
    let order: Vec<usize> = sorted.iter().map(|t| t.original_index).collect();
    assert_eq!(order, vec![1, 3, 2, 4, 0, 5]);
    assert!(sorted.windows(2).all(|w| w[0].priority <= w[1].priority));
    assert_eq!(sorted.len(), tags.len());
}

#[test]
fn scalar_rewriting_is_safe_only_on_types_it_can_scan() {
    assert!(is_scalar_scan_safe(b"integer|null"));
    assert!(is_scalar_scan_safe(b""));
    assert!(!is_scalar_scan_safe("\u{e9}t\u{e9}".as_bytes()));
    assert!(!is_scalar_scan_safe("array<caf\u{e9}>".as_bytes()));
    let on = settings(true, false, false);
    let off = settings(false, false, false);
    assert!(tag_scan_is_safe(TagKind::Param, &b("int $x caf\u{e9}"), &on));
    assert!(!tag_scan_is_safe(TagKind::Param, &b("caf\u{e9} $x"), &on));
    assert!(tag_scan_is_safe(TagKind::Param, &b("caf\u{e9} $x"), &off));
    assert!(tag_scan_is_safe(TagKind::Access, &b("caf\u{e9}"), &on));
    assert!(!tag_scan_is_safe(TagKind::Return, &b("caf\u{e9}{\n  x\n}"), &on));
    assert!(tag_scan_is_safe(TagKind::Return, &b("array{\n  caf\u{e9}\n}"), &on));
    let doc = Document { elements: vec![para("caf\u{e9}"), tag(TagKind::Return, "return", "int")] };
    assert!(docblock_scan_is_safe(&on, &doc));
    let bad = Document { elements: vec![tag(TagKind::Var, "var", "\u{e9}")] };
    assert!(!docblock_scan_is_safe(&on, &bad));
    assert!(docblock_scan_is_safe(&off, &bad));
}

#[test]
fn every_line_of_the_result_is_a_comment_line() {
    let cases = vec![
        vec![para("First\nsecond\n\nthird"), Element::Line, tag(TagKind::Param, "param", "int $a  A\n  long one")],
        vec![tag(TagKind::Return, "return", "array{\n  a: int,\n\n  b: string\n}"), tag(TagKind::Throws, "throws", "E")],
        vec![Element::Annotation { name: b("Route"), arguments: Some(b("\"/x\"")) }, tag(TagKind::Other, "since", "2")],
    ];
    for elements in cases {
        for s in [settings(true, true, true), settings(false, false, false)] {
            let out = reformat(&s, elements.clone()).unwrap();
            assert!(out.starts_with("/**"));
            assert!(out.ends_with("\n */"));
            let bytes = out.as_bytes();
            for (i, &c) in bytes.iter().enumerate() {
                if c == b'\n' {
                    assert_eq!(&bytes[i + 1..i + 3], b" *", "{}", out);
                }
            }
        }
    }
}

#[test]
fn rewriting_types_twice_is_rewriting_them_once() {
    for t in [
        "integer|boolean",
        "double|real|myreal",
        "array<integer, real>",
        "null|integer",
        "null|a>|b",
        "null|a<",
        " null | int ",
        "?integer",
        "Foo|null|Bar<null|x>",
        "",
    ] {
        let once = normalize_scalar_types(t.as_bytes());
        assert_eq!(normalize_scalar_types(&once), once, "{}", t);
        let moved = move_null_to_end(t.as_bytes());
        assert_eq!(move_null_to_end(&moved), moved, "{}", t);
    }
    assert_eq!(text(&move_null_to_end(b"null|a>|b")), "a>|b|null");
    assert_eq!(text(&move_null_to_end(b"a>|b|null")), "a>|b|null");
}

fn full_tag(name: &str, ty: Option<&str>, var: Option<&str>, desc: &str, priority: u8) -> TagLine {
    TagLine {
        tag_name: b(name),
        type_str: ty.map(b),
        variable: var.map(b),
        description: b(desc),
        priority,
        original_index: 0,
        raw_lines: None,
    }
}

#[test]
fn alignment_keeps_the_words_and_works_group_by_group() {
    let a = vec![
        full_tag("@param", Some("int"), Some("$a"), "First one", 0),
        full_tag("@psalm-param", Some("list<string>"), Some("$bb"), "", 0),
        full_tag("@param", None, Some("$c"), "Third", 0),
    ];
    let b_tags = vec![
        full_tag("@return", Some("void"), None, "", 1),
        full_tag("@since", None, None, "1.0", 3),
        full_tag("@deprecated", None, None, "", 3),
    ];
    let all: Vec<TagLine> = a.iter().chain(b_tags.iter()).cloned().collect();
    let aligned: Vec<String> = format_tags_aligned(&all).iter().map(|l| text(l)).collect();
    let plain: Vec<String> = format_tags_unaligned(&all).iter().map(|l| text(l)).collect();
    assert_eq!(aligned.len(), all.len());
    for (x, y) in aligned.iter().zip(plain.iter()) {
        assert!(x.split_whitespace().eq(y.split_whitespace()), "{} / {}", x, y);
        assert_eq!(x, x.trim_end());
    }
    let mut separately: Vec<String> = format_tags_aligned(&a).iter().map(|l| text(l)).collect();
    separately.extend(format_tags_aligned(&b_tags).iter().map(|l| text(l)));
    assert_eq!(aligned, separately);
    let col = aligned[0].find("$a").unwrap();
    assert_eq!(aligned[1].find("$bb").unwrap(), col);
    assert_eq!(aligned[2].find("$c").unwrap(), col);
    assert_eq!(aligned[0].find("int").unwrap(), aligned[1].find("list").unwrap());
}

#[test]
fn alignment_writes_multiline_tags_as_they_are() {
    let mut raw = full_tag("@param", Some("int"), Some("$long"), "", 0);
    raw.raw_lines = Some(vec![b("@param int $long First line"), b("  second line")]);
    let tags = vec![
        full_tag("@param", Some("string"), Some("$a"), "Name", 0),
        raw,
        full_tag("@param", None, Some("$bb"), "", 0),
    ];
    let aligned: Vec<String> = format_tags_aligned(&tags).iter().map(|l| text(l)).collect();
    let plain: Vec<String> = format_tags_unaligned(&tags).iter().map(|l| text(l)).collect();
    assert_eq!(aligned.len(), 3);
    assert_eq!(aligned[1], plain[1]);
    assert_eq!(aligned[0], "@param string $a  Name");
    assert_eq!(aligned[2], "@param        $bb");
    for (x, y) in aligned.iter().zip(plain.iter()) {
        assert!(x.split_whitespace().eq(y.split_whitespace()), "{} / {}", x, y);
    }
}
