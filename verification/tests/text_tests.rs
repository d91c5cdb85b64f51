use mago_style::text::{
    contains_bytes, copy_range, ends_with_bytes, find_byte, has_byte_in, join_with, lines_of, push_all,
    split_on_byte, starts_with_bytes, to_decimal, to_lower, trim_end_of, trim_of, trim_start_of,
};

fn strs(v: &[Vec<u8>]) -> Vec<String> {
    v.iter().map(|l| String::from_utf8(l.clone()).unwrap()).collect()
}

#[test]
fn trimming_follows_unicode_white_space() {
    assert_eq!(trim_of(b"  a b \t\n"), b"a b".to_vec());
    assert_eq!(trim_start_of(b"\r\n x "), b"x ".to_vec());
    assert_eq!(trim_end_of(b" x \x0b\x0c"), b" x".to_vec());
    let nbsp = "\u{a0}\u{2003}text\u{3000}\u{85}";
    assert_eq!(trim_of(nbsp.as_bytes()), b"text".to_vec());
    assert_eq!(trim_of("é ".as_bytes()), "é".as_bytes().to_vec());
    assert_eq!(trim_of(b"   "), Vec::<u8>::new());
    for s in ["  x  ", "\u{2028}y\u{205f}", "z"] {
        assert_eq!(trim_of(s.as_bytes()), s.trim().as_bytes().to_vec());
    }
}

#[test]
fn prefix_suffix_and_search() {
    assert!(starts_with_bytes(b"/** x", b"/**"));
    assert!(!starts_with_bytes(b"/*", b"/**"));
    assert!(ends_with_bytes(b"abc'", b"'"));
    assert!(!ends_with_bytes(b"", b"'"));
    assert!(contains_bytes(b"xx // no break", b"// no break"));
    assert!(!contains_bytes(b"// no brea", b"// no break"));
    assert!(contains_bytes(b"abc", b""));
    assert!(has_byte_in(b"a\nb", b'\n'));
    assert!(!has_byte_in(b"ab", b'\n'));
    assert_eq!(find_byte(b"ab|c|d", b'|'), Some(2));
    assert_eq!(find_byte(b"abc", b'|'), None);
}

#[test]
fn lines_and_splits() {
    assert_eq!(strs(&lines_of(b"a\r\nb\n\nc\r")), vec!["a", "b", "", "c\r"]);
    assert_eq!(strs(&lines_of(b"a\n")), vec!["a"]);
    assert!(lines_of(b"").is_empty());
    assert_eq!(strs(&split_on_byte(b"a\nb\n", b'\n')), vec!["a", "b", ""]);
    assert_eq!(strs(&split_on_byte(b"", b'\n')), vec![""]);
    for s in ["x\ny", "\n\n", "no lines", "a\r\nb\r\n"] {
        let expected: Vec<String> = s.lines().map(|l| l.to_string()).collect();
        assert_eq!(strs(&lines_of(s.as_bytes())), expected);
        let expected: Vec<String> = s.split('\n').map(|l| l.to_string()).collect();
        assert_eq!(strs(&split_on_byte(s.as_bytes(), b'\n')), expected);
    }
}

#[test]
fn joining_copying_and_case() {
    assert_eq!(join_with(&vec![b"a".to_vec(), b"b".to_vec(), b"c".to_vec()], b"|"), b"a|b|c".to_vec());
    assert_eq!(join_with(&vec![b"a".to_vec()], b"|"), b"a".to_vec());
    assert_eq!(join_with(&vec![], b"|"), Vec::<u8>::new());
    assert_eq!(copy_range(b"abcdef", 1, 4), b"bcd".to_vec());
    let mut out = b"ab".to_vec();
    push_all(&mut out, b"cd");
    assert_eq!(out, b"abcd".to_vec());
    assert_eq!(to_lower(b"// No-Break \xc3\x89"), b"// no-break \xc3\x89".to_vec());
}

#[test]
fn decimal_digits() {
    assert_eq!(to_decimal(0), b"0".to_vec());
    assert_eq!(to_decimal(7), b"7".to_vec());
    assert_eq!(to_decimal(120), b"120".to_vec());
    assert_eq!(to_decimal(u64::MAX), u64::MAX.to_string().into_bytes());
}
