use mago_style::comment::{Comment, CommentFlags, File, Trivia, TriviaKind};

#[test]
fn flag_values_are_single_bits() {
    assert_eq!(CommentFlags::leading().0, 1);
    assert_eq!(CommentFlags::trailing().0, 2);
    assert_eq!(CommentFlags::dangling().0, 4);
    assert_eq!(CommentFlags::block().0, 8);
    assert_eq!(CommentFlags::line().0, 16);
    assert_eq!(CommentFlags::first().0, 32);
    assert_eq!(CommentFlags::last().0, 64);
}

#[test]
fn all_flags_is_union_of_every_flag() {
    let all = CommentFlags::all();
    assert_eq!(all.0, 127);
    let union = CommentFlags::leading()
        | CommentFlags::trailing()
        | CommentFlags::dangling()
        | CommentFlags::block()
        | CommentFlags::line()
        | CommentFlags::first()
        | CommentFlags::last();
    assert_eq!(union.0, all.0);
}

#[test]
fn contains_checks_every_bit_of_other() {
    let flags = CommentFlags::leading() | CommentFlags::block();
    assert!(flags.contains(CommentFlags::leading()));
    assert!(flags.contains(CommentFlags::block()));
    assert!(flags.contains(CommentFlags::leading() | CommentFlags::block()));
    assert!(!flags.contains(CommentFlags::trailing()));
    assert!(!flags.contains(CommentFlags::leading() | CommentFlags::line()));
    assert!(flags.contains(CommentFlags(0)));
}

#[test]
fn contains_is_reflexive_and_all_contains_every_flag() {
    for bits in 0u8..128 {
        let f = CommentFlags(bits);
        assert!(f.contains(f));
        assert!(CommentFlags::all().contains(f));
    }
}

#[test]
fn bit_operators_combine_flags() {
    let a = CommentFlags(0b0101);
    let b = CommentFlags(0b0011);
    assert_eq!((a | b).0, 0b0111);
    assert_eq!((a & b).0, 0b0001);
    assert_eq!((a ^ b).0, 0b0110);
    assert_eq!((!a).0, !0b0101u8);
}

#[test]
fn assigning_bit_operators_update_in_place() {
    let mut f = CommentFlags::leading();
    f |= CommentFlags::block();
    assert_eq!(f.0, 9);
    f &= CommentFlags::block();
    assert_eq!(f.0, 8);
    f ^= CommentFlags::line();
    assert_eq!(f.0, 24);
    f ^= CommentFlags::line();
    assert_eq!(f.0, 8);
}

#[test]
fn new_comment_has_no_line_suffix() {
    let c = Comment::new(3, 10, true, false, true, false);
    assert_eq!(c.start, 3);
    assert_eq!(c.end, 10);
    assert!(c.is_block);
    assert!(!c.is_shell_comment);
    assert!(c.is_docblock);
    assert!(!c.is_single_line);
    assert!(!c.has_line_suffix);
}

#[test]
fn with_line_suffix_sets_only_that_field() {
    let c = Comment::new(0, 5, false, true, false, true);
    let d = c.with_line_suffix(true);
    assert!(d.has_line_suffix);
    assert_eq!(d.start, 0);
    assert_eq!(d.end, 5);
    assert!(d.is_shell_comment);
    assert!(d.is_single_line);
    assert!(!d.with_line_suffix(false).has_line_suffix);
}

#[test]
fn matches_flags_block_and_line() {
    let block = Comment::new(0, 5, true, false, false, true);
    let line = Comment::new(0, 5, false, false, false, true);
    assert!(block.matches_flags(CommentFlags::block()));
    assert!(!block.matches_flags(CommentFlags::line()));
    assert!(line.matches_flags(CommentFlags::line()));
    assert!(!line.matches_flags(CommentFlags::block()));
    assert!(block.matches_flags(CommentFlags::leading()));
    assert!(line.matches_flags(CommentFlags::leading()));
    assert!(!block.matches_flags(CommentFlags::block() | CommentFlags::line()));
    assert!(!line.matches_flags(CommentFlags::block() | CommentFlags::line()));
}

#[test]
fn inline_comment_is_line_or_single_line_block() {
    assert!(Comment::new(0, 5, false, false, false, false).is_inline_comment());
    assert!(Comment::new(0, 5, true, false, false, true).is_inline_comment());
    assert!(!Comment::new(0, 5, true, false, false, false).is_inline_comment());
}

#[test]
fn trivia_kinds_comment_and_block() {
    assert!(!TriviaKind::WhiteSpace.is_comment());
    assert!(TriviaKind::SingleLineComment.is_comment());
    assert!(TriviaKind::HashComment.is_comment());
    assert!(TriviaKind::MultiLineComment.is_block_comment());
    assert!(TriviaKind::DocBlockComment.is_block_comment());
    assert!(!TriviaKind::SingleLineComment.is_block_comment());
    assert!(!TriviaKind::HashComment.is_block_comment());
}

#[test]
fn line_number_counts_line_feeds_before_offset() {
    let file = File { contents: b"a\nbc\n\nd".to_vec() };
    assert_eq!(file.line_number(0), 0);
    assert_eq!(file.line_number(1), 0);
    assert_eq!(file.line_number(2), 1);
    assert_eq!(file.line_number(5), 2);
    assert_eq!(file.line_number(6), 3);
    assert_eq!(file.line_number(7), 3);
    assert_eq!(file.line_number(100), 3);
    let empty = File { contents: Vec::new() };
    assert_eq!(empty.line_number(4), 0);
}

#[test]
fn from_trivia_multi_line_block() {
    let file = File { contents: b"<?php\n/**\n * x\n */\n$a;".to_vec() };
    let trivia = Trivia { kind: TriviaKind::DocBlockComment, start: 6, end: 19 };
    let c = Comment::from_trivia(&file, &trivia);
    assert_eq!(c.start, 6);
    assert_eq!(c.end, 19);
    assert!(c.is_block);
    assert!(c.is_docblock);
    assert!(!c.is_shell_comment);
    assert!(!c.is_single_line);
    assert!(!c.has_line_suffix);
    assert!(!c.is_inline_comment());
}

#[test]
fn from_trivia_single_line_block_and_hash() {
    let file = File { contents: b"<?php /* a */ # b\n".to_vec() };
    let block = Comment::from_trivia(&file, &Trivia { kind: TriviaKind::MultiLineComment, start: 6, end: 13 });
    assert!(block.is_block);
    assert!(block.is_single_line);
    assert!(!block.is_docblock);
    let hash = Comment::from_trivia(&file, &Trivia { kind: TriviaKind::HashComment, start: 14, end: 17 });
    assert!(!hash.is_block);
    assert!(hash.is_shell_comment);
    assert!(hash.is_single_line);
    assert!(hash.is_inline_comment());
}
