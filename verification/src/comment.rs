//! Comments as the formatter tracks them, and the flags used to select them.
use vstd::prelude::*;

verus! {

/// A set of comment properties, one bit each.
#[derive(Debug, Clone, Copy)]
pub struct CommentFlags(pub u8);

impl CommentFlags {
    /// The flag that selects a leading comment.
    pub fn leading() -> (r: CommentFlags)
        ensures
            r.0 == 1u8,
    {
        CommentFlags(1u8)
    }

    /// The flag that selects a trailing comment.
    pub fn trailing() -> (r: CommentFlags)
        ensures
            r.0 == 2u8,
    {
        CommentFlags(2u8)
    }

    /// The flag that selects a dangling comment.
    pub fn dangling() -> (r: CommentFlags)
        ensures
            r.0 == 4u8,
    {
        CommentFlags(4u8)
    }

    /// The flag that selects a block comment.
    pub fn block() -> (r: CommentFlags)
        ensures
            r.0 == 8u8,
    {
        CommentFlags(8u8)
    }

    /// The flag that selects a line comment.
    pub fn line() -> (r: CommentFlags)
        ensures
            r.0 == 16u8,
    {
        CommentFlags(16u8)
    }

    /// The flag that selects the first attached comment.
    pub fn first() -> (r: CommentFlags)
        ensures
            r.0 == 32u8,
    {
        CommentFlags(32u8)
    }

    /// The flag that selects the last attached comment.
    pub fn last() -> (r: CommentFlags)
        ensures
            r.0 == 64u8,
    {
        CommentFlags(64u8)
    }

    /// Every flag set.
    pub fn all() -> (r: Self)
        ensures
            r.0 == 127u8,
            r.0 == (1u8 | 2u8 | 4u8 | 8u8 | 16u8 | 32u8 | 64u8),
    {
        assert((1u8 | 2u8 | 4u8 | 8u8 | 16u8 | 32u8 | 64u8) == 127u8) by (bit_vector);
        CommentFlags(
            Self::leading().0 | Self::trailing().0 | Self::dangling().0 | Self::block().0
                | Self::line().0 | Self::first().0 | Self::last().0,
        )
    }

    /// Every flag of `other` is set in `self`.
    pub open spec fn spec_contains(self, other: CommentFlags) -> bool {
        self.0 & other.0 == other.0
    }

    /// Whether every flag of `other` is set in `self`.
    pub fn contains(self, other: CommentFlags) -> (r: bool)
        ensures
            r == self.spec_contains(other),
    {
        (self.0 & other.0) == other.0
    }
}

/// Union of the flags.
impl std::ops::BitOr for CommentFlags {
    type Output = Self;

    fn bitor(self, rhs: Self) -> (r: Self)
        ensures
            r.0 == self.0 | rhs.0,
    {
        CommentFlags(self.0 | rhs.0)
    }
}

impl vstd::std_specs::ops::BitOrSpecImpl for CommentFlags {
    open spec fn obeys_bitor_spec() -> bool {
        true
    }

    open spec fn bitor_req(self, rhs: Self) -> bool {
        true
    }

    open spec fn bitor_spec(self, rhs: Self) -> Self {
        CommentFlags(self.0 | rhs.0)
    }
}

/// Intersection of the flags.
impl std::ops::BitAnd for CommentFlags {
    type Output = Self;

    fn bitand(self, rhs: Self) -> (r: Self)
        ensures
            r.0 == self.0 & rhs.0,
    {
        CommentFlags(self.0 & rhs.0)
    }
}

impl vstd::std_specs::ops::BitAndSpecImpl for CommentFlags {
    open spec fn obeys_bitand_spec() -> bool {
        true
    }

    open spec fn bitand_req(self, rhs: Self) -> bool {
        true
    }

    open spec fn bitand_spec(self, rhs: Self) -> Self {
        CommentFlags(self.0 & rhs.0)
    }
}

/// Symmetric difference of the flags.
impl std::ops::BitXor for CommentFlags {
    type Output = Self;

    fn bitxor(self, rhs: Self) -> (r: Self)
        ensures
            r.0 == self.0 ^ rhs.0,
    {
        CommentFlags(self.0 ^ rhs.0)
    }
}

impl vstd::std_specs::ops::BitXorSpecImpl for CommentFlags {
    open spec fn obeys_bitxor_spec() -> bool {
        true
    }

    open spec fn bitxor_req(self, rhs: Self) -> bool {
        true
    }

    open spec fn bitxor_spec(self, rhs: Self) -> Self {
        CommentFlags(self.0 ^ rhs.0)
    }
}

/// Complement of the flags (all eight bits).
impl std::ops::Not for CommentFlags {
    type Output = Self;

    fn not(self) -> (r: Self)
        ensures
            r.0 == !self.0,
    {
        CommentFlags(!self.0)
    }
}

impl vstd::std_specs::ops::NotSpecImpl for CommentFlags {
    open spec fn obeys_not_spec() -> bool {
        true
    }

    open spec fn not_req(self) -> bool {
        true
    }

    open spec fn not_spec(self) -> Self {
        CommentFlags(!self.0)
    }
}

impl std::ops::BitOrAssign for CommentFlags {
    fn bitor_assign(&mut self, rhs: Self)
        ensures
            final(self).0 == old(self).0 | rhs.0,
    {
        self.0 = self.0 | rhs.0;
    }
}

impl std::ops::BitAndAssign for CommentFlags {
    fn bitand_assign(&mut self, rhs: Self)
        ensures
            final(self).0 == old(self).0 & rhs.0,
    {
        self.0 = self.0 & rhs.0;
    }
}

impl std::ops::BitXorAssign for CommentFlags {
    fn bitxor_assign(&mut self, rhs: Self)
        ensures
            final(self).0 == old(self).0 ^ rhs.0,
    {
        self.0 = self.0 ^ rhs.0;
    }
}

/// The kinds of trivia that a PHP source file holds between tokens.
#[derive(Debug, Clone, Copy, PartialEq, Eq, Structural)]
pub enum TriviaKind {
    WhiteSpace,
    SingleLineComment,
    MultiLineComment,
    HashComment,
    DocBlockComment,
}

impl TriviaKind {
    /// Every kind but white space is a comment.
    pub open spec fn spec_is_comment(self) -> bool {
        !(self is WhiteSpace)
    }

    /// `/* .. */` and `/** .. */` comments are block comments.
    pub open spec fn spec_is_block_comment(self) -> bool {
        self is MultiLineComment || self is DocBlockComment
    }

    /// Whether this kind is a comment.
    pub fn is_comment(&self) -> (r: bool)
        ensures
            r == self.spec_is_comment(),
    {
        !matches!(self, TriviaKind::WhiteSpace)
    }

    /// Whether this kind is a block comment.
    pub fn is_block_comment(&self) -> (r: bool)
        ensures
            r == self.spec_is_block_comment(),
    {
        matches!(self, TriviaKind::MultiLineComment | TriviaKind::DocBlockComment)
    }
}

/// A piece of trivia with the byte offsets of its start and end.
#[derive(Debug, Clone, Copy)]
pub struct Trivia {
    pub kind: TriviaKind,
    pub start: u32,
    pub end: u32,
}

/// The text of a source file.
#[derive(Debug, Clone)]
pub struct File {
    pub contents: Vec<u8>,
}

/// The number of line feeds in `s` before `offset` (which is the zero-based
/// number of the line that holds that offset).
pub open spec fn line_of(s: Seq<u8>, offset: int) -> nat
    decreases offset,
{
    if offset <= 0 || s.len() == 0 {
        0
    } else if offset > s.len() {
        line_of(s, s.len() as int)
    } else {
        line_of(s, offset - 1) + if s[offset - 1] == 0x0Au8 {
            1nat
        } else {
            0nat
        }
    }
}

impl File {
    /// Zero-based line number of the line that holds `offset`.
    pub fn line_number(&self, offset: u32) -> (r: usize)
        ensures
            r == line_of(self.contents@, offset as int),
    {
        let n = self.contents.len();
        let stop: usize = if (offset as usize) < n {
            offset as usize
        } else {
            n
        };
        let mut i: usize = 0;
        let mut count: usize = 0;
        while i < stop
            invariant
                stop <= n == self.contents@.len(),
                i <= stop,
                count <= i,
                count == line_of(self.contents@, i as int),
            decreases stop - i,
        {
            if self.contents[i] == 0x0A {
                count = count + 1;
            }
            i = i + 1;
        }
        proof {
            if (offset as int) > n && n > 0 {
                assert(line_of(self.contents@, offset as int) == line_of(
                    self.contents@,
                    n as int,
                ));
            }
        }
        count
    }
}

/// A comment of the source text, with what the formatter needs to know of it.
#[derive(Debug, Clone, Copy)]
pub struct Comment {
    pub start: u32,
    pub end: u32,
    pub is_block: bool,
    pub is_shell_comment: bool,
    pub is_docblock: bool,
    pub is_single_line: bool,
    pub has_line_suffix: bool,
}

impl Comment {
    /// A comment with the given position and properties and no line suffix.
    pub fn new(
        start: u32,
        end: u32,
        is_block: bool,
        is_shell_comment: bool,
        is_docblock: bool,
        is_single_line: bool,
    ) -> (r: Self)
        ensures
            r == (Comment {
                start,
                end,
                is_block,
                is_shell_comment,
                is_docblock,
                is_single_line,
                has_line_suffix: false,
            }),
    {
        Self {
            start,
            end,
            is_block,
            is_shell_comment,
            is_docblock,
            is_single_line,
            has_line_suffix: false,
        }
    }

    /// The comment that a comment trivia of `file` stands for.
    pub fn from_trivia(file: &File, trivia: &Trivia) -> (r: Self)
        requires
            trivia.kind.spec_is_comment(),
        ensures
            r.start == trivia.start,
            r.end == trivia.end,
            r.is_block == trivia.kind.spec_is_block_comment(),
            r.is_single_line == (!trivia.kind.spec_is_block_comment() || line_of(
                file.contents@,
                trivia.start as int,
            ) == line_of(file.contents@, trivia.end as int)),
            r.is_shell_comment == (trivia.kind is HashComment),
            r.is_docblock == (trivia.kind is DocBlockComment),
            !r.has_line_suffix,
    {
        let is_block = trivia.kind.is_block_comment();
        let is_single_line = !is_block || (file.line_number(trivia.start) == file.line_number(
            trivia.end,
        ));
        let is_shell_comment = matches!(trivia.kind, TriviaKind::HashComment);
        let is_docblock = matches!(trivia.kind, TriviaKind::DocBlockComment);
        Self::new(trivia.start, trivia.end, is_block, is_shell_comment, is_docblock, is_single_line)
    }

    /// This comment with `has_line_suffix` set to `yes`.
    pub fn with_line_suffix(self, yes: bool) -> (r: Self)
        ensures
            r == (Comment { has_line_suffix: yes, ..self }),
    {
        let mut c = self;
        c.has_line_suffix = yes;
        c
    }

    /// The comment is of the kind that `flags` asks for: a block comment when
    /// `BLOCK` is set, a line comment when `LINE` is set.
    pub open spec fn spec_matches_flags(self, flags: CommentFlags) -> bool {
        &&& flags.spec_contains(CommentFlags(8u8)) ==> self.is_block
        &&& flags.spec_contains(CommentFlags(16u8)) ==> !self.is_block
    }

    /// Whether the comment is of the kind that `flags` asks for.
    pub fn matches_flags(self, flags: CommentFlags) -> (r: bool)
        ensures
            r == self.spec_matches_flags(flags),
    {
        if flags.contains(CommentFlags::block()) && !self.is_block {
            return false;
        }
        if flags.contains(CommentFlags::line()) && self.is_block {
            return false;
        }
        true
    }

    /// Whether the comment fits on one line: a line comment, or a block
    /// comment that starts and ends on the same line.
    pub fn is_inline_comment(&self) -> (r: bool)
        ensures
            r == (!self.is_block || self.is_single_line),
    {
        !self.is_block || self.is_single_line
    }
}

/// A flag set always contains itself.
pub proof fn lemma_contains_reflexive(f: CommentFlags)
    ensures
        f.spec_contains(f),
{
    let x = f.0;
    assert(x & x == x) by (bit_vector);
}

/// The union of two flag sets contains each of them.
pub proof fn lemma_union_contains_parts(a: CommentFlags, b: CommentFlags)
    ensures
        CommentFlags(a.0 | b.0).spec_contains(a),
        CommentFlags(a.0 | b.0).spec_contains(b),
{
    let x = a.0;
    let y = b.0;
    assert((x | y) & x == x) by (bit_vector);
    assert((x | y) & y == y) by (bit_vector);
}

/// `all()` contains every flag set built from the seven named flags, and
/// nothing else.
pub proof fn lemma_all_contains(f: CommentFlags)
    ensures
        CommentFlags(127u8).spec_contains(f) <==> f.0 < 128,
{
    let x = f.0;
    assert((127u8 & x == x) <==> x < 128) by (bit_vector);
}

/// Containment is transitive.
pub proof fn lemma_contains_transitive(a: CommentFlags, b: CommentFlags, c: CommentFlags)
    requires
        a.spec_contains(b),
        b.spec_contains(c),
    ensures
        a.spec_contains(c),
{
    let x = a.0;
    let y = b.0;
    let z = c.0;
    assert((x & y == y && y & z == z) ==> x & z == z) by (bit_vector);
}

/// A comment with no `BLOCK` or `LINE` flag asked for matches any flags, and
/// no comment matches both.
pub proof fn lemma_matches_flags_block_line(c: Comment, f: CommentFlags)
    ensures
        !f.spec_contains(CommentFlags(8u8)) && !f.spec_contains(CommentFlags(16u8))
            ==> c.spec_matches_flags(f),
        f.spec_contains(CommentFlags(24u8)) ==> !c.spec_matches_flags(f),
{
    let x = f.0;
    assert((x & 24u8 == 24u8) ==> (x & 8u8 == 8u8 && x & 16u8 == 16u8)) by (bit_vector);
}

/// Two offsets of a text lie on the same line exactly when no line feed
/// stands between them.
pub proof fn lemma_same_line(s: Seq<u8>, a: int, b: int)
    requires
        0 <= a <= b <= s.len(),
    ensures
        (line_of(s, a) == line_of(s, b)) <==> (forall|k: int| a <= k < b ==> s[k] != 0x0Au8),
    decreases b - a,
{
    if a < b {
        lemma_same_line(s, a, b - 1);
        lemma_line_of_monotone(s, a, b - 1);
        if s[b - 1] == 0x0Au8 {
            assert(!(forall|k: int| a <= k < b ==> s[k] != 0x0Au8));
        } else {
            assert(line_of(s, b) == line_of(s, b - 1));
            if forall|k: int| a <= k < b - 1 ==> s[k] != 0x0Au8 {
                assert(forall|k: int| a <= k < b ==> s[k] != 0x0Au8);
            } else {
                let k = choose|k: int| !(a <= k < b - 1 ==> s[k] != 0x0Au8);
                assert(a <= k < b);
            }
        }
    }
}

/// Line numbers do not decrease with the offset.
pub proof fn lemma_line_of_monotone(s: Seq<u8>, a: int, b: int)
    requires
        0 <= a <= b <= s.len(),
    ensures
        line_of(s, a) <= line_of(s, b),
    decreases b - a,
{
    if a < b {
        lemma_line_of_monotone(s, a, b - 1);
    }
}

} // verus!
