//! The parsed docblock that the reformatter reads, the settings it obeys, and
//! the tag lines it builds.
use vstd::prelude::*;

use crate::text::views;

verus! {

/// The kinds of docblock tags that the reformatter tells apart.
#[derive(Debug, Clone, Copy, PartialEq, Eq, Structural)]
pub enum TagKind {
    Param,
    PsalmParam,
    PhpstanParam,
    Return,
    PsalmReturn,
    PhpstanReturn,
    Throws,
    Var,
    PsalmVar,
    PhpstanVar,
    Type,
    Property,
    PropertyRead,
    PropertyWrite,
    Access,
    Package,
    /// Any other tag.
    Other,
}

/// A piece of the free text of a docblock.
#[derive(Debug, Clone)]
pub enum TextSegment {
    /// Plain text; it may span several lines.
    Paragraph { content: Vec<u8> },
    /// Text between backticks.
    InlineCode { content: Vec<u8> },
    /// An inline tag such as `{@see Foo}`.
    InlineTag { name: Vec<u8>, description: Vec<u8> },
}

/// One element of a parsed docblock.
#[derive(Debug, Clone)]
pub enum Element {
    /// Free text.
    Text { segments: Vec<TextSegment> },
    /// A fenced code block.
    Code { directives: Vec<Vec<u8>>, content: Vec<u8> },
    /// A tag such as `@param int $x`; `name` has no `@`.
    Tag { kind: TagKind, name: Vec<u8>, description: Vec<u8> },
    /// An empty line.
    Line,
    /// An annotation such as `@Route("/")`; `name` has no `@`.
    Annotation { name: Vec<u8>, arguments: Option<Vec<u8>> },
}

/// A parsed docblock: its elements in source order.
#[derive(Debug, Clone)]
pub struct Document {
    pub elements: Vec<Element>,
}

/// How the columns of tag lines are laid out.
#[derive(Debug, Clone, Copy, PartialEq, Eq, Structural)]
pub enum PhpdocAlign {
    /// One space between columns.
    Left,
    /// Columns of a group of tags start at the same offset.
    Vertical,
}

/// Where `null` goes in a union type.
#[derive(Debug, Clone, Copy, PartialEq, Eq, Structural)]
pub enum PhpdocNullPosition {
    /// Where the source has it.
    Keep,
    /// At the end of the union.
    Last,
}

/// The settings that docblock reformatting obeys.
#[derive(Debug, Clone, Copy)]
pub struct FormatSettings {
    /// Rename `integer`, `boolean`, `double`, `real` to `int`, `bool`, `float`.
    pub phpdoc_scalar_types: bool,
    pub phpdoc_null_position: PhpdocNullPosition,
    pub phpdoc_align: PhpdocAlign,
}

/// A tag line ready to be written out.
#[derive(Debug, Clone)]
pub struct TagLine {
    /// The tag name with its `@`, e.g. `@param`.
    pub tag_name: Vec<u8>,
    /// The (already normalized) type, e.g. `string|null`.
    pub type_str: Option<Vec<u8>>,
    /// The variable, e.g. `$name`.
    pub variable: Option<Vec<u8>>,
    /// The rest of the description, on one line.
    pub description: Vec<u8>,
    /// Sort priority: params 0, returns 1, throws 2, others 3.
    pub priority: u8,
    /// Position among the tags of the docblock.
    pub original_index: usize,
    /// For a tag whose description spans several lines, its lines (without
    /// the ` * ` prefix); the other fields are then not written.
    pub raw_lines: Option<Vec<Vec<u8>>>,
}

/// The mathematical value of a tag line.
pub struct TagSpec {
    pub tag_name: Seq<u8>,
    pub type_str: Option<Seq<u8>>,
    pub variable: Option<Seq<u8>>,
    pub description: Seq<u8>,
    pub priority: u8,
    pub original_index: usize,
    pub raw_lines: Option<Seq<Seq<u8>>>,
}

/// The view of an optional byte vector.
pub open spec fn opt_view(o: Option<Vec<u8>>) -> Option<Seq<u8>> {
    match o {
        Some(v) => Some(v@),
        None => None,
    }
}

impl View for TagLine {
    type V = TagSpec;

    open spec fn view(&self) -> TagSpec {
        TagSpec {
            tag_name: self.tag_name@,
            type_str: opt_view(self.type_str),
            variable: opt_view(self.variable),
            description: self.description@,
            priority: self.priority,
            original_index: self.original_index,
            raw_lines: match self.raw_lines {
                Some(r) => Some(views(r@)),
                None => None,
            },
        }
    }
}

/// The views of a sequence of tag lines.
pub open spec fn tag_views(tags: Seq<TagLine>) -> Seq<TagSpec> {
    tags.map_values(|t: TagLine| t@)
}

} // verus!
