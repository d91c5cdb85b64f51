//! Issues, annotations and text edits that the lint rules produce.
use vstd::prelude::*;

use crate::text::{push_all, views};
use vstd::string::StringSliceAdditionalSpecFns;

verus! {

/// The byte offsets of a piece of source text.
#[derive(Debug, Clone, Copy, PartialEq, Eq, Structural)]
pub struct Span {
    pub start: u32,
    pub end: u32,
}

impl Span {
    /// The span from the start of `self` to the end of `other`.
    pub fn join(self, other: Span) -> (r: Span)
        ensures
            r == (Span { start: self.start, end: other.end }),
    {
        Span { start: self.start, end: other.end }
    }
}

/// How serious an issue is.
#[derive(Debug, Clone, Copy, PartialEq, Eq, Hash, Structural)]
pub enum Level {
    Note,
    Help,
    Warning,
    Error,
}

/// A note attached to a span of the source.
#[derive(Debug, Clone)]
pub struct Annotation {
    pub span: Span,
    pub message: Vec<u8>,
    /// The primary annotation marks where the issue is; others give context.
    pub primary: bool,
}

/// A replacement of the source text between two offsets.
#[derive(Debug, Clone)]
pub struct TextEdit {
    pub start: u32,
    pub end: u32,
    pub text: Vec<u8>,
}

/// A problem found in the source, with an optional fix.
#[derive(Debug, Clone)]
pub struct Issue {
    pub level: Level,
    pub code: Vec<u8>,
    pub message: Vec<u8>,
    pub annotations: Vec<Annotation>,
    pub notes: Vec<Vec<u8>>,
    pub help: Option<Vec<u8>>,
    /// The edits of the proposed fix; none when the issue is only reported.
    pub edits: Option<Vec<TextEdit>>,
}

/// The value of an annotation.
pub struct AnnotationSpec {
    pub span: Span,
    pub message: Seq<u8>,
    pub primary: bool,
}

/// The value of a text edit.
pub struct EditSpec {
    pub start: u32,
    pub end: u32,
    pub text: Seq<u8>,
}

/// The value of an issue.
pub struct IssueSpec {
    pub level: Level,
    pub code: Seq<u8>,
    pub message: Seq<u8>,
    pub annotations: Seq<AnnotationSpec>,
    pub notes: Seq<Seq<u8>>,
    pub help: Option<Seq<u8>>,
    pub edits: Option<Seq<EditSpec>>,
}

impl View for Annotation {
    type V = AnnotationSpec;

    open spec fn view(&self) -> AnnotationSpec {
        AnnotationSpec { span: self.span, message: self.message@, primary: self.primary }
    }
}

impl View for TextEdit {
    type V = EditSpec;

    open spec fn view(&self) -> EditSpec {
        EditSpec { start: self.start, end: self.end, text: self.text@ }
    }
}

/// The values of a sequence of edits.
pub open spec fn edit_views(es: Seq<TextEdit>) -> Seq<EditSpec> {
    es.map_values(|e: TextEdit| e@)
}

/// The values of a sequence of annotations.
pub open spec fn annotation_views(a: Seq<Annotation>) -> Seq<AnnotationSpec> {
    a.map_values(|x: Annotation| x@)
}

impl View for Issue {
    type V = IssueSpec;

    open spec fn view(&self) -> IssueSpec {
        IssueSpec {
            level: self.level,
            code: self.code@,
            message: self.message@,
            annotations: annotation_views(self.annotations@),
            notes: views(self.notes@),
            help: match self.help {
                Some(h) => Some(h@),
                None => None,
            },
            edits: match self.edits {
                Some(e) => Some(edit_views(e@)),
                None => None,
            },
        }
    }
}

/// The values of a sequence of issues.
pub open spec fn issue_views(is: Seq<Issue>) -> Seq<IssueSpec> {
    is.map_values(|i: Issue| i@)
}

/// The UTF-8 bytes of a text.
pub open spec fn utf8(s: &str) -> Seq<u8> {
    s.spec_bytes()
}

/// The bytes of `s`, as a vector.
pub fn bytes_of(s: &str) -> (r: Vec<u8>)
    ensures
        r@ == utf8(s),
{
    let mut r: Vec<u8> = Vec::new();
    push_all(&mut r, s.as_bytes());
    r
}

/// An issue with the given level and message, and nothing else yet.
pub open spec fn new_issue(level: Level, message: Seq<u8>) -> IssueSpec {
    IssueSpec {
        level,
        code: Seq::empty(),
        message,
        annotations: Seq::empty(),
        notes: Seq::empty(),
        help: None,
        edits: None,
    }
}

impl Issue {
    /// An issue with the given level and message.
    pub fn new(level: Level, message: Vec<u8>) -> (r: Issue)
        ensures
            r@ == new_issue(level, message@),
    {
        let r = Issue {
            level,
            code: Vec::new(),
            message,
            annotations: Vec::new(),
            notes: Vec::new(),
            help: None,
            edits: None,
        };
        assert(annotation_views(r.annotations@) =~= Seq::empty());
        assert(views(r.notes@) =~= Seq::empty());
        r
    }

    /// The issue with its rule code set.
    pub fn with_code(self, code: Vec<u8>) -> (r: Issue)
        ensures
            r@ == (IssueSpec { code: code@, ..self@ }),
    {
        let mut s = self;
        s.code = code;
        s
    }

    /// The issue with one more annotation.
    pub fn with_annotation(self, annotation: Annotation) -> (r: Issue)
        ensures
            r@ == (IssueSpec { annotations: self@.annotations.push(annotation@), ..self@ }),
    {
        let mut s = self;
        let ghost a0 = s.annotations@;
        s.annotations.push(annotation);
        assert(annotation_views(s.annotations@) =~= annotation_views(a0).push(annotation@));
        s
    }

    /// The issue with one more note.
    pub fn with_note(self, note: Vec<u8>) -> (r: Issue)
        ensures
            r@ == (IssueSpec { notes: self@.notes.push(note@), ..self@ }),
    {
        let mut s = self;
        let ghost n0 = s.notes@;
        s.notes.push(note);
        assert(views(s.notes@) =~= views(n0).push(note@));
        s
    }

    /// The issue with its help text set.
    pub fn with_help(self, help: Vec<u8>) -> (r: Issue)
        ensures
            r@ == (IssueSpec { help: Some(help@), ..self@ }),
    {
        let mut s = self;
        s.help = Some(help);
        s
    }

    /// The issue with a proposed fix made of `edits`.
    pub fn with_edits(self, edits: Vec<TextEdit>) -> (r: Issue)
        ensures
            r@ == (IssueSpec { edits: Some(edit_views(edits@)), ..self@ }),
    {
        let mut s = self;
        s.edits = Some(edits);
        s
    }
}

impl Annotation {
    /// The primary annotation of `span`, with the given message.
    pub fn primary(span: Span, message: Vec<u8>) -> (r: Annotation)
        ensures
            r@ == (AnnotationSpec { span, message: message@, primary: true }),
    {
        Annotation { span, message, primary: true }
    }

    /// A secondary annotation of `span`, with the given message.
    pub fn secondary(span: Span, message: Vec<u8>) -> (r: Annotation)
        ensures
            r@ == (AnnotationSpec { span, message: message@, primary: false }),
    {
        Annotation { span, message, primary: false }
    }
}

impl TextEdit {
    /// Replaces the text of `span` with `text`.
    pub fn replace(span: Span, text: Vec<u8>) -> (r: TextEdit)
        ensures
            r@ == (EditSpec { start: span.start, end: span.end, text: text@ }),
    {
        TextEdit { start: span.start, end: span.end, text }
    }

    /// Deletes the text between `start` and `end`.
    pub fn delete(start: u32, end: u32) -> (r: TextEdit)
        ensures
            r@ == (EditSpec { start, end, text: Seq::empty() }),
    {
        TextEdit { start, end, text: Vec::new() }
    }
}

} // verus!
