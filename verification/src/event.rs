//! The event model: the flat markup stream handed in by the upstream
//! tokenizer, with one source byte range per event.

use vstd::prelude::*;

verus! {

/// A half-open byte range `[start, end)` into the markdown source text.
#[derive(Clone, Copy, PartialEq, Eq, Structural, Debug)]
pub struct SourceRange {
    pub start: usize,
    pub end: usize,
}

/// Heading depth; only levels 1 through 6 exist.
#[derive(Clone, Copy, PartialEq, Eq, Structural, Debug)]
pub enum HeadingLevel {
    H1,
    H2,
    H3,
    H4,
    H5,
    H6,
}

/// Column alignment of a table, fixed when the table opens.
#[derive(Clone, Copy, PartialEq, Eq, Structural, Debug)]
pub enum Alignment {
    Unspecified,
    Left,
    Center,
    Right,
}

/// Whether a math fragment is typeset inline or as a display block.
#[derive(Clone, Copy, PartialEq, Eq, Structural, Debug)]
pub enum MathMode {
    Inline,
    Display,
}

/// How a link or image was written in the source.
#[derive(Clone, Copy, PartialEq, Eq, Structural, Debug)]
pub enum LinkType {
    Inline,
    Reference,
    ReferenceUnknown,
    Collapsed,
    CollapsedUnknown,
    Shortcut,
    ShortcutUnknown,
    Autolink,
    Email,
    WikiLink,
}

/// A fenced code block carries its language token; an indented one does not.
#[derive(Clone, Debug)]
pub enum CodeBlockKind {
    Indented,
    Fenced(String),
}

/// A container kind opened by `Event::Start` and closed by a matching
/// `Event::End` of its payload-free counterpart.
#[derive(Clone, Debug)]
pub enum Tag {
    Paragraph,
    Heading(HeadingLevel),
    BlockQuote,
    CodeBlock(CodeBlockKind),
    /// `Some(n)` opens an ordered list starting at `n`; `None` an unordered one.
    List(Option<u64>),
    Item,
    FootnoteDefinition(String),
    Table(Vec<Alignment>),
    TableHead,
    TableRow,
    TableCell,
    Emphasis,
    Strong,
    Strikethrough,
    Link { link_type: LinkType, dest_url: String, title: String },
    Image { link_type: LinkType, dest_url: String, title: String },
    MetadataBlock,
}

/// The payload-free closing marker for each container kind.
#[derive(Clone, Copy, PartialEq, Eq, Structural, Debug)]
pub enum TagEnd {
    Paragraph,
    Heading(HeadingLevel),
    BlockQuote,
    CodeBlock,
    /// `true` closes an ordered list.
    List(bool),
    Item,
    FootnoteDefinition,
    Table,
    TableHead,
    TableRow,
    TableCell,
    Emphasis,
    Strong,
    Strikethrough,
    Link,
    Image,
    MetadataBlock,
}

/// One markup event of the flat input stream.
#[derive(Clone, Debug)]
pub enum Event {
    Start(Tag),
    End(TagEnd),
    Text(String),
    Code(String),
    Html(String),
    FootnoteReference(String),
    SoftBreak,
    HardBreak,
    Rule,
    TaskListMarker(bool),
    Math(MathMode, String),
}

/// The closing marker that ends the container opened by `t`.
pub open spec fn closing(t: Tag) -> TagEnd {
    match t {
        Tag::Paragraph => TagEnd::Paragraph,
        Tag::Heading(l) => TagEnd::Heading(l),
        Tag::BlockQuote => TagEnd::BlockQuote,
        Tag::CodeBlock(_) => TagEnd::CodeBlock,
        Tag::List(start) => TagEnd::List(start is Some),
        Tag::Item => TagEnd::Item,
        Tag::FootnoteDefinition(_) => TagEnd::FootnoteDefinition,
        Tag::Table(_) => TagEnd::Table,
        Tag::TableHead => TagEnd::TableHead,
        Tag::TableRow => TagEnd::TableRow,
        Tag::TableCell => TagEnd::TableCell,
        Tag::Emphasis => TagEnd::Emphasis,
        Tag::Strong => TagEnd::Strong,
        Tag::Strikethrough => TagEnd::Strikethrough,
        Tag::Link { .. } => TagEnd::Link,
        Tag::Image { .. } => TagEnd::Image,
        Tag::MetadataBlock => TagEnd::MetadataBlock,
    }
}

/// The closing marker matching `t`, as executable code.
pub fn as_closing_tag(t: &Tag) -> (e: TagEnd)
    ensures
        e == closing(*t),
{
    match t {
        Tag::Paragraph => TagEnd::Paragraph,
        Tag::Heading(l) => TagEnd::Heading(*l),
        Tag::BlockQuote => TagEnd::BlockQuote,
        Tag::CodeBlock(_) => TagEnd::CodeBlock,
        Tag::List(start) => TagEnd::List(start.is_some()),
        Tag::Item => TagEnd::Item,
        Tag::FootnoteDefinition(_) => TagEnd::FootnoteDefinition,
        Tag::Table(_) => TagEnd::Table,
        Tag::TableHead => TagEnd::TableHead,
        Tag::TableRow => TagEnd::TableRow,
        Tag::TableCell => TagEnd::TableCell,
        Tag::Emphasis => TagEnd::Emphasis,
        Tag::Strong => TagEnd::Strong,
        Tag::Strikethrough => TagEnd::Strikethrough,
        Tag::Link { .. } => TagEnd::Link,
        Tag::Image { .. } => TagEnd::Image,
        Tag::MetadataBlock => TagEnd::MetadataBlock,
    }
}

} // verus!
