//! The tree builder and the per-kind node renderers.
//!
//! A render is one pass over the event stream. The cursor is an explicit
//! index shared by every builder frame; a frame consumes events until it
//! meets the closing marker it was opened for, building one node per leaf
//! event or balanced tag pair. Malformed streams abort with a fatal
//! `RenderFault`; per-node failures (invalid math, footnotes) degrade to
//! a visible inline error node and the rest of the tree still renders.

use vstd::prelude::*;
use crate::context::{highlight_with_token, syntax_tokens, RenderContext};
use crate::event::{
    closing, Alignment, CodeBlockKind, Event, HeadingLevel, MathMode, SourceRange, Tag, TagEnd,
};
use crate::node::{
    lemma_nodes_click_ranges_push, node_click_ranges, nodes_click_ranges, LinkDescription, Node,
};
use crate::ranges::{
    click_ranges, delta_sum, event_delta, flat_between, flat_event, is_footnote_def_start,
    is_plain_leaf, is_sibling_event, lemma_click_ranges_single, lemma_click_ranges_split,
    lemma_stream_stats_single, lemma_stream_stats_split, no_footnote_defs,
    range_preserving_between, range_preserving_event, range_preserving_tag, sibling_count_from,
};

verus! {

/// A recoverable, per-node rendering error. It is shown inline as a
/// visible error indicator; the rest of the tree still renders.
pub struct HtmlError(pub String);

impl HtmlError {
    /// An `Err` carrying the given message.
    pub(crate) fn err<T>(message: &str) -> (r: Result<T, HtmlError>)
        ensures
            r matches Err(e) && e.0@ == message@,
    {
        Err(HtmlError(message.to_owned()))
    }

    /// The error message.
    pub fn to_string(&self) -> (s: String)
        ensures
            s@ == self.0@,
    {
        self.0.clone()
    }
}

/// What the math typesetter returns for the given content and display
/// flag: deterministic in its arguments, `None` on a typesetting error.
pub uninterp spec fn typeset_of(content: Seq<char>, display: bool) -> Option<Seq<char>>;

/// Relies on katex::render_with_opts with `display_mode` set from the
/// flag: the rendered markup depends on the content and the flag alone;
/// an error of the typesetter becomes `None`.
#[verifier::external_body]
fn katex_render(content: &str, display: bool) -> (r: Option<String>)
    ensures
        r is Some <==> typeset_of(content@, display) is Some,
        r matches Some(h) ==> typeset_of(content@, display) matches Some(m) && h@ == m,
{
    let opts = match katex::Opts::builder().display_mode(display).build() {
        Ok(o) => o,
        Err(_) => return None,
    };
    katex::render_with_opts(content, opts).ok()
}

/// A text leaf carrying its click range.
pub fn render_text(s: &str, range: SourceRange) -> (n: Node)
    ensures
        n matches Node::Text(t, r) && t@ == s@ && r == range,
{
    Node::Text(s.to_owned(), range)
}

/// An inline code leaf carrying its click range.
pub fn render_code(s: &str, range: SourceRange) -> (n: Node)
    ensures
        n matches Node::CodeSpan(t, r) && t@ == s@ && r == range,
{
    Node::CodeSpan(s.to_owned(), range)
}

/// A raw HTML leaf, injected verbatim, carrying its click range.
pub fn render_html(s: &str, range: SourceRange) -> (n: Node)
    ensures
        n matches Node::RawHtml(t, r) && t@ == s@ && r == range,
{
    Node::RawHtml(s.to_owned(), range)
}

/// A horizontal rule carrying its click range.
pub fn render_rule(range: SourceRange) -> (n: Node)
    ensures
        n == Node::Rule(range),
{
    Node::Rule(range)
}

/// A checkbox leaf; its click handler must suppress the default toggle
/// and stop bubbling before notifying the click hook.
pub fn render_tasklist_marker(m: bool, position: SourceRange) -> (n: Node)
    ensures
        n == Node::TaskListMarker(m, position),
{
    Node::TaskListMarker(m, position)
}

/// Wraps the built children in the container of the given heading level.
pub fn render_heading(level: HeadingLevel, content: Vec<Node>) -> (n: Node)
    ensures
        n == Node::Heading(level, content),
{
    Node::Heading(level, content)
}

/// The style hint that aligns a cell's text under the given alignment.
pub open spec fn align_style(a: Alignment) -> Seq<char> {
    match a {
        Alignment::Left => "text-align: left"@,
        Alignment::Right => "text-align: right"@,
        Alignment::Center => "text-align: center"@,
        Alignment::Unspecified => ""@,
    }
}

/// `align_string(align)` gives the style string that aligns a cell's
/// text according to `align`; no hint at all when unspecified.
pub fn align_string(align: &Alignment) -> (s: &'static str)
    ensures
        s@ == align_style(*align),
{
    match align {
        Alignment::Left => "text-align: left",
        Alignment::Right => "text-align: right",
        Alignment::Center => "text-align: center",
        Alignment::Unspecified => "",
    }
}

/// Wraps the built children in a cell styled by the resolved alignment.
pub fn render_cell(content: Vec<Node>, align: &Alignment) -> (n: Node)
    ensures
        n == Node::TableCell(*align, content),
{
    Node::TableCell(*align, content)
}

/// Renders a link or image description. With a link-render hook
/// installed the whole description is handed back for the hook; else the
/// default policy applies: an image becomes a leaf keeping url and title
/// (children discarded), a link an anchor around its children, its title
/// dropped.
pub fn render_link(context: &RenderContext, link: LinkDescription) -> (r: Result<Node, HtmlError>)
    ensures
        r is Ok,
        context.custom_links ==> r == Ok::<Node, HtmlError>(Node::CustomLink(link)),
        !context.custom_links && !link.image ==> r == Ok::<Node, HtmlError>(
            (Node::Anchor { url: link.url, children: link.content }),
        ),
        !context.custom_links && link.image ==> r == Ok::<Node, HtmlError>(
            (Node::ImageLeaf { url: link.url, title: link.title }),
        ),
{
    if context.custom_links {
        Ok(Node::CustomLink(link))
    } else if !link.image {
        Ok(Node::Anchor { url: link.url, children: link.content })
    } else {
        Ok(Node::ImageLeaf { url: link.url, title: link.title })
    }
}

/// `highlight_code(context, content, kind)` renders the content with
/// syntax highlighting when the fenced language token names a known
/// syntax; an indented block never highlights.
pub fn highlight_code(context: &RenderContext, content: &str, kind: &CodeBlockKind) -> (r: Option<
    String,
>)
    ensures
        kind is Indented ==> r is None,
        r is Some ==> (kind matches CodeBlockKind::Fenced(lang) && syntax_tokens(
            context.syntax_set,
        ).contains(lang@)),
{
    let lang = match kind {
        CodeBlockKind::Fenced(x) => x,
        CodeBlockKind::Indented => {
            return None;
        },
    };
    highlight_with_token(content, &context.syntax_set, lang.as_str(), &context.theme)
}

/// The node a code block becomes for a given highlighter outcome: the
/// pre-rendered markup when highlighting succeeded, else the raw text
/// verbatim in an unstyled leaf.
pub fn code_block_node(content: String, highlighted: Option<String>, range: SourceRange) -> (n:
    Node)
    ensures
        highlighted is None ==> n == Node::PlainCodeBlock(content, range),
        highlighted matches Some(h) ==> n == Node::HighlightedCodeBlock(h, range),
{
    match highlighted {
        None => Node::PlainCodeBlock(content, range),
        Some(h) => Node::HighlightedCodeBlock(h, range),
    }
}

/// Renders a code block: empty content gives an empty code leaf; other
/// content is highlighted when a syntax is found for the fenced language
/// token, and kept verbatim in an unstyled leaf otherwise. Never fails
/// the whole render.
pub fn render_code_block(
    context: &RenderContext,
    string_content: Option<String>,
    k: &CodeBlockKind,
    range: SourceRange,
) -> (n: Node)
    ensures
        string_content is None ==> n == Node::EmptyCodeBlock,
        string_content matches Some(c) ==> (k is Indented ==> n == Node::PlainCodeBlock(c, range)),
        string_content matches Some(c) ==> (n is HighlightedCodeBlock || n == Node::PlainCodeBlock(
            c,
            range,
        )),
        n matches Node::HighlightedCodeBlock(_, r2) ==> r2 == range,
        n is HighlightedCodeBlock ==> (k matches CodeBlockKind::Fenced(lang) && syntax_tokens(
            context.syntax_set,
        ).contains(lang@)),
{
    let content = match string_content {
        Some(x) => x,
        None => {
            return Node::EmptyCodeBlock;
        },
    };
    let highlighted = highlight_code(context, content.as_str(), k);
    code_block_node(content, highlighted, range)
}

/// Whether `r` is the successful math node for the given mode, markup
/// and range.
pub open spec fn is_math_node(
    r: Result<Node, HtmlError>,
    display: bool,
    m: Seq<char>,
    range: SourceRange,
) -> bool {
    match r {
        Ok(Node::Math { display: d, markup, range: r2 }) => d == display && markup@ == m && r2
            == range,
        _ => false,
    }
}

/// The node a math fragment becomes for a given typesetter outcome: a
/// classed leaf on success, the recoverable "invalid math" error else.
pub fn math_node(outcome: Option<String>, display: bool, range: SourceRange) -> (r: Result<
    Node,
    HtmlError,
>)
    ensures
        outcome matches Some(m) ==> r == Ok::<Node, HtmlError>((Node::Math { display, markup: m, range })),
        outcome is None ==> (r matches Err(e) && e.0@ == "invalid math"@),
{
    match outcome {
        Some(m) => Ok(Node::Math { display, markup: m, range }),
        None => HtmlError::err("invalid math"),
    }
}

/// `render_maths(content, display_mode, range)` typesets the latex
/// content; a leaf classed by mode on success, a recoverable error else.
pub fn render_maths(content: &str, display_mode: &MathMode, range: SourceRange) -> (r: Result<
    Node,
    HtmlError,
>)
    ensures
        typeset_of(content@, *display_mode is Display) matches Some(m) ==> is_math_node(
            r,
            *display_mode is Display,
            m,
            range,
        ),
        typeset_of(content@, *display_mode is Display) is None ==> (r matches Err(e) && e.0@
            == "invalid math"@),
{
    let display = match display_mode {
        MathMode::Display => true,
        MathMode::Inline => false,
    };
    let outcome = katex_render(content, display);
    math_node(outcome, display, range)
}

/// A fatal fault: the stream violated its structural contract (or table
/// state was broken). The render aborts; nothing is repaired here.
#[derive(Clone, Copy, PartialEq, Eq, Structural, Debug)]
pub enum RenderFault {
    /// A closing marker arrived at a top-level frame.
    UnexpectedClosingTag,
    /// A closing marker did not match the tag its frame was opened for.
    WrongClosingTag,
    /// The stream ended while a closing marker was still pending.
    UnexpectedEndOfStream,
    /// A table cell appeared outside any table.
    CellWithoutTable,
    /// A table cell's index ran past the declared column alignments.
    CellIndexOutOfBounds,
    /// A code block held something other than one text event and its end.
    UnexpectedCodeBlockEvent,
}

/// The node kind each tag must map to, with its resolved payload.
pub open spec fn node_shape(t: Tag, n: Node, custom_links: bool) -> bool {
    match t {
        Tag::Paragraph => n is Paragraph,
        Tag::Heading(l) => n matches Node::Heading(l2, _) && l2 == l,
        Tag::BlockQuote => n is BlockQuote,
        Tag::CodeBlock(_) => n is EmptyCodeBlock || n is PlainCodeBlock || n
            is HighlightedCodeBlock,
        Tag::List(s) => match s {
            Some(k) => n matches Node::OrderedList(k2, _) && k2 == k,
            None => n is UnorderedList,
        },
        Tag::Item => n is ListItem,
        Tag::FootnoteDefinition(_) => false,
        Tag::Table(_) => n is Table,
        Tag::TableHead => n is TableHead,
        Tag::TableRow => n is TableRow,
        Tag::TableCell => n is TableCell,
        Tag::Emphasis => n is Emphasis,
        Tag::Strong => n is Strong,
        Tag::Strikethrough => n is Strikethrough,
        Tag::Link { dest_url, .. } => if custom_links {
            n matches Node::CustomLink(d) && d.url@ == dest_url@ && !d.image
        } else {
            n matches Node::Anchor { url, .. } && url@ == dest_url@
        },
        Tag::Image { dest_url, title, .. } => if custom_links {
            n matches Node::CustomLink(d) && d.url@ == dest_url@ && d.image
        } else {
            n matches Node::ImageLeaf { url, title: t2 } && url@ == dest_url@ && t2@ == title@
        },
        Tag::MetadataBlock => n is Empty,
    }
}

/// Whether `n` is an admissible code-block node for the given raw text
/// and opening range: the text verbatim in an unstyled leaf, or
/// highlighted markup, either way keyed to the opening tag's range.
pub open spec fn code_block_matches(n: Node, text: Seq<char>, range: SourceRange) -> bool {
    match n {
        Node::PlainCodeBlock(c, r) => c@ == text && r == range,
        Node::HighlightedCodeBlock(_, r) => r == range,
        _ => false,
    }
}

/// The node one builder step owes for the event it was standing on: each
/// leaf event becomes its leaf carrying that payload and range, a failed
/// typesetting or an unsupported footnote becomes the inline error node
/// with its message, and an opening tag becomes a node of its shape. A
/// soft break yields the node of the events after it, so it pins nothing.
pub open spec fn step_node_matches(e: Event, range: SourceRange, n: Node, custom_links: bool) -> bool {
    match e {
        Event::Start(t) => if t is FootnoteDefinition {
            n matches Node::ErrorNode(m) && m@ == "footnote: not implemented"@
        } else {
            node_shape(t, n, custom_links)
        },
        Event::End(_) => true,
        Event::SoftBreak => true,
        Event::Text(s) => n matches Node::Text(t, r) && t@ == s@ && r == range,
        Event::Code(s) => n matches Node::CodeSpan(t, r) && t@ == s@ && r == range,
        Event::Html(s) => n matches Node::RawHtml(t, r) && t@ == s@ && r == range,
        Event::FootnoteReference(_) => n matches Node::ErrorNode(m) && m@
            == "do not support footnote refs yet"@,
        Event::HardBreak => n == Node::HardBreak,
        Event::Rule => n == Node::Rule(range),
        Event::TaskListMarker(m) => n == Node::TaskListMarker(m, range),
        Event::Math(mode, content) => match typeset_of(content@, mode is Display) {
            Some(mk) => n matches Node::Math { display, markup, range: r2 } && display == (mode
                is Display) && markup@ == mk && r2 == range,
            None => n matches Node::ErrorNode(m) && m@ == "invalid math"@,
        },
    }
}

/// An element-wise copy of a column-alignment list.
fn copy_alignments(v: &Vec<Alignment>) -> (r: Vec<Alignment>)
    ensures
        r@ == v@,
{
    let mut r: Vec<Alignment> = Vec::new();
    let mut i: usize = 0;
    while i < v.len()
        invariant
            i <= v@.len(),
            r@ == v@.subrange(0, i as int),
        decreases v@.len() - i,
    {
        r.push(v[i]);
        i += 1;
        proof {
            assert(r@ =~= v@.subrange(0, i as int));
        }
    }
    proof {
        assert(v@.subrange(0, v@.len() as int) =~= v@);
    }
    r
}

/// An element-wise copy of the optional table-scope alignments.
fn copy_alignment_state(a: &Option<Vec<Alignment>>) -> (r: Option<Vec<Alignment>>)
    ensures
        r is Some <==> a is Some,
        r matches Some(rv) ==> a matches Some(av) && rv@ == av@,
{
    match a {
        Some(v) => Some(copy_alignments(v)),
        None => None,
    }
}

/// One builder frame over the shared cursor. A frame is created either
/// for the whole stream (no expected closer) or for the subtree of one
/// opened tag (its matching closing marker). Table-scope state is
/// inherited at creation — each row's cells are counted by the row's own
/// frame, so the cell index starts at zero again in every row — and is
/// never mutated back into the parent.
pub struct Renderer {
    /// the column alignments of the innermost enclosing table, if any
    pub column_alignment: Option<Vec<Alignment>>,
    /// the index of the next cell of this frame, into `column_alignment`
    pub cell_index: usize,
    /// the closing marker that terminates this frame; `None` for a
    /// top-level frame, which consumes the stream to its end
    pub end_tag: Option<TagEnd>,
}

impl Renderer {
    /// A top-level builder frame: no expected closer, no table scope.
    pub fn new() -> (r: Renderer)
        ensures
            r.end_tag is None,
            r.cell_index == 0,
            r.column_alignment is None,
    {
        Renderer { column_alignment: None, cell_index: 0, end_tag: None }
    }

    /// The fixed two-event lookahead of a code block: one optional text
    /// event (absent means an empty block) immediately followed by the
    /// block's own closing marker. Code-block text is not tree-built.
    fn children_text(
        closing_tag: TagEnd,
        events: &Vec<(Event, SourceRange)>,
        pos: &mut usize,
    ) -> (r: Result<Option<String>, RenderFault>)
        requires
            *old(pos) <= events@.len(),
        ensures
            *old(pos) <= *final(pos) <= events@.len(),
            r matches Ok(_) ==> *final(pos) > *old(pos) && events@[*final(pos) - 1].0
                == Event::End(closing_tag),
            r matches Ok(Some(_)) ==> *final(pos) == *old(pos) + 2,
            r matches Ok(Some(s)) ==> (events@[*old(pos) as int].0 matches Event::Text(t) && s@
                == t@),
            r matches Ok(None) ==> *final(pos) == *old(pos) + 1,
            r matches Ok(_) ==> delta_sum(events@.subrange(*old(pos) as int, *final(pos) as int))
                == -1,
            r matches Ok(_) ==> (forall|d: int|
                d >= 1 ==> sibling_count_from(
                    events@.subrange(*old(pos) as int, *final(pos) as int),
                    d,
                ) == 0),
            *old(pos) == events@.len() ==> r == Err::<Option<String>, RenderFault>(
                RenderFault::UnexpectedEndOfStream,
            ),
            *old(pos) < events@.len() ==> (match events@[*old(pos) as int].0 {
                Event::Text(_) => if *old(pos) + 1 == events@.len() {
                    r == Err::<Option<String>, RenderFault>(RenderFault::UnexpectedEndOfStream)
                } else {
                    match events@[*old(pos) + 1].0 {
                        Event::End(te2) => if te2 == closing_tag {
                            r matches Ok(Some(_))
                        } else {
                            r == Err::<Option<String>, RenderFault>(RenderFault::WrongClosingTag)
                        },
                        _ => r == Err::<Option<String>, RenderFault>(
                            RenderFault::UnexpectedCodeBlockEvent,
                        ),
                    }
                },
                Event::End(te) => if te == closing_tag {
                    r matches Ok(None)
                } else {
                    r == Err::<Option<String>, RenderFault>(RenderFault::WrongClosingTag)
                },
                _ => r == Err::<Option<String>, RenderFault>(
                    RenderFault::UnexpectedCodeBlockEvent,
                ),
            }),
    {
        if *pos >= events.len() {
            return Err(RenderFault::UnexpectedEndOfStream);
        }
        let ghost p0 = *pos;
        let first = &events[*pos];
        match &first.0 {
            Event::Text(s) => {
                let content = s.clone();
                *pos += 1;
                if *pos >= events.len() {
                    return Err(RenderFault::UnexpectedEndOfStream);
                }
                match &events[*pos].0 {
                    Event::End(te) => {
                        if *te == closing_tag {
                            *pos += 1;
                            proof {
                                let pi = p0 as int;
                                let consumed = events@.subrange(pi, pi + 2);
                                lemma_stream_stats_split(events@, pi, pi + 1, pi + 2, 0);
                                lemma_stream_stats_single(events@, pi, 0);
                                lemma_stream_stats_single(events@, pi + 1, 0);
                                assert forall|d: int|
                                    d >= 1 implies #[trigger] sibling_count_from(consumed, d)
                                    == 0 by {
                                    lemma_stream_stats_split(events@, pi, pi + 1, pi + 2, d);
                                    lemma_stream_stats_single(events@, pi, d);
                                    lemma_stream_stats_single(
                                        events@,
                                        pi + 1,
                                        d + event_delta(events@[pi].0),
                                    );
                                }
                            }
                            Ok(Some(content))
                        } else {
                            Err(RenderFault::WrongClosingTag)
                        }
                    },
                    _ => Err(RenderFault::UnexpectedCodeBlockEvent),
                }
            },
            Event::End(te) => {
                if *te == closing_tag {
                    *pos += 1;
                    proof {
                        let pi = p0 as int;
                        let consumed = events@.subrange(pi, pi + 1);
                        lemma_stream_stats_single(events@, pi, 0);
                        assert forall|d: int|
                            d >= 1 implies #[trigger] sibling_count_from(consumed, d) == 0 by {
                            lemma_stream_stats_single(events@, pi, d);
                        }
                    }
                    Ok(None)
                } else {
                    Err(RenderFault::WrongClosingTag)
                }
            },
            _ => Err(RenderFault::UnexpectedCodeBlockEvent),
        }
    }

    /// Builds the complete subtree of one opened tag: a child frame
    /// drains events until the matching closing marker, and the siblings
    /// it built are returned. On success the last event consumed is
    /// exactly that closing marker, and — over range-preserving events —
    /// the children's click ranges are exactly the consumed slice's.
    fn children(
        &self,
        closing_tag: TagEnd,
        context: &RenderContext,
        events: &Vec<(Event, SourceRange)>,
        pos: &mut usize,
    ) -> (r: Result<Vec<Node>, RenderFault>)
        requires
            *old(pos) <= events@.len(),
        ensures
            *old(pos) <= *final(pos) <= events@.len(),
            r matches Ok(_) ==> *final(pos) > *old(pos) && events@[*final(pos) - 1].0
                == Event::End(closing_tag),
            r matches Ok(ns) ==> (range_preserving_between(
                events@,
                *old(pos) as int,
                *final(pos) as int,
            ) ==> nodes_click_ranges(ns@) == click_ranges(
                events@.subrange(*old(pos) as int, *final(pos) as int),
            )),
            r matches Ok(ns) ==> (no_footnote_defs(events@, *old(pos) as int, *final(pos) as int)
                ==> delta_sum(events@.subrange(*old(pos) as int, *final(pos) as int)) == -1
                && sibling_count_from(events@.subrange(*old(pos) as int, *final(pos) as int), 0)
                == ns@.len() && (forall|d: int|
                d >= 1 ==> sibling_count_from(
                    events@.subrange(*old(pos) as int, *final(pos) as int),
                    d,
                ) == 0)),
        decreases events@.len() - *old(pos), 1int,
    {
        let mut sub = Renderer {
            column_alignment: copy_alignment_state(&self.column_alignment),
            cell_index: 0,
            end_tag: Some(closing_tag),
        };
        let mut out: Vec<Node> = Vec::new();
        let ghost start = *pos;
        proof {
            assert(events@.subrange(start as int, start as int) =~= Seq::<
                (Event, SourceRange),
            >::empty());
            assert(click_ranges(Seq::<(Event, SourceRange)>::empty()) == Seq::<
                SourceRange,
            >::empty());
            assert(nodes_click_ranges(Seq::<Node>::empty()) == Seq::<SourceRange>::empty());
            assert(delta_sum(Seq::<(Event, SourceRange)>::empty()) == 0);
            assert forall|d: int|
                sibling_count_from(Seq::<(Event, SourceRange)>::empty(), d) == 0 by {}
        }
        loop
            invariant
                start == *old(pos),
                start <= *pos <= events@.len(),
                sub.end_tag == Some(closing_tag),
                range_preserving_between(events@, start as int, *pos as int)
                    ==> nodes_click_ranges(out@) == click_ranges(
                    events@.subrange(start as int, *pos as int),
                ),
                no_footnote_defs(events@, start as int, *pos as int) ==> delta_sum(
                    events@.subrange(start as int, *pos as int),
                ) == 0 && sibling_count_from(events@.subrange(start as int, *pos as int), 0)
                    == out@.len() && (forall|d: int|
                    d >= 1 ==> sibling_count_from(
                        events@.subrange(start as int, *pos as int),
                        d,
                    ) == 0),
            decreases events@.len() - *pos,
        {
            let ghost p0 = *pos;
            match sub.next(context, events, pos) {
                Err(f) => {
                    return Err(f);
                },
                Ok(None) => {
                    proof {
                        if range_preserving_between(events@, start as int, *pos as int) {
                            assert(range_preserving_between(events@, start as int, p0 as int));
                            assert(range_preserving_between(events@, p0 as int, *pos as int));
                            lemma_click_ranges_split(events@, start as int, p0 as int, *pos as int);
                            assert(nodes_click_ranges(out@) + Seq::<SourceRange>::empty()
                                =~= nodes_click_ranges(out@));
                        }
                        if no_footnote_defs(events@, start as int, *pos as int) {
                            assert(no_footnote_defs(events@, start as int, p0 as int));
                            let consumed = events@.subrange(start as int, *pos as int);
                            lemma_stream_stats_split(events@, start as int, p0 as int, *pos as int, 0);
                            assert forall|d: int|
                                d >= 1 implies #[trigger] sibling_count_from(consumed, d) == 0 by {
                                lemma_stream_stats_split(
                                    events@,
                                    start as int,
                                    p0 as int,
                                    *pos as int,
                                    d,
                                );
                            }
                        }
                    }
                    return Ok(out);
                },
                Ok(Some(node)) => {
                    proof {
                        if range_preserving_between(events@, start as int, *pos as int) {
                            assert(range_preserving_between(events@, start as int, p0 as int));
                            assert(range_preserving_between(events@, p0 as int, *pos as int));
                            lemma_click_ranges_split(events@, start as int, p0 as int, *pos as int);
                            lemma_nodes_click_ranges_push(out@, node);
                        }
                        if no_footnote_defs(events@, start as int, *pos as int) {
                            assert(no_footnote_defs(events@, start as int, p0 as int));
                            assert(no_footnote_defs(events@, p0 as int, *pos as int));
                            let consumed = events@.subrange(start as int, *pos as int);
                            lemma_stream_stats_split(events@, start as int, p0 as int, *pos as int, 0);
                            assert forall|d: int|
                                d >= 1 implies #[trigger] sibling_count_from(consumed, d) == 0 by {
                                lemma_stream_stats_split(
                                    events@,
                                    start as int,
                                    p0 as int,
                                    *pos as int,
                                    d,
                                );
                            }
                        }
                    }
                    out.push(node);
                },
            }
        }
    }

    /// One transition of the tag dispatch: consumes the subtree of the
    /// already-consumed opening tag and applies the renderer of its
    /// kind. `Err` is a fatal stream fault; `Ok(Err)` a recoverable
    /// per-node error.
    fn render_tag(
        &mut self,
        tag: &Tag,
        range: SourceRange,
        context: &RenderContext,
        events: &Vec<(Event, SourceRange)>,
        pos: &mut usize,
    ) -> (r: Result<Result<Node, HtmlError>, RenderFault>)
        requires
            *old(pos) <= events@.len(),
        ensures
            *old(pos) <= *final(pos) <= events@.len(),
            final(self).end_tag == old(self).end_tag,
            final(self).column_alignment == old(self).column_alignment,
            !(*tag is TableCell) ==> final(self).cell_index == old(self).cell_index,
            r matches Ok(Ok(_)) ==> *final(pos) > *old(pos) && events@[*final(pos) - 1].0
                == Event::End(closing(*tag)),
            r matches Ok(Ok(n)) ==> node_shape(*tag, n, context.custom_links),
            !(*tag is FootnoteDefinition) ==> !(r matches Ok(Err(_))),
            r matches Ok(Ok(_)) ==> (no_footnote_defs(events@, *old(pos) as int, *final(pos) as int)
                ==> delta_sum(events@.subrange(*old(pos) as int, *final(pos) as int)) == -1 && (
                forall|d: int|
                    d >= 1 ==> sibling_count_from(
                        events@.subrange(*old(pos) as int, *final(pos) as int),
                        d,
                    ) == 0)),
            r matches Ok(Ok(n)) ==> (range_preserving_tag(*tag) && range_preserving_between(
                events@,
                *old(pos) as int,
                *final(pos) as int,
            ) ==> node_click_ranges(n) == click_ranges(
                events@.subrange(*old(pos) as int, *final(pos) as int),
            )),
            *tag is FootnoteDefinition ==> *final(pos) == *old(pos),
            *tag is FootnoteDefinition ==> (r matches Ok(Err(e)) && e.0@
                == "footnote: not implemented"@),
            *tag is TableCell && old(self).column_alignment is None ==> r == Err::<
                Result<Node, HtmlError>,
                RenderFault,
            >(RenderFault::CellWithoutTable),
            old(self).column_alignment matches Some(v) ==> (*tag is TableCell && old(
                self).cell_index >= v@.len() ==> r == Err::<Result<Node, HtmlError>, RenderFault>(
                RenderFault::CellIndexOutOfBounds,
            )),
            r matches Ok(Ok(n)) ==> (*tag is TableCell ==> (old(self).column_alignment
                matches Some(v) ==> (n matches Node::TableCell(a, _) && a == v@[old(
                self).cell_index as int] && final(self).cell_index == old(self).cell_index + 1))),
            r matches Ok(Ok(n)) ==> (*tag is CodeBlock ==> ((*final(pos) == *old(pos) + 1 ==> n
                == Node::EmptyCodeBlock) && (*final(pos) == *old(pos) + 2 ==> (events@[*old(
                pos,
            ) as int].0 matches Event::Text(t) ==> code_block_matches(n, t@, range))))),
        decreases events@.len() - *old(pos), 2int,
    {
        match tag {
            Tag::Paragraph => {
                let cs = match self.children(TagEnd::Paragraph, context, events, pos) {
                    Ok(c) => c,
                    Err(f) => {
                        return Err(f);
                    },
                };
                Ok(Ok(Node::Paragraph(cs)))
            },
            Tag::Heading(level) => {
                let cs = match self.children(TagEnd::Heading(*level), context, events, pos) {
                    Ok(c) => c,
                    Err(f) => {
                        return Err(f);
                    },
                };
                Ok(Ok(render_heading(*level, cs)))
            },
            Tag::BlockQuote => {
                let cs = match self.children(TagEnd::BlockQuote, context, events, pos) {
                    Ok(c) => c,
                    Err(f) => {
                        return Err(f);
                    },
                };
                Ok(Ok(Node::BlockQuote(cs)))
            },
            Tag::CodeBlock(k) => {
                let text = match Self::children_text(TagEnd::CodeBlock, events, pos) {
                    Ok(t) => t,
                    Err(f) => {
                        return Err(f);
                    },
                };
                Ok(Ok(render_code_block(context, text, k, range)))
            },
            Tag::List(start) => {
                match start {
                    Some(n0) => {
                        let first = *n0;
                        let cs = match self.children(TagEnd::List(true), context, events, pos) {
                            Ok(c) => c,
                            Err(f) => {
                                return Err(f);
                            },
                        };
                        Ok(Ok(Node::OrderedList(first, cs)))
                    },
                    None => {
                        let cs = match self.children(TagEnd::List(false), context, events, pos) {
                            Ok(c) => c,
                            Err(f) => {
                                return Err(f);
                            },
                        };
                        Ok(Ok(Node::UnorderedList(cs)))
                    },
                }
            },
            Tag::Item => {
                let cs = match self.children(TagEnd::Item, context, events, pos) {
                    Ok(c) => c,
                    Err(f) => {
                        return Err(f);
                    },
                };
                Ok(Ok(Node::ListItem(cs)))
            },
            Tag::FootnoteDefinition(_) => {
                let inner: Result<Node, HtmlError> = HtmlError::err("footnote: not implemented");
                Ok(inner)
            },
            Tag::Table(al) => {
                let mut previous: Option<Vec<Alignment>> = Some(copy_alignments(al));
                core::mem::swap(&mut self.column_alignment, &mut previous);
                let cs = match self.children(TagEnd::Table, context, events, pos) {
                    Ok(c) => c,
                    Err(f) => {
                        self.column_alignment = previous;
                        return Err(f);
                    },
                };
                self.column_alignment = previous;
                Ok(Ok(Node::Table(cs)))
            },
            Tag::TableHead => {
                let cs = match self.children(TagEnd::TableHead, context, events, pos) {
                    Ok(c) => c,
                    Err(f) => {
                        return Err(f);
                    },
                };
                Ok(Ok(Node::TableHead(cs)))
            },
            Tag::TableRow => {
                let cs = match self.children(TagEnd::TableRow, context, events, pos) {
                    Ok(c) => c,
                    Err(f) => {
                        return Err(f);
                    },
                };
                Ok(Ok(Node::TableRow(cs)))
            },
            Tag::TableCell => {
                let align = match &self.column_alignment {
                    None => {
                        return Err(RenderFault::CellWithoutTable);
                    },
                    Some(v) => {
                        if self.cell_index >= v.len() {
                            return Err(RenderFault::CellIndexOutOfBounds);
                        }
                        v[self.cell_index]
                    },
                };
                self.cell_index = self.cell_index + 1;
                let cs = match self.children(TagEnd::TableCell, context, events, pos) {
                    Ok(c) => c,
                    Err(f) => {
                        return Err(f);
                    },
                };
                Ok(Ok(render_cell(cs, &align)))
            },
            Tag::Emphasis => {
                let cs = match self.children(TagEnd::Emphasis, context, events, pos) {
                    Ok(c) => c,
                    Err(f) => {
                        return Err(f);
                    },
                };
                Ok(Ok(Node::Emphasis(cs)))
            },
            Tag::Strong => {
                let cs = match self.children(TagEnd::Strong, context, events, pos) {
                    Ok(c) => c,
                    Err(f) => {
                        return Err(f);
                    },
                };
                Ok(Ok(Node::Strong(cs)))
            },
            Tag::Strikethrough => {
                let cs = match self.children(TagEnd::Strikethrough, context, events, pos) {
                    Ok(c) => c,
                    Err(f) => {
                        return Err(f);
                    },
                };
                Ok(Ok(Node::Strikethrough(cs)))
            },
            Tag::Link { link_type, dest_url, title } => {
                let cs = match self.children(TagEnd::Link, context, events, pos) {
                    Ok(c) => c,
                    Err(f) => {
                        return Err(f);
                    },
                };
                let description = LinkDescription {
                    url: dest_url.clone(),
                    title: title.clone(),
                    content: cs,
                    link_type: *link_type,
                    image: false,
                };
                match render_link(context, description) {
                    Ok(n) => Ok(Ok(n)),
                    Err(e) => Ok(Err(e)),
                }
            },
            Tag::Image { link_type, dest_url, title } => {
                let cs = match self.children(TagEnd::Image, context, events, pos) {
                    Ok(c) => c,
                    Err(f) => {
                        return Err(f);
                    },
                };
                let description = LinkDescription {
                    url: dest_url.clone(),
                    title: title.clone(),
                    content: cs,
                    link_type: *link_type,
                    image: true,
                };
                match render_link(context, description) {
                    Ok(n) => Ok(Ok(n)),
                    Err(e) => Ok(Err(e)),
                }
            },
            Tag::MetadataBlock => {
                let discarded = match self.children(TagEnd::MetadataBlock, context, events, pos) {
                    Ok(c) => c,
                    Err(f) => {
                        return Err(f);
                    },
                };
                let _ = discarded;
                Ok(Ok(Node::Empty))
            },
        }
    }

    /// One step of this builder frame: consumes events from the cursor
    /// and yields the next sibling node; `Ok(None)` when the frame is
    /// done — its closing marker was consumed or, for a top-level frame,
    /// the stream is exhausted; `Err` when the stream is malformed. Soft
    /// breaks yield no node. Recoverable per-node errors come back as a
    /// visible `Node::ErrorNode` and the render continues.
    pub fn next(
        &mut self,
        context: &RenderContext,
        events: &Vec<(Event, SourceRange)>,
        pos: &mut usize,
    ) -> (r: Result<Option<Node>, RenderFault>)
        requires
            *old(pos) <= events@.len(),
        ensures
            *old(pos) <= *final(pos) <= events@.len(),
            final(self).end_tag == old(self).end_tag,
            r matches Ok(Some(n)) ==> *final(pos) > *old(pos) && (range_preserving_between(
                events@,
                *old(pos) as int,
                *final(pos) as int,
            ) ==> node_click_ranges(n) == click_ranges(
                events@.subrange(*old(pos) as int, *final(pos) as int),
            )),
            r matches Ok(None) ==> (old(self).end_tag matches Some(t) ==> (*final(pos) > *old(pos)
                && events@[*final(pos) - 1].0 == Event::End(t))),
            r matches Ok(None) && old(self).end_tag is None ==> *final(pos) == events@.len(),
            r matches Ok(None) ==> (range_preserving_between(
                events@,
                *old(pos) as int,
                *final(pos) as int,
            ) ==> click_ranges(events@.subrange(*old(pos) as int, *final(pos) as int)) == Seq::<
                SourceRange,
            >::empty()),
            r matches Ok(Some(_)) ==> (no_footnote_defs(
                events@,
                *old(pos) as int,
                *final(pos) as int,
            ) ==> delta_sum(events@.subrange(*old(pos) as int, *final(pos) as int)) == 0
                && sibling_count_from(events@.subrange(*old(pos) as int, *final(pos) as int), 0)
                == 1 && (forall|d: int|
                d >= 1 ==> sibling_count_from(
                    events@.subrange(*old(pos) as int, *final(pos) as int),
                    d,
                ) == 0)),
            r matches Ok(None) ==> (old(self).end_tag is Some ==> delta_sum(
                events@.subrange(*old(pos) as int, *final(pos) as int),
            ) == -1),
            r matches Ok(None) ==> (old(self).end_tag is None ==> delta_sum(
                events@.subrange(*old(pos) as int, *final(pos) as int),
            ) == 0),
            r matches Ok(None) ==> (forall|d: int|
                sibling_count_from(events@.subrange(*old(pos) as int, *final(pos) as int), d)
                    == 0),
            *old(pos) == events@.len() && old(self).end_tag is None ==> r matches Ok(None),
            *old(pos) == events@.len() && old(self).end_tag is Some ==> r == Err::<
                Option<Node>,
                RenderFault,
            >(RenderFault::UnexpectedEndOfStream),
            *old(pos) < events@.len() ==> (events@[*old(pos) as int].0 matches Event::End(te)
                ==> (match old(self).end_tag {
                Some(t) => if t == te {
                    r == Ok::<Option<Node>, RenderFault>(None) && *final(pos) == *old(pos) + 1
                } else {
                    r == Err::<Option<Node>, RenderFault>(RenderFault::WrongClosingTag)
                },
                None => r == Err::<Option<Node>, RenderFault>(RenderFault::UnexpectedClosingTag),
            })),
            *old(pos) < events@.len() && is_plain_leaf(events@[*old(pos) as int].0) ==> (
            r matches Ok(Some(_)) && *final(pos) == *old(pos) + 1),
            *old(pos) < events@.len() ==> (events@[*old(pos) as int].0 matches Event::Start(_)
                ==> !(r matches Ok(None))),
            r matches Ok(Some(n)) ==> step_node_matches(
                events@[*old(pos) as int].0,
                events@[*old(pos) as int].1,
                n,
                context.custom_links,
            ),
            old(self).end_tag is None && flat_between(
                events@,
                *old(pos) as int,
                events@.len() as int,
            ) ==> r is Ok,
        decreases events@.len() - *old(pos), 0int,
    {
        if *pos == events.len() {
            proof {
                assert(events@.subrange(*pos as int, *pos as int) =~= Seq::<
                    (Event, SourceRange),
                >::empty());
                assert(click_ranges(Seq::<(Event, SourceRange)>::empty()) == Seq::<
                    SourceRange,
                >::empty());
                assert(delta_sum(Seq::<(Event, SourceRange)>::empty()) == 0);
                assert forall|d: int|
                    sibling_count_from(Seq::<(Event, SourceRange)>::empty(), d) == 0 by {}
            }
            return match self.end_tag {
                None => Ok(None),
                Some(_) => Err(RenderFault::UnexpectedEndOfStream),
            };
        }
        let ghost p0 = *pos;
        let ev = &events[*pos];
        let range = ev.1;
        *pos += 1;
        let rendered: Result<Node, HtmlError> = match &ev.0 {
            Event::Start(t) => {
                match self.render_tag(t, range, context, events, pos) {
                    Err(f) => {
                        return Err(f);
                    },
                    Ok(inner) => inner,
                }
            },
            Event::End(end) => {
                match self.end_tag {
                    Some(t) => {
                        if t == *end {
                            proof {
                                lemma_click_ranges_single(events@, p0 as int);
                                assert(events@.subrange(p0 as int, *pos as int) =~= events@.subrange(
                                    p0 as int,
                                    p0 as int + 1,
                                ));
                                lemma_stream_stats_single(events@, p0 as int, 0);
                                let consumed = events@.subrange(p0 as int, *pos as int);
                                assert forall|d: int| #[trigger]
                                    sibling_count_from(consumed, d) == 0 by {
                                    lemma_stream_stats_single(events@, p0 as int, d);
                                }
                            }
                            return Ok(None);
                        } else {
                            return Err(RenderFault::WrongClosingTag);
                        }
                    },
                    None => {
                        return Err(RenderFault::UnexpectedClosingTag);
                    },
                }
            },
            Event::Text(s) => Ok(render_text(s.as_str(), range)),
            Event::Code(s) => Ok(render_code(s.as_str(), range)),
            Event::Html(s) => Ok(render_html(s.as_str(), range)),
            Event::FootnoteReference(_) => HtmlError::err("do not support footnote refs yet"),
            Event::SoftBreak => {
                let r2 = self.next(context, events, pos);
                proof {
                    let pi = p0 as int;
                    let p1 = *pos as int;
                    lemma_click_ranges_single(events@, pi);
                    lemma_click_ranges_split(events@, pi, pi + 1, p1);
                    assert(Seq::<SourceRange>::empty() + click_ranges(
                        events@.subrange(pi + 1, p1),
                    ) =~= click_ranges(events@.subrange(pi + 1, p1)));
                    lemma_stream_stats_single(events@, pi, 0);
                    lemma_stream_stats_split(events@, pi, pi + 1, p1, 0);
                    if no_footnote_defs(events@, pi, p1) {
                        assert(no_footnote_defs(events@, pi + 1, p1));
                    }
                    if flat_between(events@, pi, events@.len() as int) {
                        assert(flat_between(events@, pi + 1, events@.len() as int));
                    }
                    let consumed = events@.subrange(pi, p1);
                    let after_break = events@.subrange(pi + 1, p1);
                    assert forall|d: int| #[trigger]
                        sibling_count_from(consumed, d) == sibling_count_from(after_break, d) by {
                        lemma_stream_stats_single(events@, pi, d);
                        lemma_stream_stats_split(events@, pi, pi + 1, p1, d);
                    }
                }
                return r2;
            },
            Event::HardBreak => Ok(Node::HardBreak),
            Event::Rule => Ok(render_rule(range)),
            Event::TaskListMarker(m) => Ok(render_tasklist_marker(*m, range)),
            Event::Math(mode, content) => render_maths(content.as_str(), mode, range),
        };
        let node = match rendered {
            Ok(n) => n,
            Err(e) => Node::ErrorNode(e.0),
        };
        proof {
            let pi = p0 as int;
            let p1 = *pos as int;
            if no_footnote_defs(events@, pi, p1) {
                assert(!is_footnote_def_start(events@[pi].0));
                lemma_stream_stats_single(events@, pi, 0);
                lemma_stream_stats_split(events@, pi, pi + 1, p1, 0);
                let consumed = events@.subrange(pi, p1);
                assert forall|d: int|
                    d >= 1 implies #[trigger] sibling_count_from(consumed, d) == 0 by {
                    lemma_stream_stats_single(events@, pi, d);
                    lemma_stream_stats_split(events@, pi, pi + 1, p1, d);
                    if p1 == pi + 1 {
                        assert(events@.subrange(pi + 1, p1) =~= Seq::<
                            (Event, SourceRange),
                        >::empty());
                        assert(sibling_count_from(
                            Seq::<(Event, SourceRange)>::empty(),
                            d + event_delta(events@[pi].0),
                        ) == 0);
                    }
                }
                match events@[pi].0 {
                    Event::Start(t2) => {
                        assert(no_footnote_defs(events@, pi + 1, p1));
                    },
                    _ => {
                        assert(p1 == pi + 1);
                        assert(events@.subrange(pi + 1, p1) =~= Seq::<
                            (Event, SourceRange),
                        >::empty());
                        assert(delta_sum(Seq::<(Event, SourceRange)>::empty()) == 0);
                        assert(sibling_count_from(
                            Seq::<(Event, SourceRange)>::empty(),
                            event_delta(events@[pi].0),
                        ) == 0);
                        assert(is_sibling_event(events@[pi].0));
                    },
                }
            }
            if range_preserving_between(events@, pi, p1) {
                assert(range_preserving_event(events@[pi].0));
                lemma_click_ranges_single(events@, pi);
                lemma_click_ranges_split(events@, pi, pi + 1, p1);
                if p1 == pi + 1 {
                    assert(events@.subrange(pi + 1, p1) =~= Seq::<(Event, SourceRange)>::empty());
                    assert(click_ranges(Seq::<(Event, SourceRange)>::empty()) == Seq::<
                        SourceRange,
                    >::empty());
                }
                match events@[pi].0 {
                    Event::Start(t2) => {
                        assert(range_preserving_tag(t2));
                        assert(range_preserving_between(events@, pi + 1, p1));
                        assert(Seq::<SourceRange>::empty() + click_ranges(
                            events@.subrange(pi + 1, p1),
                        ) =~= click_ranges(events@.subrange(pi + 1, p1)));
                    },
                    _ => {
                        assert(p1 == pi + 1);
                        assert(seq![events@[pi].1] + Seq::<SourceRange>::empty() =~= seq![
                            events@[pi].1,
                        ]);
                        assert(Seq::<SourceRange>::empty() + Seq::<SourceRange>::empty() =~= Seq::<
                            SourceRange,
                        >::empty());
                    },
                }
            }
        }
        Ok(Some(node))
    }
}

/// Renders a whole adapted stream into the ordered sequence of top-level
/// nodes, or the fatal fault for a malformed stream. Over streams of
/// range-preserving events, a successful render's click ranges — read
/// back from the tree in document order — are exactly the click-leaf
/// ranges of the input, in original order. And over streams without
/// footnote definitions, a successful render yields exactly one node per
/// top-level sibling of the stream: each opening tag or non-soft-break
/// leaf met at nesting depth zero.
pub fn render_events(context: &RenderContext, events: &Vec<(Event, SourceRange)>) -> (r: Result<
    Vec<Node>,
    RenderFault,
>)
    ensures
        r matches Ok(ns) ==> (range_preserving_between(events@, 0, events@.len() as int)
            ==> nodes_click_ranges(ns@) == click_ranges(events@)),
        r matches Ok(ns) ==> (no_footnote_defs(events@, 0, events@.len() as int) ==> ns@.len()
            as int == sibling_count_from(events@, 0)),
        r matches Ok(_) ==> (no_footnote_defs(events@, 0, events@.len() as int) ==> delta_sum(
            events@,
        ) == 0),
        flat_between(events@, 0, events@.len() as int) ==> r is Ok,
        events@.len() == 0 ==> (r matches Ok(ns) && ns@.len() == 0),
{
    let mut top = Renderer::new();
    let mut pos: usize = 0;
    let mut out: Vec<Node> = Vec::new();
    proof {
        assert(events@.subrange(0, 0) =~= Seq::<(Event, SourceRange)>::empty());
        assert(click_ranges(Seq::<(Event, SourceRange)>::empty()) == Seq::<SourceRange>::empty());
        assert(nodes_click_ranges(Seq::<Node>::empty()) == Seq::<SourceRange>::empty());
        assert(delta_sum(Seq::<(Event, SourceRange)>::empty()) == 0);
        assert(sibling_count_from(Seq::<(Event, SourceRange)>::empty(), 0) == 0);
    }
    loop
        invariant
            pos <= events@.len(),
            top.end_tag is None,
            range_preserving_between(events@, 0, pos as int) ==> nodes_click_ranges(out@)
                == click_ranges(events@.subrange(0, pos as int)),
            no_footnote_defs(events@, 0, pos as int) ==> delta_sum(
                events@.subrange(0, pos as int),
            ) == 0 && sibling_count_from(events@.subrange(0, pos as int), 0) == out@.len(),
        decreases events@.len() - pos,
    {
        let ghost p0 = pos;
        match top.next(context, events, &mut pos) {
            Err(f) => {
                proof {
                    if flat_between(events@, 0, events@.len() as int) {
                        assert(flat_between(events@, p0 as int, events@.len() as int));
                    }
                }
                return Err(f);
            },
            Ok(None) => {
                proof {
                    if range_preserving_between(events@, 0, pos as int) {
                        assert(range_preserving_between(events@, 0, p0 as int));
                        assert(range_preserving_between(events@, p0 as int, pos as int));
                        lemma_click_ranges_split(events@, 0, p0 as int, pos as int);
                        assert(nodes_click_ranges(out@) + Seq::<SourceRange>::empty()
                            =~= nodes_click_ranges(out@));
                    }
                    if no_footnote_defs(events@, 0, pos as int) {
                        assert(no_footnote_defs(events@, 0, p0 as int));
                        lemma_stream_stats_split(events@, 0, p0 as int, pos as int, 0);
                    }
                    assert(events@.subrange(0, events@.len() as int) =~= events@);
                }
                return Ok(out);
            },
            Ok(Some(node)) => {
                proof {
                    if range_preserving_between(events@, 0, pos as int) {
                        assert(range_preserving_between(events@, 0, p0 as int));
                        assert(range_preserving_between(events@, p0 as int, pos as int));
                        lemma_click_ranges_split(events@, 0, p0 as int, pos as int);
                        lemma_nodes_click_ranges_push(out@, node);
                    }
                    if no_footnote_defs(events@, 0, pos as int) {
                        assert(no_footnote_defs(events@, 0, p0 as int));
                        assert(no_footnote_defs(events@, p0 as int, pos as int));
                        lemma_stream_stats_split(events@, 0, p0 as int, pos as int, 0);
                    }
                }
                out.push(node);
            },
        }
    }
}

} // verus!
