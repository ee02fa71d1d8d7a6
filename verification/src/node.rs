//! The output model: one tree node per rendered element, consumed by a
//! host rendering layer. Interactive leaves carry the source range their
//! click notification must report.

use vstd::prelude::*;
use crate::event::{Alignment, HeadingLevel, LinkType, SourceRange};

verus! {

/// The description of a link or image, handed to a host link-render hook
/// when one is installed.
pub struct LinkDescription {
    /// the url of the link
    pub url: String,
    /// the already-built children standing under the link
    pub content: Vec<Node>,
    /// the title of the link; often empty
    pub title: String,
    /// the type of link
    pub link_type: LinkType,
    /// whether the link is an image
    pub image: bool,
}

/// One element of the rendered tree.
pub enum Node {
    Paragraph(Vec<Node>),
    Heading(HeadingLevel, Vec<Node>),
    BlockQuote(Vec<Node>),
    /// An ordered list starting at the given number.
    OrderedList(u64, Vec<Node>),
    UnorderedList(Vec<Node>),
    ListItem(Vec<Node>),
    Table(Vec<Node>),
    TableHead(Vec<Node>),
    TableRow(Vec<Node>),
    /// A cell styled by the alignment resolved from its column index.
    TableCell(Alignment, Vec<Node>),
    Emphasis(Vec<Node>),
    Strong(Vec<Node>),
    Strikethrough(Vec<Node>),
    /// The default rendering of a link: an anchor around its children.
    /// The title is dropped on this path.
    Anchor { url: String, children: Vec<Node> },
    /// The default rendering of an image: a leaf; children are discarded.
    ImageLeaf { url: String, title: String },
    /// A link or image left to the host's link-render hook.
    CustomLink(LinkDescription),
    /// A text leaf with a click range.
    Text(String, SourceRange),
    /// An inline code leaf with a click range.
    CodeSpan(String, SourceRange),
    /// Raw HTML injected verbatim, with a click range.
    RawHtml(String, SourceRange),
    /// A horizontal rule with a click range.
    Rule(SourceRange),
    /// A line break; carries no click range.
    HardBreak,
    /// A checkbox leaf; its click handler must also suppress the control's
    /// default toggle and stop bubbling before notifying.
    TaskListMarker(bool, SourceRange),
    /// Successfully typeset math markup, classed inline or display.
    Math { display: bool, markup: String, range: SourceRange },
    /// A code block with no content at all.
    EmptyCodeBlock,
    /// A code block left unstyled, carrying its text verbatim.
    PlainCodeBlock(String, SourceRange),
    /// A code block pre-rendered by the highlighter, injected as markup.
    HighlightedCodeBlock(String, SourceRange),
    /// The placeholder left where a metadata block was consumed.
    Empty,
    /// The visible inline indicator of a recoverable per-node error.
    ErrorNode(String),
}

/// The click ranges bound inside `n`, in document order.
pub open spec fn node_click_ranges(n: Node) -> Seq<SourceRange>
    decreases n,
{
    match n {
        Node::Paragraph(cs) => nodes_click_ranges(cs@),
        Node::Heading(_, cs) => nodes_click_ranges(cs@),
        Node::BlockQuote(cs) => nodes_click_ranges(cs@),
        Node::OrderedList(_, cs) => nodes_click_ranges(cs@),
        Node::UnorderedList(cs) => nodes_click_ranges(cs@),
        Node::ListItem(cs) => nodes_click_ranges(cs@),
        Node::Table(cs) => nodes_click_ranges(cs@),
        Node::TableHead(cs) => nodes_click_ranges(cs@),
        Node::TableRow(cs) => nodes_click_ranges(cs@),
        Node::TableCell(_, cs) => nodes_click_ranges(cs@),
        Node::Emphasis(cs) => nodes_click_ranges(cs@),
        Node::Strong(cs) => nodes_click_ranges(cs@),
        Node::Strikethrough(cs) => nodes_click_ranges(cs@),
        Node::Anchor { children, .. } => nodes_click_ranges(children@),
        Node::ImageLeaf { .. } => Seq::empty(),
        Node::CustomLink(d) => nodes_click_ranges(d.content@),
        Node::Text(_, r) => seq![r],
        Node::CodeSpan(_, r) => seq![r],
        Node::RawHtml(_, r) => seq![r],
        Node::Rule(r) => seq![r],
        Node::HardBreak => Seq::empty(),
        Node::TaskListMarker(_, r) => seq![r],
        Node::Math { range, .. } => seq![range],
        Node::EmptyCodeBlock => Seq::empty(),
        Node::PlainCodeBlock(_, r) => seq![r],
        Node::HighlightedCodeBlock(_, r) => seq![r],
        Node::Empty => Seq::empty(),
        Node::ErrorNode(_) => Seq::empty(),
    }
}

/// The click ranges bound inside a sequence of siblings, in order.
pub open spec fn nodes_click_ranges(s: Seq<Node>) -> Seq<SourceRange>
    decreases s, s.len(),
{
    if s.len() == 0 {
        Seq::empty()
    } else {
        node_click_ranges(s[0]) + nodes_click_ranges(s.drop_first())
    }
}

/// Appending a sibling appends its click ranges.
pub proof fn lemma_nodes_click_ranges_push(s: Seq<Node>, n: Node)
    ensures
        nodes_click_ranges(s.push(n)) == nodes_click_ranges(s) + node_click_ranges(n),
    decreases s.len(),
{
    if s.len() == 0 {
        let p = s.push(n);
        assert(p.len() == 1);
        assert(p[0] == n);
        assert(p.drop_first() =~= Seq::<Node>::empty());
        assert(nodes_click_ranges(Seq::<Node>::empty()) == Seq::<SourceRange>::empty());
        assert(nodes_click_ranges(p) == node_click_ranges(n) + Seq::<SourceRange>::empty());
        assert(node_click_ranges(n) + Seq::<SourceRange>::empty() =~= node_click_ranges(n));
        assert(nodes_click_ranges(s) + node_click_ranges(n) =~= node_click_ranges(n));
    } else {
        assert(s.push(n).drop_first() =~= s.drop_first().push(n));
        lemma_nodes_click_ranges_push(s.drop_first(), n);
        assert(s.push(n)[0] == s[0]);
        assert(nodes_click_ranges(s.push(n)) == node_click_ranges(s[0]) + nodes_click_ranges(
            s.drop_first().push(n),
        ));
        assert(node_click_ranges(s[0]) + (nodes_click_ranges(s.drop_first())
            + node_click_ranges(n)) =~= (node_click_ranges(s[0]) + nodes_click_ranges(
            s.drop_first(),
        )) + node_click_ranges(n));
    }
}

} // verus!
