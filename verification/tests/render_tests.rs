use markdown_tree::context::RenderContext;
use markdown_tree::event::{
    Alignment, Event, HeadingLevel, MathMode, SourceRange, Tag, TagEnd,
};
use markdown_tree::node::Node;
use markdown_tree::render::{render_events, RenderFault};

fn sr(start: usize, end: usize) -> SourceRange {
    SourceRange { start, end }
}

fn plain_context() -> RenderContext {
    match RenderContext::new(None, false) {
        Ok(c) => c,
        Err(e) => panic!("context construction failed: {}", e.to_string()),
    }
}

fn collect_click_ranges(n: &Node, out: &mut Vec<SourceRange>) {
    match n {
        Node::Paragraph(cs)
        | Node::Heading(_, cs)
        | Node::BlockQuote(cs)
        | Node::OrderedList(_, cs)
        | Node::UnorderedList(cs)
        | Node::ListItem(cs)
        | Node::Table(cs)
        | Node::TableHead(cs)
        | Node::TableRow(cs)
        | Node::TableCell(_, cs)
        | Node::Emphasis(cs)
        | Node::Strong(cs)
        | Node::Strikethrough(cs) => {
            for c in cs {
                collect_click_ranges(c, out);
            }
        }
        Node::Anchor { children, .. } => {
            for c in children {
                collect_click_ranges(c, out);
            }
        }
        Node::CustomLink(d) => {
            for c in &d.content {
                collect_click_ranges(c, out);
            }
        }
        Node::Text(_, r)
        | Node::CodeSpan(_, r)
        | Node::RawHtml(_, r)
        | Node::Rule(r)
        | Node::TaskListMarker(_, r)
        | Node::PlainCodeBlock(_, r)
        | Node::HighlightedCodeBlock(_, r) => out.push(*r),
        Node::Math { range, .. } => out.push(*range),
        Node::ImageLeaf { .. }
        | Node::HardBreak
        | Node::EmptyCodeBlock
        | Node::Empty
        | Node::ErrorNode(_) => {}
    }
}

#[test]
fn paragraph_roundtrip_ranges() {
    let context = plain_context();
    let events = vec![
        (Event::Start(Tag::Paragraph), sr(0, 12)),
        (Event::Text("hi".to_string()), sr(0, 2)),
        (Event::Code("x".to_string()), sr(3, 4)),
        (Event::SoftBreak, sr(4, 5)),
        (Event::Html("<b>".to_string()), sr(5, 8)),
        (Event::End(TagEnd::Paragraph), sr(0, 12)),
        (Event::Rule, sr(13, 16)),
        (Event::Math(MathMode::Inline, "x^2".to_string()), sr(17, 20)),
    ];
    let nodes = render_events(&context, &events).expect("well-formed stream");
    assert_eq!(nodes.len(), 3);
    let mut seen = Vec::new();
    for n in &nodes {
        collect_click_ranges(n, &mut seen);
    }
    assert_eq!(seen, vec![sr(0, 2), sr(3, 4), sr(5, 8), sr(13, 16), sr(17, 20)]);
}

#[test]
fn malformed_stream_faults() {
    let context = plain_context();
    let events = vec![(Event::Start(Tag::Paragraph), sr(0, 4))];
    let r = render_events(&context, &events);
    assert!(matches!(r, Err(RenderFault::UnexpectedEndOfStream)));
}

#[test]
fn wrong_closing_tag_faults() {
    let context = plain_context();
    let events = vec![
        (Event::Start(Tag::Paragraph), sr(0, 4)),
        (Event::End(TagEnd::Strong), sr(0, 4)),
    ];
    let r = render_events(&context, &events);
    assert!(matches!(r, Err(RenderFault::WrongClosingTag)));
}

#[test]
fn unexpected_closing_tag_faults() {
    let context = plain_context();
    let events = vec![(Event::End(TagEnd::Paragraph), sr(0, 4))];
    let r = render_events(&context, &events);
    assert!(matches!(r, Err(RenderFault::UnexpectedClosingTag)));
}

#[test]
fn heading_wraps_children() {
    let context = plain_context();
    let events = vec![
        (Event::Start(Tag::Heading(HeadingLevel::H2)), sr(0, 5)),
        (Event::Text("t".to_string()), sr(3, 4)),
        (Event::End(TagEnd::Heading(HeadingLevel::H2)), sr(0, 5)),
    ];
    let nodes = render_events(&context, &events).expect("well-formed stream");
    assert_eq!(nodes.len(), 1);
    match &nodes[0] {
        Node::Heading(level, cs) => {
            assert!(matches!(level, HeadingLevel::H2));
            assert_eq!(cs.len(), 1);
            assert!(matches!(&cs[0], Node::Text(s, r) if s == "t" && *r == sr(3, 4)));
        }
        _ => panic!("expected a heading node"),
    }
}

#[test]
fn ordered_list_starts_at_number() {
    let context = plain_context();
    let events = vec![
        (Event::Start(Tag::List(Some(3))), sr(0, 9)),
        (Event::Start(Tag::Item), sr(0, 4)),
        (Event::Text("a".to_string()), sr(1, 2)),
        (Event::End(TagEnd::Item), sr(0, 4)),
        (Event::End(TagEnd::List(true)), sr(0, 9)),
    ];
    let nodes = render_events(&context, &events).expect("well-formed stream");
    assert_eq!(nodes.len(), 1);
    match &nodes[0] {
        Node::OrderedList(start, cs) => {
            assert_eq!(*start, 3);
            assert_eq!(cs.len(), 1);
            assert!(matches!(&cs[0], Node::ListItem(_)));
        }
        _ => panic!("expected an ordered list"),
    }
}

fn cell_events(text: &str, range: SourceRange) -> Vec<(Event, SourceRange)> {
    vec![
        (Event::Start(Tag::TableCell), range),
        (Event::Text(text.to_string()), range),
        (Event::End(TagEnd::TableCell), range),
    ]
}

#[test]
fn table_alignment_resolves_per_row() {
    let context = plain_context();
    let aligns = vec![Alignment::Left, Alignment::Center, Alignment::Right];
    let mut events = vec![
        (Event::Start(Tag::Table(aligns)), sr(0, 40)),
        (Event::Start(Tag::TableRow), sr(0, 20)),
    ];
    events.extend(cell_events("a", sr(1, 2)));
    events.extend(cell_events("b", sr(3, 4)));
    events.extend(cell_events("c", sr(5, 6)));
    events.push((Event::End(TagEnd::TableRow), sr(0, 20)));
    // the cell index starts over in the second row: each row's frame
    // counts its own cells
    events.push((Event::Start(Tag::TableRow), sr(20, 40)));
    events.extend(cell_events("d", sr(21, 22)));
    events.extend(cell_events("e", sr(23, 24)));
    events.push((Event::End(TagEnd::TableRow), sr(20, 40)));
    events.push((Event::End(TagEnd::Table), sr(0, 40)));

    let nodes = render_events(&context, &events).expect("well-formed stream");
    assert_eq!(nodes.len(), 1);
    let rows = match &nodes[0] {
        Node::Table(rows) => rows,
        _ => panic!("expected a table"),
    };
    let expect_row = |row: &Node, expected: &[Alignment]| match row {
        Node::TableRow(cells) => {
            assert_eq!(cells.len(), expected.len());
            for (cell, want) in cells.iter().zip(expected.iter()) {
                match cell {
                    Node::TableCell(a, _) => assert_eq!(a, want),
                    _ => panic!("expected a cell"),
                }
            }
        }
        _ => panic!("expected a row"),
    };
    expect_row(&rows[0], &[Alignment::Left, Alignment::Center, Alignment::Right]);
    expect_row(&rows[1], &[Alignment::Left, Alignment::Center]);
}

#[test]
fn nested_table_state_is_scoped() {
    // a nested table's alignments hold for its own subtree only: a cell
    // met after its close resolves the outer table's alignments again
    let context = plain_context();
    let mut events = vec![
        (Event::Start(Tag::Table(vec![Alignment::Left, Alignment::Right])), sr(0, 30)),
        (Event::Start(Tag::TableRow), sr(0, 30)),
    ];
    events.extend(cell_events("a", sr(1, 2)));
    events.push((Event::Start(Tag::Table(vec![Alignment::Center])), sr(3, 8)));
    events.push((Event::End(TagEnd::Table), sr(3, 8)));
    events.extend(cell_events("b", sr(9, 10)));
    events.push((Event::End(TagEnd::TableRow), sr(0, 30)));
    events.push((Event::End(TagEnd::Table), sr(0, 30)));

    let nodes = render_events(&context, &events).expect("well-formed stream");
    let rows = match &nodes[0] {
        Node::Table(rows) => rows,
        _ => panic!("expected a table"),
    };
    match &rows[0] {
        Node::TableRow(cells) => {
            assert!(matches!(&cells[0], Node::TableCell(Alignment::Left, _)));
            assert!(matches!(&cells[1], Node::Table(_)));
            assert!(matches!(&cells[2], Node::TableCell(Alignment::Right, _)));
        }
        _ => panic!("expected a row"),
    }
}

#[test]
fn cell_outside_table_faults() {
    let context = plain_context();
    let mut events = Vec::new();
    events.extend(cell_events("a", sr(0, 1)));
    let r = render_events(&context, &events);
    assert!(matches!(r, Err(RenderFault::CellWithoutTable)));
}

#[test]
fn cell_index_out_of_bounds_faults() {
    let context = plain_context();
    let mut events = vec![
        (Event::Start(Tag::Table(vec![Alignment::Left])), sr(0, 10)),
        (Event::Start(Tag::TableRow), sr(0, 10)),
    ];
    events.extend(cell_events("a", sr(1, 2)));
    events.extend(cell_events("b", sr(3, 4)));
    events.push((Event::End(TagEnd::TableRow), sr(0, 10)));
    events.push((Event::End(TagEnd::Table), sr(0, 10)));
    let r = render_events(&context, &events);
    assert!(matches!(r, Err(RenderFault::CellIndexOutOfBounds)));
}

#[test]
fn footnote_reference_renders_error_node() {
    let context = plain_context();
    let events = vec![
        (Event::FootnoteReference("a".to_string()), sr(0, 3)),
        (Event::Text("after".to_string()), sr(4, 9)),
    ];
    let nodes = render_events(&context, &events).expect("recoverable error only");
    assert_eq!(nodes.len(), 2);
    assert!(matches!(&nodes[0], Node::ErrorNode(m) if m == "do not support footnote refs yet"));
    assert!(matches!(&nodes[1], Node::Text(s, _) if s == "after"));
}

#[test]
fn metadata_block_is_discarded() {
    let context = plain_context();
    let events = vec![
        (Event::Start(Tag::MetadataBlock), sr(0, 10)),
        (Event::Text("key: value".to_string()), sr(0, 10)),
        (Event::End(TagEnd::MetadataBlock), sr(0, 10)),
    ];
    let nodes = render_events(&context, &events).expect("well-formed stream");
    assert_eq!(nodes.len(), 1);
    assert!(matches!(&nodes[0], Node::Empty));
}

#[test]
fn soft_break_produces_no_node() {
    let context = plain_context();
    let events = vec![
        (Event::Text("a".to_string()), sr(0, 1)),
        (Event::SoftBreak, sr(1, 2)),
        (Event::Text("b".to_string()), sr(2, 3)),
    ];
    let nodes = render_events(&context, &events).expect("well-formed stream");
    assert_eq!(nodes.len(), 2);
}

#[test]
fn hard_break_produces_a_leaf() {
    let context = plain_context();
    let events = vec![(Event::HardBreak, sr(0, 1))];
    let nodes = render_events(&context, &events).expect("well-formed stream");
    assert_eq!(nodes.len(), 1);
    assert!(matches!(&nodes[0], Node::HardBreak));
}

#[test]
fn task_list_marker_keeps_state_and_range() {
    let context = plain_context();
    let events = vec![(Event::TaskListMarker(true), sr(2, 5))];
    let nodes = render_events(&context, &events).expect("well-formed stream");
    assert!(matches!(&nodes[0], Node::TaskListMarker(true, r) if *r == sr(2, 5)));
}
