use markdown_tree::context::RenderContext;
use markdown_tree::event::{
    Alignment, CodeBlockKind, Event, MathMode, SourceRange, Tag, TagEnd,
};
use markdown_tree::node::Node;
use markdown_tree::render::{align_string, render_events, render_maths};

fn sr(start: usize, end: usize) -> SourceRange {
    SourceRange { start, end }
}

fn context_with(custom_links: bool) -> RenderContext {
    match RenderContext::new(None, custom_links) {
        Ok(c) => c,
        Err(e) => panic!("context construction failed: {}", e.to_string()),
    }
}

#[test]
fn math_inline_succeeds() {
    let r = render_maths("x^2", &MathMode::Inline, sr(0, 3));
    match r {
        Ok(Node::Math { display, markup, range }) => {
            assert!(!display);
            assert_eq!(range, sr(0, 3));
            // the typesetter produced markup, not the input handed back
            assert!(markup != "x^2");
            assert!(!markup.is_empty());
        }
        _ => panic!("expected successful inline math"),
    }
}

#[test]
fn math_display_mode_flag_is_set() {
    let r = render_maths("x^2", &MathMode::Display, sr(0, 3));
    match r {
        Ok(Node::Math { display, .. }) => assert!(display),
        _ => panic!("expected successful display math"),
    }
}

#[test]
fn malformed_math_recovers_and_siblings_render() {
    let context = context_with(false);
    let events = vec![
        (Event::Math(MathMode::Display, "\\frac{".to_string()), sr(0, 6)),
        (Event::Text("after".to_string()), sr(7, 12)),
    ];
    let nodes = render_events(&context, &events).expect("recoverable error only");
    assert_eq!(nodes.len(), 2);
    assert!(matches!(&nodes[0], Node::ErrorNode(m) if m == "invalid math"));
    assert!(matches!(&nodes[1], Node::Text(s, _) if s == "after"));
}

#[test]
fn unknown_language_falls_back_to_plain_text() {
    let context = context_with(false);
    let events = vec![
        (
            Event::Start(Tag::CodeBlock(CodeBlockKind::Fenced(
                "nonexistent-lang".to_string(),
            ))),
            sr(0, 30),
        ),
        (Event::Text("a=1".to_string()), sr(10, 13)),
        (Event::End(TagEnd::CodeBlock), sr(0, 30)),
    ];
    let nodes = render_events(&context, &events).expect("well-formed stream");
    assert_eq!(nodes.len(), 1);
    assert!(matches!(&nodes[0], Node::PlainCodeBlock(s, r) if s == "a=1" && *r == sr(0, 30)));
}

#[test]
fn known_language_highlights() {
    let context = context_with(false);
    let events = vec![
        (
            Event::Start(Tag::CodeBlock(CodeBlockKind::Fenced("rs".to_string()))),
            sr(0, 30),
        ),
        (Event::Text("let x = 1;".to_string()), sr(10, 20)),
        (Event::End(TagEnd::CodeBlock), sr(0, 30)),
    ];
    let nodes = render_events(&context, &events).expect("well-formed stream");
    assert_eq!(nodes.len(), 1);
    match &nodes[0] {
        Node::HighlightedCodeBlock(markup, r) => {
            assert_eq!(*r, sr(0, 30));
            // the highlighter produced markup, not the input handed back
            assert!(markup != "let x = 1;");
            assert!(markup.contains("pre"));
        }
        other => panic!("expected highlighted markup, got {:?}", std::mem::discriminant(other)),
    }
}

#[test]
fn indented_code_never_highlights() {
    let context = context_with(false);
    let events = vec![
        (Event::Start(Tag::CodeBlock(CodeBlockKind::Indented)), sr(0, 10)),
        (Event::Text("let x = 1;".to_string()), sr(0, 10)),
        (Event::End(TagEnd::CodeBlock), sr(0, 10)),
    ];
    let nodes = render_events(&context, &events).expect("well-formed stream");
    assert!(matches!(&nodes[0], Node::PlainCodeBlock(s, _) if s == "let x = 1;"));
}

#[test]
fn empty_code_block_gives_empty_leaf() {
    let context = context_with(false);
    let events = vec![
        (
            Event::Start(Tag::CodeBlock(CodeBlockKind::Fenced("rust".to_string()))),
            sr(0, 8),
        ),
        (Event::End(TagEnd::CodeBlock), sr(0, 8)),
    ];
    let nodes = render_events(&context, &events).expect("well-formed stream");
    assert!(matches!(&nodes[0], Node::EmptyCodeBlock));
}

#[test]
fn unknown_theme_is_a_fatal_configuration_error() {
    let r = RenderContext::new(Some("no-such-theme".to_string()), false);
    match r {
        Err(e) => assert_eq!(e.to_string(), "unknown theme"),
        Ok(_) => panic!("expected the unknown theme to be rejected"),
    }
}

#[test]
fn named_default_theme_is_found() {
    assert!(RenderContext::new(Some("base16-ocean.dark".to_string()), false).is_ok());
}

#[test]
fn link_default_path_wraps_children() {
    let context = context_with(false);
    let events = vec![
        (
            Event::Start(Tag::Link {
                link_type: markdown_tree::event::LinkType::Inline,
                dest_url: "https://x".to_string(),
                title: "t".to_string(),
            }),
            sr(0, 20),
        ),
        (Event::Text("hi".to_string()), sr(1, 3)),
        (Event::End(TagEnd::Link), sr(0, 20)),
    ];
    let nodes = render_events(&context, &events).expect("well-formed stream");
    assert_eq!(nodes.len(), 1);
    match &nodes[0] {
        Node::Anchor { url, children } => {
            assert_eq!(url, "https://x");
            assert_eq!(children.len(), 1);
            assert!(matches!(&children[0], Node::Text(s, _) if s == "hi"));
        }
        _ => panic!("expected the default anchor"),
    }
}

#[test]
fn image_default_path_keeps_title_and_drops_children() {
    let context = context_with(false);
    let events = vec![
        (
            Event::Start(Tag::Image {
                link_type: markdown_tree::event::LinkType::Inline,
                dest_url: "https://img".to_string(),
                title: "alt".to_string(),
            }),
            sr(0, 20),
        ),
        (Event::Text("ignored".to_string()), sr(1, 8)),
        (Event::End(TagEnd::Image), sr(0, 20)),
    ];
    let nodes = render_events(&context, &events).expect("well-formed stream");
    match &nodes[0] {
        Node::ImageLeaf { url, title } => {
            assert_eq!(url, "https://img");
            assert_eq!(title, "alt");
        }
        _ => panic!("expected the default image leaf"),
    }
}

#[test]
fn link_hook_receives_whole_description() {
    let context = context_with(true);
    let events = vec![
        (
            Event::Start(Tag::Link {
                link_type: markdown_tree::event::LinkType::Inline,
                dest_url: "https://x".to_string(),
                title: "t".to_string(),
            }),
            sr(0, 20),
        ),
        (Event::Text("hi".to_string()), sr(1, 3)),
        (Event::End(TagEnd::Link), sr(0, 20)),
    ];
    let nodes = render_events(&context, &events).expect("well-formed stream");
    match &nodes[0] {
        Node::CustomLink(d) => {
            assert_eq!(d.url, "https://x");
            assert_eq!(d.title, "t");
            assert!(!d.image);
            assert_eq!(d.content.len(), 1);
        }
        _ => panic!("expected the description for the hook"),
    }
}

#[test]
fn align_string_exact_values() {
    assert_eq!(align_string(&Alignment::Left), "text-align: left");
    assert_eq!(align_string(&Alignment::Right), "text-align: right");
    assert_eq!(align_string(&Alignment::Center), "text-align: center");
    assert_eq!(align_string(&Alignment::Unspecified), "");
}
