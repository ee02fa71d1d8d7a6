use markdown_tree::adapter::adapt_stream;
use markdown_tree::event::{Event, SourceRange};

fn sr(start: usize, end: usize) -> SourceRange {
    SourceRange { start, end }
}

#[test]
fn adapter_rewrites_soft_breaks() {
    let events = vec![
        (Event::Text("a".to_string()), sr(0, 1)),
        (Event::SoftBreak, sr(1, 2)),
        (Event::Text("b".to_string()), sr(2, 3)),
    ];
    let out = adapt_stream(events, true);
    assert_eq!(out.len(), 3);
    assert!(matches!(out[0].0, Event::Text(ref s) if s == "a"));
    assert!(matches!(out[1].0, Event::HardBreak));
    assert_eq!(out[1].1, sr(1, 2));
    assert!(matches!(out[2].0, Event::Text(ref s) if s == "b"));
}

#[test]
fn adapter_keeps_stream_without_flag() {
    let events = vec![
        (Event::Text("a".to_string()), sr(0, 1)),
        (Event::SoftBreak, sr(1, 2)),
    ];
    let out = adapt_stream(events, false);
    assert_eq!(out.len(), 2);
    assert!(matches!(out[1].0, Event::SoftBreak));
}

#[test]
fn adapter_idempotent_on_concrete_stream() {
    let events = vec![
        (Event::SoftBreak, sr(0, 1)),
        (Event::HardBreak, sr(1, 2)),
        (Event::Rule, sr(2, 3)),
    ];
    let once = adapt_stream(events.clone(), true);
    let twice = adapt_stream(once.clone(), true);
    assert_eq!(once.len(), twice.len());
    for (a, b) in once.iter().zip(twice.iter()) {
        assert!(matches!(
            (&a.0, &b.0),
            (Event::HardBreak, Event::HardBreak) | (Event::Rule, Event::Rule)
        ));
        assert_eq!(a.1, b.1);
    }
}
