//! Click ranges of the input stream, and the class of events whose ranges
//! the renderer preserves one for one.

use vstd::prelude::*;
use crate::event::{Event, MathMode, SourceRange, Tag, TagEnd};
use crate::render::typeset_of;

verus! {

/// Leaf events that become a node carrying a click range. A math event
/// does so only when it typesets; pair this with
/// `range_preserving_event`, which admits exactly those.
pub open spec fn is_click_leaf(e: Event) -> bool {
    match e {
        Event::Text(_) => true,
        Event::Code(_) => true,
        Event::Html(_) => true,
        Event::Rule => true,
        Event::TaskListMarker(_) => true,
        Event::Math(_, _) => true,
        _ => false,
    }
}

/// The ranges of the click-leaf events of `s`, in stream order.
pub open spec fn click_ranges(s: Seq<(Event, SourceRange)>) -> Seq<SourceRange>
    decreases s.len(),
{
    if s.len() == 0 {
        Seq::empty()
    } else {
        (if is_click_leaf(s[0].0) {
            seq![s[0].1]
        } else {
            Seq::empty()
        }) + click_ranges(s.drop_first())
    }
}

/// Click ranges distribute over concatenation.
pub proof fn lemma_click_ranges_concat(a: Seq<(Event, SourceRange)>, b: Seq<(Event, SourceRange)>)
    ensures
        click_ranges(a + b) == click_ranges(a) + click_ranges(b),
    decreases a.len(),
{
    if a.len() == 0 {
        assert(a + b =~= b);
        assert(click_ranges(a) + click_ranges(b) =~= click_ranges(b));
    } else {
        assert((a + b).drop_first() =~= a.drop_first() + b);
        lemma_click_ranges_concat(a.drop_first(), b);
        assert((a + b)[0] == a[0]);
        let h = if is_click_leaf(a[0].0) {
            seq![a[0].1]
        } else {
            Seq::<SourceRange>::empty()
        };
        assert(click_ranges(a + b) == h + (click_ranges(a.drop_first()) + click_ranges(b)));
        assert(h + (click_ranges(a.drop_first()) + click_ranges(b)) =~= (h + click_ranges(
            a.drop_first(),
        )) + click_ranges(b));
    }
}

/// Click ranges of a subrange split at any interior point.
pub proof fn lemma_click_ranges_split(s: Seq<(Event, SourceRange)>, a: int, b: int, c: int)
    requires
        0 <= a <= b <= c <= s.len(),
    ensures
        click_ranges(s.subrange(a, c)) == click_ranges(s.subrange(a, b)) + click_ranges(
            s.subrange(b, c),
        ),
{
    assert(s.subrange(a, c) =~= s.subrange(a, b) + s.subrange(b, c));
    lemma_click_ranges_concat(s.subrange(a, b), s.subrange(b, c));
}

/// Click ranges of a one-event slice.
pub proof fn lemma_click_ranges_single(s: Seq<(Event, SourceRange)>, i: int)
    requires
        0 <= i < s.len(),
    ensures
        is_click_leaf(s[i].0) ==> click_ranges(s.subrange(i, i + 1)) =~= seq![s[i].1],
        !is_click_leaf(s[i].0) ==> click_ranges(s.subrange(i, i + 1)) =~= Seq::<
            SourceRange,
        >::empty(),
{
    let one = s.subrange(i, i + 1);
    assert(one.len() == 1);
    assert(one[0] == s[i]);
    assert(one.drop_first() =~= Seq::<(Event, SourceRange)>::empty());
    assert(click_ranges(Seq::<(Event, SourceRange)>::empty()) == Seq::<SourceRange>::empty());
    if is_click_leaf(s[i].0) {
        assert(click_ranges(one) =~= seq![s[i].1] + Seq::<SourceRange>::empty());
    } else {
        assert(click_ranges(one) =~= Seq::<SourceRange>::empty() + Seq::<SourceRange>::empty());
    }
}

/// Container tags whose rendering keeps every click range of their
/// children: all the structural wrappers and the default link path.
/// Images discard their children, code blocks re-key their content to the
/// opening tag's range, metadata is dropped, and footnote definitions are
/// not supported, so those are excluded.
pub open spec fn range_preserving_tag(t: Tag) -> bool {
    match t {
        Tag::Paragraph => true,
        Tag::Heading(_) => true,
        Tag::BlockQuote => true,
        Tag::List(_) => true,
        Tag::Item => true,
        Tag::Table(_) => true,
        Tag::TableHead => true,
        Tag::TableRow => true,
        Tag::TableCell => true,
        Tag::Emphasis => true,
        Tag::Strong => true,
        Tag::Strikethrough => true,
        Tag::Link { .. } => true,
        _ => false,
    }
}

/// The closing markers of the range-preserving tags.
pub open spec fn range_preserving_end(e: TagEnd) -> bool {
    match e {
        TagEnd::Paragraph => true,
        TagEnd::Heading(_) => true,
        TagEnd::BlockQuote => true,
        TagEnd::List(_) => true,
        TagEnd::Item => true,
        TagEnd::Table => true,
        TagEnd::TableHead => true,
        TagEnd::TableRow => true,
        TagEnd::TableCell => true,
        TagEnd::Emphasis => true,
        TagEnd::Strong => true,
        TagEnd::Strikethrough => true,
        TagEnd::Link => true,
        _ => false,
    }
}

/// Events whose click range survives rendering exactly once, or that
/// yield a node carrying none at all (hard breaks, footnote references).
/// Soft breaks are skipped by design; a math event is in the class
/// exactly when it typesets, since failed math degrades to an error node
/// without a range.
pub open spec fn range_preserving_event(e: Event) -> bool {
    match e {
        Event::Start(t) => range_preserving_tag(t),
        Event::End(te) => range_preserving_end(te),
        Event::Text(_) => true,
        Event::Code(_) => true,
        Event::Html(_) => true,
        Event::SoftBreak => true,
        Event::HardBreak => true,
        Event::FootnoteReference(_) => true,
        Event::Rule => true,
        Event::TaskListMarker(_) => true,
        Event::Math(mode, content) => typeset_of(content@, mode is Display) is Some,
    }
}

/// Every event of `s[lo..hi]` is range-preserving.
pub open spec fn range_preserving_between(s: Seq<(Event, SourceRange)>, lo: int, hi: int) -> bool {
    forall|i: int| lo <= i < hi ==> range_preserving_event(#[trigger] s[i].0)
}

/// The nesting change one event makes: an opening tag goes one deeper,
/// a closing marker one up, a leaf stays.
pub open spec fn event_delta(e: Event) -> int {
    match e {
        Event::Start(_) => 1,
        Event::End(_) => -1,
        _ => 0,
    }
}

/// The events that become exactly one sibling node when a frame meets
/// them at its own depth: every opening tag and every leaf but a soft
/// break (a closing marker terminates, a soft break is skipped).
pub open spec fn is_sibling_event(e: Event) -> bool {
    match e {
        Event::Start(_) => true,
        Event::End(_) => false,
        Event::SoftBreak => false,
        _ => true,
    }
}

/// The leaf events: neither a tag marker nor a soft break. A builder
/// step on one of these always succeeds and yields exactly one node.
pub open spec fn is_plain_leaf(e: Event) -> bool {
    match e {
        Event::Start(_) => false,
        Event::End(_) => false,
        Event::SoftBreak => false,
        _ => true,
    }
}

/// An event of a flat stream: a leaf or a soft break, nothing that opens
/// or closes a container.
pub open spec fn flat_event(e: Event) -> bool {
    is_plain_leaf(e) || e is SoftBreak
}

/// Every event of `s[lo..hi]` is flat.
pub open spec fn flat_between(s: Seq<(Event, SourceRange)>, lo: int, hi: int) -> bool {
    forall|i: int| lo <= i < hi ==> flat_event(#[trigger] s[i].0)
}

/// An opening tag of a footnote definition: the one tag that yields its
/// node without consuming its subtree, so sibling accounting excludes it.
pub open spec fn is_footnote_def_start(e: Event) -> bool {
    match e {
        Event::Start(Tag::FootnoteDefinition(_)) => true,
        _ => false,
    }
}

/// No footnote definition opens anywhere in `s[lo..hi]`.
pub open spec fn no_footnote_defs(s: Seq<(Event, SourceRange)>, lo: int, hi: int) -> bool {
    forall|i: int| lo <= i < hi ==> !is_footnote_def_start(#[trigger] s[i].0)
}

/// The total nesting change over `s`.
pub open spec fn delta_sum(s: Seq<(Event, SourceRange)>) -> int
    decreases s.len(),
{
    if s.len() == 0 {
        0
    } else {
        event_delta(s[0].0) + delta_sum(s.drop_first())
    }
}

/// How many events of `s` are met at nesting depth zero and open one
/// sibling node, when the scan starts at depth `d`.
pub open spec fn sibling_count_from(s: Seq<(Event, SourceRange)>, d: int) -> int
    decreases s.len(),
{
    if s.len() == 0 {
        0
    } else {
        (if d == 0 && is_sibling_event(s[0].0) {
            1int
        } else {
            0int
        }) + sibling_count_from(s.drop_first(), d + event_delta(s[0].0))
    }
}

/// Nesting change and sibling count distribute over concatenation; the
/// right part is scanned from the depth the left part ends at.
pub proof fn lemma_stream_stats_concat(a: Seq<(Event, SourceRange)>, b: Seq<(Event, SourceRange)>, d: int)
    ensures
        delta_sum(a + b) == delta_sum(a) + delta_sum(b),
        sibling_count_from(a + b, d) == sibling_count_from(a, d) + sibling_count_from(
            b,
            d + delta_sum(a),
        ),
    decreases a.len(),
{
    if a.len() == 0 {
        assert(a + b =~= b);
        assert(delta_sum(a) == 0);
        assert(sibling_count_from(a, d) == 0);
    } else {
        assert((a + b).drop_first() =~= a.drop_first() + b);
        assert((a + b)[0] == a[0]);
        lemma_stream_stats_concat(a.drop_first(), b, d + event_delta(a[0].0));
    }
}

/// The concatenation law on a subrange split at any interior point.
pub proof fn lemma_stream_stats_split(s: Seq<(Event, SourceRange)>, a: int, b: int, c: int, d: int)
    requires
        0 <= a <= b <= c <= s.len(),
    ensures
        delta_sum(s.subrange(a, c)) == delta_sum(s.subrange(a, b)) + delta_sum(s.subrange(b, c)),
        sibling_count_from(s.subrange(a, c), d) == sibling_count_from(s.subrange(a, b), d)
            + sibling_count_from(s.subrange(b, c), d + delta_sum(s.subrange(a, b))),
{
    assert(s.subrange(a, c) =~= s.subrange(a, b) + s.subrange(b, c));
    lemma_stream_stats_concat(s.subrange(a, b), s.subrange(b, c), d);
}

/// Nesting change and sibling count of a one-event slice.
pub proof fn lemma_stream_stats_single(s: Seq<(Event, SourceRange)>, i: int, d: int)
    requires
        0 <= i < s.len(),
    ensures
        delta_sum(s.subrange(i, i + 1)) == event_delta(s[i].0),
        sibling_count_from(s.subrange(i, i + 1), d) == (if d == 0 && is_sibling_event(s[i].0) {
            1int
        } else {
            0int
        }),
{
    let one = s.subrange(i, i + 1);
    assert(one.len() == 1);
    assert(one[0] == s[i]);
    assert(one.drop_first() =~= Seq::<(Event, SourceRange)>::empty());
    assert(delta_sum(Seq::<(Event, SourceRange)>::empty()) == 0);
    assert(sibling_count_from(Seq::<(Event, SourceRange)>::empty(), d + event_delta(s[i].0)) == 0);
}

} // verus!
