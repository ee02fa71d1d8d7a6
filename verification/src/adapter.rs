//! The stream adapter: the whole-sequence rewrite applied before the
//! renderer starts. When hard line breaks are requested, every soft break
//! becomes a hard break; nothing else changes, ranges included.

use vstd::prelude::*;
use crate::event::{Event, SourceRange};

verus! {

/// One event after adaptation: a soft break becomes a hard break with
/// the same range; every other event passes through.
pub open spec fn adapt_event(p: (Event, SourceRange)) -> (Event, SourceRange) {
    match p.0 {
        Event::SoftBreak => (Event::HardBreak, p.1),
        _ => p,
    }
}

/// The whole stream after adaptation under the hard-break flag.
pub open spec fn adapt(s: Seq<(Event, SourceRange)>, hard_breaks: bool) -> Seq<
    (Event, SourceRange),
> {
    if hard_breaks {
        s.map_values(|p: (Event, SourceRange)| adapt_event(p))
    } else {
        s
    }
}

/// Rewrites the stream under the flag: an equal-length sequence where
/// every soft break is a hard break iff the flag is set, all other
/// events and every range untouched.
pub fn adapt_stream(events: Vec<(Event, SourceRange)>, hard_breaks: bool) -> (r: Vec<
    (Event, SourceRange),
>)
    ensures
        r@ == adapt(events@, hard_breaks),
        r@.len() == events@.len(),
{
    let ghost orig = events@;
    let mut events = events;
    if !hard_breaks {
        return events;
    }
    let n = events.len();
    let mut i: usize = 0;
    while i < n
        invariant
            n == events@.len() == orig.len(),
            i <= n,
            forall|j: int| 0 <= j < i ==> events@[j] == adapt_event(#[trigger] orig[j]),
            forall|j: int| i <= j < n ==> events@[j] == #[trigger] orig[j],
        decreases n - i,
    {
        let is_soft = match &events[i].0 {
            Event::SoftBreak => true,
            _ => false,
        };
        if is_soft {
            let range = events[i].1;
            events.set(i, (Event::HardBreak, range));
        }
        i += 1;
    }
    proof {
        assert(events@ =~= orig.map_values(|p: (Event, SourceRange)| adapt_event(p)));
    }
    events
}

/// Running the adapter twice with the same flag yields what one run
/// yields: the soft-to-hard rewrite is not rewritten further.
pub proof fn lemma_adapter_idempotent(s: Seq<(Event, SourceRange)>, hard_breaks: bool)
    ensures
        adapt(adapt(s, hard_breaks), hard_breaks) == adapt(s, hard_breaks),
{
    if hard_breaks {
        let once = adapt(s, hard_breaks);
        assert forall|i: int| 0 <= i < once.len() implies adapt_event(#[trigger] once[i])
            == once[i] by {
            assert(once[i] == adapt_event(s[i]));
        }
        assert(adapt(once, hard_breaks) =~= once);
    }
}

} // verus!
