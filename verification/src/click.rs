//! Click notifications: the pair of the host's pointer event and the
//! source range of the node it hit, handed to the click hook.

use vstd::prelude::*;
use crate::event::SourceRange;

verus! {

#[verifier::external_type_specification]
#[verifier::external_body]
pub struct ExMouseEvent(web_sys::MouseEvent);

/// What the click hook receives when a rendered element is clicked.
pub struct MarkdownMouseEvent {
    /// the original mouse event triggered when a text element was clicked on
    pub mouse_event: web_sys::MouseEvent,
    /// the corresponding byte range in the markdown source
    pub position: SourceRange,
}

/// Pairs a pointer event with the fixed source range captured by the
/// node it was bound to.
pub fn make_click_event(mouse_event: web_sys::MouseEvent, position: SourceRange) -> (e:
    MarkdownMouseEvent)
    ensures
        e.position == position,
        e.mouse_event == mouse_event,
{
    MarkdownMouseEvent { mouse_event, position }
}

} // verus!
