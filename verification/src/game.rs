//! The rule by which the player drags bears around with the mouse.

use vstd::prelude::*;

verus! {

/// A bear's dragging after one frame.
#[derive(Debug, Clone, Copy, PartialEq, Eq)]
pub struct DragOutcome {
    /// Whether the bear is being dragged after the frame.
    pub being_dragged: bool,
    /// Whether the bear moves to the mouse in this frame.
    pub follow_mouse: bool,
}

/// One frame of dragging for a bear: a dragged bear follows the mouse while
/// the left button is held and is let go when it is released; a bear that
/// is not dragged is picked up when the mouse touches it with the left
/// button held, and does not move in that frame.
pub fn drag_step(being_dragged: bool, touching_mouse: bool, button_down: bool) -> (out: DragOutcome)
    ensures
        being_dragged ==> out.follow_mouse == button_down && out.being_dragged == button_down,
        !being_dragged ==> !out.follow_mouse && out.being_dragged == (touching_mouse
            && button_down),
{
    if being_dragged {
        if button_down {
            DragOutcome { being_dragged: true, follow_mouse: true }
        } else {
            DragOutcome { being_dragged: false, follow_mouse: false }
        }
    } else {
        DragOutcome { being_dragged: touching_mouse && button_down, follow_mouse: false }
    }
}

} // verus!
