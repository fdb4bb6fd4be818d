//! The messages that drive the board, and the states of a drag.

use vstd::prelude::*;

verus! {

/// What moving the pointer does at the moment.
#[derive(Clone, Copy, Debug, PartialEq, Eq, Structural)]
pub enum DragState {
    /// Pointer movement is ignored.
    Idle,
    /// The card with this identifier moves with the pointer.
    MoveCard(usize),
    /// The card with this identifier is resized from its bottom-right corner.
    MoveScaleHandle(usize),
    /// The card with this identifier is rotated about its center.
    MoveRotateHandle(usize),
}

impl DragState {
    /// The card that is being dragged, if any.
    pub open spec fn card(self) -> Option<usize> {
        match self {
            DragState::Idle => None,
            DragState::MoveCard(id) => Some(id),
            DragState::MoveScaleHandle(id) => Some(id),
            DragState::MoveRotateHandle(id) => Some(id),
        }
    }
}

/// A message to the board: a request for one change of its state.
///
/// Cards are named by the identifiers that the store gave them.
#[derive(Debug)]
pub enum Msg {
    /// Create a card showing this image, with its top-left corner at this position.
    CreateCard(String, (i32, i32)),
    /// Delete the card.
    RemoveCard(u32),
    /// Take every rotation off the card.
    ResetRotation(usize),
    /// The pointer was pressed on the card's scale handle.
    StartDraggingScaleHandle(usize),
    /// The pointer was pressed on the card's rotation handle.
    StartDraggingRotateHandle(usize),
    /// The pointer was pressed on the card's body.
    StartDraggingCard(usize),
    /// The pointer moved by the delta `(dx, dy)` and is now at the absolute position `(x, y)`.
    Drag((i32, i32), (i32, i32)),
    /// The pointer was released.
    StopDragging,
}

} // verus!
