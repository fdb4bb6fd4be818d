//! The board: the card store together with the drag state machine that
//! turns pointer messages into changes of the store.

use crate::card::CardView;
use crate::model_view::ModelView;
use crate::msg::{DragState, Msg};
use crate::store::CardStore;
use vstd::prelude::*;

verus! {

/// The state of the board: the cards and what moving the pointer does.
pub struct Model {
    /// The cards on the board.
    cards: CardStore,
    /// What moving the pointer does at the moment.
    drag_state: DragState,
}

impl View for Model {
    type V = ModelView;

    closed spec fn view(&self) -> ModelView {
        ModelView { store: self.cards@, drag: self.drag_state }
    }
}

impl Model {
    /// The board's invariant holds, within what a machine can hold.
    pub open spec fn wf(&self) -> bool {
        self@.wf()
    }

    /// A board without cards.
    pub fn new() -> (model: Model)
        ensures
            model@ == ModelView::empty(),
            model.wf(),
            forall|id: nat| !#[trigger] model@.store.contains(id),
    {
        Model { cards: CardStore::new(), drag_state: DragState::Idle }
    }

    /// The board as it starts: two blank cards of the default size, at
    /// `(0, 0)` and at `(400, 0)`, the second in front.
    pub fn create() -> (model: Model)
        ensures
            model@ == ModelView::initial(),
            model.wf(),
            forall|id: nat| #[trigger] model@.store.contains(id) == (id == 0 || id == 1),
            model@.store.card(0) == CardView::fresh(0, Seq::empty(), 0, 0, 0),
            model@.store.card(1) == CardView::fresh(1, Seq::empty(), 400, 0, 1),
    {
        proof {
            ModelView::lemma_initial_by_card();
        }
        let mut cards = CardStore::new();
        cards.create(String::new(), (0, 0));
        cards.create(String::new(), (400, 0));
        Model { cards, drag_state: DragState::Idle }
    }

    /// The cards on the board.
    pub fn cards(&self) -> (store: &CardStore)
        ensures
            store@ == self@.store,
    {
        &self.cards
    }

    /// What moving the pointer does at the moment.
    pub fn drag_state(&self) -> (drag: DragState)
        ensures
            drag == self@.drag,
    {
        self.drag_state
    }

    /// Whether the board after the message can still be held by a machine,
    /// so that `update` can apply it.
    pub fn accepts(&self, msg: &Msg) -> (ok: bool)
        requires
            self.wf(),
        ensures
            ok == self@.accepts(*msg),
    {
        match msg {
            Msg::CreateCard(_, _) => self.cards.has_room(),
            Msg::Drag(delta, _) => match self.drag_state {
                DragState::MoveCard(id) => match self.cards.get(id) {
                    Some(card) => {
                        let corner = card.position();
                        let x: i64 = corner.0 as i64 + delta.0 as i64;
                        let y: i64 = corner.1 as i64 + delta.1 as i64;
                        i32::MIN as i64 <= x && x <= i32::MAX as i64 && i32::MIN as i64 <= y && y
                            <= i32::MAX as i64
                    },
                    None => true,
                },
                DragState::MoveScaleHandle(id) => match self.cards.get(id) {
                    Some(card) => {
                        let size = card.size();
                        let width: i64 = size.0 as i64 + delta.0 as i64;
                        let height: i64 = size.1 as i64 + delta.1 as i64;
                        width <= i32::MAX as i64 && height <= i32::MAX as i64
                    },
                    None => true,
                },
                _ => true,
            },
            _ => true,
        }
    }

    /// Applies the message to the board.
    ///
    /// A press on the body of a card brings it to the front and starts
    /// moving it; a press on a handle starts resizing or rotating, without
    /// raising the card. A press replaces whatever drag was going on. A
    /// pointer movement moves, resizes or rotates the dragged card, and does
    /// nothing outside a drag. A release ends the drag. A message that names
    /// a card which is not in the store changes no card.
    ///
    /// Returns whether the board is to be drawn again.
    pub fn update(&mut self, msg: Msg) -> (redraw: bool)
        requires
            old(self).wf(),
            old(self)@.accepts(msg),
        ensures
            final(self)@ == old(self)@.step(msg),
            final(self).wf(),
            redraw == old(self)@.redraws(msg),
            forall|id: nat|
                #![trigger final(self)@.store.contains(id)]
                #![trigger old(self)@.store.contains(id)]
                final(self)@.store.contains(id) == old(self)@.holds_after(msg, id),
            forall|id: nat|
                old(self)@.holds_after(msg, id) ==> #[trigger] final(self)@.store.card(id)
                    == old(self)@.card_after(msg, id),
    {
        proof {
            self@.lemma_step(msg);
        }
        match msg {
            Msg::CreateCard(image, position) => {
                self.cards.create(image, position);
                true
            },
            Msg::RemoveCard(id) => {
                let found = self.cards.remove(id as usize);
                match self.drag_state {
                    DragState::Idle => {},
                    DragState::MoveCard(held)
                    | DragState::MoveScaleHandle(held)
                    | DragState::MoveRotateHandle(held) => {
                        if held == id as usize {
                            self.drag_state = DragState::Idle;
                        }
                    },
                }
                found
            },
            Msg::ResetRotation(id) => self.cards.reset_rotation(id),
            Msg::StartDraggingScaleHandle(id) => {
                let found = self.cards.contains(id);
                self.drag_state = if found {
                    DragState::MoveScaleHandle(id)
                } else {
                    DragState::Idle
                };
                found
            },
            Msg::StartDraggingRotateHandle(id) => {
                let found = self.cards.contains(id);
                self.drag_state = if found {
                    DragState::MoveRotateHandle(id)
                } else {
                    DragState::Idle
                };
                found
            },
            Msg::StartDraggingCard(id) => {
                let found = self.cards.raise_to_front(id);
                self.drag_state = if found {
                    DragState::MoveCard(id)
                } else {
                    DragState::Idle
                };
                found
            },
            Msg::Drag(delta, position) => match self.drag_state {
                DragState::MoveCard(id) => {
                    self.cards.translate(id, delta.0, delta.1);
                    true
                },
                DragState::MoveScaleHandle(id) => {
                    self.cards.resize(id, delta.0, delta.1);
                    true
                },
                DragState::MoveRotateHandle(id) => {
                    self.cards.rotate_toward(id, position.0, position.1);
                    true
                },
                DragState::Idle => false,
            },
            Msg::StopDragging => {
                self.drag_state = DragState::Idle;
                true
            },
        }
    }

    /// Applies the message to the board if the board after it can still be
    /// held by a machine, and leaves the board as it is otherwise.
    ///
    /// Returns whether the board is to be drawn again, or `None` where the
    /// message was not applied.
    pub fn try_update(&mut self, msg: Msg) -> (redraw: Option<bool>)
        requires
            old(self).wf(),
        ensures
            final(self).wf(),
            old(self)@.accepts(msg) ==> final(self)@ == old(self)@.step(msg) && redraw == Some(
                old(self)@.redraws(msg),
            ),
            !old(self)@.accepts(msg) ==> final(self)@ == old(self)@ && redraw is None,
    {
        if self.accepts(&msg) {
            Some(self.update(msg))
        } else {
            None
        }
    }
}

} // verus!
