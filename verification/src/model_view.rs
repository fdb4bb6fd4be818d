//! The mathematical model of the board, its transitions, and what is proved of them.

use crate::card::{Angle, CardView};
use crate::msg::{DragState, Msg};
use crate::store_view::CardsView;
use crate::zorder::lemma_dense_is_permutation;
use vstd::prelude::*;

verus! {

/// The mathematical model of the board: the store and the drag state.
pub ghost struct ModelView {
    pub store: CardsView,
    pub drag: DragState,
}

impl ModelView {
    /// The board without cards, outside any drag.
    pub open spec fn empty() -> ModelView {
        ModelView { store: CardsView::empty(), drag: DragState::Idle }
    }

    /// The board as it starts: two blank cards side by side, the second in
    /// front, outside any drag.
    pub open spec fn initial() -> ModelView {
        ModelView {
            store: CardsView::empty().create(Seq::empty(), 0, 0).create(Seq::empty(), 400, 0),
            drag: DragState::Idle,
        }
    }

    /// The invariant of the board: that of the store, and the card being
    /// dragged, if any, is in the store.
    pub open spec fn inv(self) -> bool {
        &&& self.store.inv()
        &&& self.drag.card() matches Some(id) ==> self.store.contains(id as nat)
    }

    /// The invariant holds, and the store is one that a machine can hold.
    pub open spec fn wf(self) -> bool {
        &&& self.inv()
        &&& self.store.wf()
    }

    /// The drag state after a press on a part of the card `id`: the given
    /// one where the card exists, and none where it does not.
    pub open spec fn pressed(self, id: usize, drag: DragState) -> DragState {
        if self.store.contains(id as nat) {
            drag
        } else {
            DragState::Idle
        }
    }

    /// The board after the message.
    ///
    /// A message that names a card which is not in the store changes no
    /// card; a press on such a card ends the drag that was going on.
    pub open spec fn step(self, msg: Msg) -> ModelView {
        match msg {
            Msg::CreateCard(image, position) => ModelView {
                store: self.store.create(image@, position.0 as int, position.1 as int),
                ..self
            },
            Msg::RemoveCard(id) => ModelView {
                store: self.store.remove(id as nat),
                drag: if self.drag.card() == Some(id as usize) {
                    DragState::Idle
                } else {
                    self.drag
                },
            },
            Msg::ResetRotation(id) => ModelView {
                store: self.store.reset_rotation(id as nat),
                ..self
            },
            Msg::StartDraggingScaleHandle(id) => ModelView {
                drag: self.pressed(id, DragState::MoveScaleHandle(id)),
                ..self
            },
            Msg::StartDraggingRotateHandle(id) => ModelView {
                drag: self.pressed(id, DragState::MoveRotateHandle(id)),
                ..self
            },
            Msg::StartDraggingCard(id) => ModelView {
                store: self.store.raise_to_front(id as nat),
                drag: self.pressed(id, DragState::MoveCard(id)),
            },
            Msg::Drag(delta, position) => match self.drag {
                DragState::Idle => self,
                DragState::MoveCard(id) => ModelView {
                    store: self.store.translate(id as nat, delta.0 as int, delta.1 as int),
                    ..self
                },
                DragState::MoveScaleHandle(id) => ModelView {
                    store: self.store.resize(id as nat, delta.0 as int, delta.1 as int),
                    ..self
                },
                DragState::MoveRotateHandle(id) => ModelView {
                    store: self.store.rotate_toward(
                        id as nat,
                        position.0 as int,
                        position.1 as int,
                    ),
                    ..self
                },
            },
            Msg::StopDragging => ModelView { drag: DragState::Idle, ..self },
        }
    }

    /// Whether the message was applied, so that the board is to be drawn
    /// again: not for a pointer movement outside a drag, and not for a
    /// message that names a card which is not in the store.
    pub open spec fn redraws(self, msg: Msg) -> bool {
        match msg {
            Msg::CreateCard(_, _) => true,
            Msg::RemoveCard(id) => self.store.contains(id as nat),
            Msg::ResetRotation(id) => self.store.contains(id as nat),
            Msg::StartDraggingScaleHandle(id) => self.store.contains(id as nat),
            Msg::StartDraggingRotateHandle(id) => self.store.contains(id as nat),
            Msg::StartDraggingCard(id) => self.store.contains(id as nat),
            Msg::Drag(_, _) => self.drag != DragState::Idle,
            Msg::StopDragging => true,
        }
    }

    /// The board after the message can still be held by a machine: there is
    /// room for a card to create, and a dragged card's corner and sides stay
    /// within `i32`.
    pub open spec fn accepts(self, msg: Msg) -> bool {
        match msg {
            Msg::CreateCard(_, _) => self.store.has_room(),
            Msg::Drag(delta, _) => match self.drag {
                DragState::MoveCard(id) => self.store.card(id as nat).can_move(
                    delta.0 as int,
                    delta.1 as int,
                ),
                DragState::MoveScaleHandle(id) => self.store.card(id as nat).can_resize(
                    delta.0 as int,
                    delta.1 as int,
                ),
                _ => true,
            },
            _ => true,
        }
    }

    /// Whether a card with this identifier is on the board after the message.
    pub open spec fn holds_after(self, msg: Msg, id: nat) -> bool {
        match msg {
            Msg::CreateCard(_, _) => self.store.contains(id) || id == self.store.next_id,
            Msg::RemoveCard(gone) => self.store.contains(id) && id != gone,
            _ => self.store.contains(id),
        }
    }

    /// What the message makes of the card with this identifier, for a card
    /// that is on the board after it: the card that a pointer movement
    /// drags is moved, resized or rotated, the card that is named is reset,
    /// raising a card or removing one shifts places in the stack, and
    /// nothing else changes.
    pub open spec fn card_after(self, msg: Msg, id: nat) -> CardView {
        let card = self.store.card(id);
        match msg {
            Msg::CreateCard(image, position) => if id == self.store.next_id {
                CardView::fresh(
                    id,
                    image@,
                    position.0 as int,
                    position.1 as int,
                    self.store.cards.len() as int,
                )
            } else {
                card
            },
            Msg::RemoveCard(gone) => if self.store.contains(gone as nat) {
                card.with_z(CardsView::closed_up(card.z, self.store.card(gone as nat).z))
            } else {
                card
            },
            Msg::ResetRotation(reset) => if id == reset {
                card.unrotated()
            } else {
                card
            },
            Msg::StartDraggingCard(raised) => if self.store.contains(raised as nat) {
                card.with_z(
                    CardsView::raised(
                        card,
                        raised as nat,
                        self.store.card(raised as nat).z,
                        self.store.cards.len() - 1,
                    ),
                )
            } else {
                card
            },
            Msg::Drag(delta, position) => if self.drag.card() matches Some(held) && held == id {
                match self.drag {
                    DragState::Idle => card,
                    DragState::MoveCard(_) => card.moved(delta.0 as int, delta.1 as int),
                    DragState::MoveScaleHandle(_) => card.resized(delta.0 as int, delta.1 as int),
                    DragState::MoveRotateHandle(_) => card.rotated_toward(
                        position.0 as int,
                        position.1 as int,
                    ),
                }
            } else {
                card
            },
            _ => card,
        }
    }

    /// The board after the messages, applied in order.
    pub open spec fn run(self, msgs: Seq<Msg>) -> ModelView
        decreases msgs.len(),
    {
        if msgs.len() == 0 {
            self
        } else {
            self.run(msgs.drop_last()).step(msgs.last())
        }
    }

    /// The board as it starts, read card by card: the cards `0` and `1`,
    /// blank, of the default size, at `(0, 0)` and at `(400, 0)`.
    pub proof fn lemma_initial_by_card()
        ensures
            Self::initial().inv(),
            forall|id: nat| #[trigger] Self::initial().store.contains(id) == (id == 0 || id == 1),
            Self::initial().store.card(0) == CardView::fresh(0, Seq::empty(), 0, 0, 0),
            Self::initial().store.card(1) == CardView::fresh(1, Seq::empty(), 400, 0, 1),
    {
        let none = CardsView::empty();
        let one = none.create(Seq::empty(), 0, 0);
        assert(none.zs() =~= Seq::empty());
        none.lemma_create(Seq::empty(), 0, 0);
        one.lemma_create(Seq::empty(), 400, 0);
        assert forall|id: nat| !none.contains(id) by {}
    }

    /// Every message keeps the invariant of the board. Read card by card,
    /// the board after the message holds the cards that `holds_after`
    /// tells, and each of them is what `card_after` tells.
    pub proof fn lemma_step(self, msg: Msg)
        requires
            self.inv(),
        ensures
            self.step(msg).inv(),
            forall|id: nat|
                #![trigger self.step(msg).store.contains(id)]
                #![trigger self.store.contains(id)]
                self.step(msg).store.contains(id) == self.holds_after(msg, id),
            forall|id: nat|
                self.holds_after(msg, id) ==> #[trigger] self.step(msg).store.card(id)
                    == self.card_after(msg, id),
    {
        match msg {
            Msg::CreateCard(image, position) => {
                self.store.lemma_create(image@, position.0 as int, position.1 as int);
                assert forall|id: nat| self.holds_after(msg, id) implies #[trigger] self.step(
                    msg,
                ).store.card(id) == self.card_after(msg, id) by {
                    if id != self.store.next_id {
                        assert(self.store.contains(id));
                    }
                }
            },
            Msg::RemoveCard(id) => {
                self.store.lemma_remove(id as nat);
            },
            Msg::ResetRotation(id) => {
                self.store.lemma_transforms(id as nat, 0, 0);
            },
            Msg::StartDraggingScaleHandle(id) => {},
            Msg::StartDraggingRotateHandle(id) => {},
            Msg::StartDraggingCard(id) => {
                self.store.lemma_raise(id as nat);
            },
            Msg::Drag(delta, position) => {
                if let Some(id) = self.drag.card() {
                    self.store.lemma_transforms(id as nat, delta.0 as int, delta.1 as int);
                    self.store.lemma_transforms(id as nat, position.0 as int, position.1 as int);
                }
            },
            Msg::StopDragging => {},
        }
    }

    /// The stack stays dense whatever happens: after any messages, applied
    /// to a board that met its invariant, the invariant holds, and the
    /// places in the stack of the `n` cards are `0, ..., n - 1`, each taken
    /// once and nothing else.
    pub proof fn lemma_stack_stays_dense(self, msgs: Seq<Msg>)
        requires
            self.inv(),
        ensures
            self.run(msgs).inv(),
            forall|k: int|
                #[trigger] self.run(msgs).store.zs().to_multiset().count(k) == if 0 <= k
                    < self.run(msgs).store.cards.len() {
                    1nat
                } else {
                    0nat
                },
        decreases msgs.len(),
    {
        if msgs.len() > 0 {
            self.lemma_stack_stays_dense(msgs.drop_last());
            self.run(msgs.drop_last()).lemma_step(msgs.last());
        }
        lemma_dense_is_permutation(self.run(msgs).store.zs());
    }

    /// A rotation is derived anew from each pointer position and never
    /// added up. While the rotation handle of a card is dragged, a pointer
    /// movement gives the card the angle that its position, its size and the
    /// pointer position tell, whatever its rotation was; and any number of
    /// further movements to the same position, by no distance, change
    /// nothing.
    pub proof fn lemma_rotation_is_rederived(self, id: usize, position: (i32, i32), times: nat)
        requires
            self.inv(),
            self.drag == DragState::MoveRotateHandle(id),
            times >= 1,
        ensures
            self.step(Msg::Drag((0, 0), position)).store.card(id as nat).rotation
                == self.store.card(id as nat).angle_toward(position.0 as int, position.1 as int),
            self.run(Seq::new(times, |i: int| Msg::Drag((0, 0), position))) == self.step(
                Msg::Drag((0, 0), position),
            ),
        decreases times,
    {
        let msg = Msg::Drag((0, 0), position);
        let msgs = Seq::new(times, |i: int| Msg::Drag((0, 0), position));
        let once = self.step(msg);
        self.lemma_step(msg);
        assert(msgs.last() == msg);
        if times == 1 {
            assert(msgs.drop_last() =~= Seq::<Msg>::empty());
            assert(self.run(msgs.drop_last()) == self);
        } else {
            let fewer = Seq::new((times - 1) as nat, |i: int| Msg::Drag((0, 0), position));
            assert(msgs.drop_last() =~= fewer);
            self.lemma_rotation_is_rederived(id, position, (times - 1) as nat);
            assert(once.step(msg).store.cards =~= once.store.cards);
        }
    }

    /// Resetting the rotation of a card leaves it without rotation, whatever
    /// its rotation was and whatever is being dragged; the drag goes on.
    pub proof fn lemma_reset_gives_zero(self, id: usize)
        requires
            self.inv(),
            self.store.contains(id as nat),
        ensures
            self.step(Msg::ResetRotation(id)).store.card(id as nat).rotation == Angle::Zero,
            self.step(Msg::ResetRotation(id)).drag == self.drag,
    {
        self.store.lemma_transforms(id as nat, 0, 0);
    }
}

} // verus!
