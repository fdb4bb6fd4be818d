//! The mathematical model of the card store, and what is proved of it.

use crate::card::CardView;
use crate::zorder::is_dense;
use vstd::prelude::*;

verus! {

/// The mathematical model of a card store: the cards in storage order, and
/// the identifier that the next new card will get.
pub ghost struct CardsView {
    pub cards: Seq<CardView>,
    pub next_id: nat,
}

impl CardsView {
    /// The store without cards.
    pub open spec fn empty() -> CardsView {
        CardsView { cards: Seq::empty(), next_id: 0 }
    }

    /// Some card has this identifier.
    pub open spec fn contains(self, id: nat) -> bool {
        exists|i: int| 0 <= i < self.cards.len() && (#[trigger] self.cards[i]).id == id
    }

    /// Where in storage order the card with this identifier is.
    pub open spec fn index_of(self, id: nat) -> int {
        choose|i: int| 0 <= i < self.cards.len() && (#[trigger] self.cards[i]).id == id
    }

    /// The card with this identifier.
    pub open spec fn card(self, id: nat) -> CardView {
        self.cards[self.index_of(id)]
    }

    /// The places in the stack, in storage order.
    pub open spec fn zs(self) -> Seq<int> {
        self.cards.map_values(|c: CardView| c.z)
    }

    /// No two cards share an identifier, and none has one that is still to be given out.
    pub open spec fn ids_unique(self) -> bool {
        &&& forall|i: int| 0 <= i < self.cards.len() ==> (#[trigger] self.cards[i]).id < self.next_id
        &&& forall|i: int, j: int|
            0 <= i < j < self.cards.len() ==> (#[trigger] self.cards[i]).id != (
            #[trigger] self.cards[j]).id
    }

    /// The places in the stack are a permutation of `0..n` for `n` cards.
    pub open spec fn z_dense(self) -> bool {
        is_dense(self.zs())
    }

    /// Every card keeps the minimum size.
    pub open spec fn sizes_ok(self) -> bool {
        forall|i: int| 0 <= i < self.cards.len() ==> (#[trigger] self.cards[i]).size_ok()
    }

    /// The invariant of the store.
    pub open spec fn inv(self) -> bool {
        &&& self.ids_unique()
        &&& self.z_dense()
        &&& self.sizes_ok()
    }

    /// The invariant holds, and the store is one that a machine can hold:
    /// places in the stack fit in `i32`, identifiers in `usize`.
    pub open spec fn wf(self) -> bool {
        &&& self.inv()
        &&& self.cards.len() <= i32::MAX
        &&& self.next_id <= usize::MAX
    }

    /// One more card can be created without leaving what a machine can hold.
    pub open spec fn has_room(self) -> bool {
        &&& self.cards.len() < i32::MAX
        &&& self.next_id < usize::MAX
    }

    /// A new card is appended, in front of all others.
    pub open spec fn create(self, image: Seq<char>, x: int, y: int) -> CardsView {
        CardsView {
            cards: self.cards.push(
                CardView::fresh(self.next_id, image, x, y, self.cards.len() as int),
            ),
            next_id: self.next_id + 1,
        }
    }

    /// The place of a card once the card that was at `gone` has left the stack.
    pub open spec fn closed_up(z: int, gone: int) -> int {
        if z > gone {
            z - 1
        } else {
            z
        }
    }

    /// The card is deleted and the cards in front of it move down one place,
    /// so that the stack stays dense. The others keep their storage order.
    pub open spec fn remove(self, id: nat) -> CardsView {
        if self.contains(id) {
            let at = self.index_of(id);
            let gone = self.cards[at].z;
            CardsView {
                cards: self.cards.remove(at).map_values(
                    |c: CardView| c.with_z(Self::closed_up(c.z, gone)),
                ),
                ..self
            }
        } else {
            self
        }
    }

    /// The place of the card `c` once the card `id`, which was at
    /// `selected`, has come to the `front`.
    pub open spec fn raised(c: CardView, id: nat, selected: int, front: int) -> int {
        if c.id == id {
            front
        } else if c.z >= selected {
            c.z - 1
        } else {
            c.z
        }
    }

    /// The card comes to the front; every other card at its place or above
    /// moves down one place.
    pub open spec fn raise_to_front(self, id: nat) -> CardsView {
        if self.contains(id) {
            let selected = self.card(id).z;
            let front = self.cards.len() - 1;
            CardsView {
                cards: self.cards.map_values(
                    |c: CardView| c.with_z(Self::raised(c, id, selected, front)),
                ),
                ..self
            }
        } else {
            self
        }
    }

    /// The card loses its rotation.
    pub open spec fn reset_rotation(self, id: nat) -> CardsView {
        CardsView {
            cards: self.cards.map_values(
                |c: CardView|
                    if c.id == id {
                        c.unrotated()
                    } else {
                        c
                    },
            ),
            ..self
        }
    }

    /// The card is translated by the delta.
    pub open spec fn translate(self, id: nat, dx: int, dy: int) -> CardsView {
        CardsView {
            cards: self.cards.map_values(
                |c: CardView|
                    if c.id == id {
                        c.moved(dx, dy)
                    } else {
                        c
                    },
            ),
            ..self
        }
    }

    /// The card is resized by the delta, each side staying at the minimum or above.
    pub open spec fn resize(self, id: nat, dx: int, dy: int) -> CardsView {
        CardsView {
            cards: self.cards.map_values(
                |c: CardView|
                    if c.id == id {
                        c.resized(dx, dy)
                    } else {
                        c
                    },
            ),
            ..self
        }
    }

    /// The card is rotated so that its rotation handle is under the cursor.
    pub open spec fn rotate_toward(self, id: nat, px: int, py: int) -> CardsView {
        CardsView {
            cards: self.cards.map_values(
                |c: CardView|
                    if c.id == id {
                        c.rotated_toward(px, py)
                    } else {
                        c
                    },
            ),
            ..self
        }
    }

    /// Both stores hold cards under the same identifiers.
    pub open spec fn same_ids(self, before: CardsView) -> bool {
        forall|id: nat|
            #![trigger self.contains(id)]
            #![trigger before.contains(id)]
            self.contains(id) == before.contains(id)
    }

    /// Both stores hold cards under the same identifiers, and every card but
    /// `id` is the same in both.
    pub open spec fn differs_only_at(self, before: CardsView, id: nat) -> bool {
        &&& self.same_ids(before)
        &&& forall|other: nat|
            other != id && before.contains(other) ==> #[trigger] self.card(other) == before.card(
                other,
            )
    }

    /// With unique identifiers, a card's identifier tells where it is stored.
    pub proof fn lemma_index_of(self, at: int)
        requires
            self.ids_unique(),
            0 <= at < self.cards.len(),
        ensures
            self.contains(self.cards[at].id),
            self.index_of(self.cards[at].id) == at,
            self.card(self.cards[at].id) == self.cards[at],
    {
        let id = self.cards[at].id;
        let found = self.index_of(id);
        assert(0 <= found < self.cards.len() && self.cards[found].id == id);
        if found < at {
            assert(self.cards[found].id != self.cards[at].id);
        } else if at < found {
            assert(self.cards[at].id != self.cards[found].id);
        }
    }

    /// With unique identifiers, no other card has the identifier of the card stored at `at`.
    pub proof fn lemma_id_is_only_at(self, at: int)
        requires
            self.ids_unique(),
            0 <= at < self.cards.len(),
        ensures
            forall|i: int|
                0 <= i < self.cards.len() && i != at ==> (#[trigger] self.cards[i]).id
                    != self.cards[at].id,
    {
        assert forall|i: int| 0 <= i < self.cards.len() && i != at implies (
        #[trigger] self.cards[i]).id != self.cards[at].id by {
            if i < at {
                assert(self.cards[i].id != self.cards[at].id);
            } else {
                assert(self.cards[at].id != self.cards[i].id);
            }
        }
    }

    /// A store in which every place in storage holds a card with the
    /// identifier that it held before has the same cards, at the same places.
    pub proof fn lemma_same_places(self, before: CardsView)
        requires
            before.ids_unique(),
            self.cards.len() == before.cards.len(),
            forall|i: int|
                0 <= i < self.cards.len() ==> (#[trigger] self.cards[i]).id == before.cards[i].id,
        ensures
            self.same_ids(before),
            forall|id: nat|
                before.contains(id) ==> #[trigger] self.index_of(id) == before.index_of(id),
    {
        assert forall|id: nat| self.contains(id) == before.contains(id) by {
            if before.contains(id) {
                assert(self.cards[before.index_of(id)].id == id);
            }
            if self.contains(id) {
                assert(before.cards[self.index_of(id)].id == id);
            }
        }
        assert forall|id: nat| before.contains(id) implies #[trigger] self.index_of(id)
            == before.index_of(id) by {
            let at = self.index_of(id);
            assert(self.cards[before.index_of(id)].id == id);
            assert(before.cards[at].id == id);
            before.lemma_index_of(at);
        }
    }

    /// Creating a card keeps the invariant. By identifier: the new card is
    /// added under an identifier that was free, and no other card changes.
    pub proof fn lemma_create(self, image: Seq<char>, x: int, y: int)
        requires
            self.inv(),
        ensures
            self.create(image, x, y).inv(),
            !self.contains(self.next_id),
            forall|id: nat|
                #![trigger self.create(image, x, y).contains(id)]
                #![trigger self.contains(id)]
                self.create(image, x, y).contains(id) == (self.contains(id) || id == self.next_id),
            self.create(image, x, y).card(self.next_id) == CardView::fresh(
                self.next_id,
                image,
                x,
                y,
                self.cards.len() as int,
            ),
            forall|id: nat|
                self.contains(id) ==> #[trigger] self.create(image, x, y).card(id) == self.card(id),
    {
        let after = self.create(image, x, y);
        let last = self.cards.len() as int;
        assert forall|i: int| 0 <= i < after.cards.len() implies 0 <= #[trigger] after.zs()[i]
            < after.cards.len() by {
            if i < last {
                assert(after.zs()[i] == self.zs()[i]);
            }
        }
        assert forall|i: int, j: int| 0 <= i < j < after.cards.len() implies #[trigger] after.zs()[i]
            != #[trigger] after.zs()[j] by {
            assert(after.zs()[i] == self.zs()[i]);
            if j < last {
                assert(after.zs()[j] == self.zs()[j]);
            }
        }
        assert forall|i: int| 0 <= i < after.cards.len() implies (#[trigger] after.cards[i]).size_ok() by {
            if i < last {
                assert(after.cards[i] == self.cards[i]);
            }
        }
        assert(after.ids_unique());
        if self.contains(self.next_id) {
            assert(self.cards[self.index_of(self.next_id)].id < self.next_id);
        }
        assert forall|id: nat| after.contains(id) == (self.contains(id) || id == self.next_id) by {
            if self.contains(id) {
                assert(after.cards[self.index_of(id)].id == id);
            }
            if id == self.next_id {
                assert(after.cards[last].id == id);
            }
            if after.contains(id) && id != self.next_id {
                assert(self.cards[after.index_of(id)].id == id);
            }
        }
        after.lemma_index_of(last);
        assert forall|id: nat| self.contains(id) implies #[trigger] after.card(id) == self.card(
            id,
        ) by {
            let at = self.index_of(id);
            assert(after.cards[at] == self.cards[at]);
            after.lemma_index_of(at);
        }
    }

    /// Raising a card to the front keeps the invariant. By identifier: the
    /// same cards are there, and each has changed its place only.
    pub proof fn lemma_raise(self, id: nat)
        requires
            self.inv(),
        ensures
            self.raise_to_front(id).inv(),
            self.raise_to_front(id).cards.len() == self.cards.len(),
            self.raise_to_front(id).same_ids(self),
            forall|other: nat|
                self.contains(id) && self.contains(other) ==> #[trigger] self.raise_to_front(
                    id,
                ).card(other) == self.card(other).with_z(
                    Self::raised(self.card(other), id, self.card(id).z, self.cards.len() - 1),
                ),
    {
        let after = self.raise_to_front(id);
        if self.contains(id) {
            let at = self.index_of(id);
            assert forall|i: int| 0 <= i < self.cards.len() && i != at implies self.cards[i].id
                != id && self.cards[i].z != self.cards[at].z by {
                self.lemma_index_of(i);
                if i < at {
                    assert(self.zs()[i] != self.zs()[at]);
                } else {
                    assert(self.zs()[at] != self.zs()[i]);
                }
            }
            assert forall|i: int| 0 <= i < after.cards.len() implies 0 <= #[trigger] after.zs()[i]
                < after.cards.len() by {
                assert(0 <= self.zs()[i] < self.cards.len());
                assert(0 <= self.zs()[at] < self.cards.len());
            }
            assert forall|i: int, j: int| 0 <= i < j < after.cards.len() implies #[trigger] after.zs()[i]
                != #[trigger] after.zs()[j] by {
                assert(self.zs()[i] != self.zs()[j]);
                assert(0 <= self.zs()[i] < self.cards.len());
                assert(0 <= self.zs()[j] < self.cards.len());
            }
            assert forall|i: int| 0 <= i < after.cards.len() implies (#[trigger] after.cards[i]).size_ok() by {
                assert(self.cards[i].size_ok());
            }
            after.lemma_same_places(self);
        }
    }

    /// Raising the card that is in front already changes nothing.
    pub proof fn lemma_raise_of_front_card_changes_nothing(self, id: nat)
        requires
            self.inv(),
            self.contains(id),
            self.card(id).z == self.cards.len() - 1,
        ensures
            self.raise_to_front(id) == self,
    {
        let after = self.raise_to_front(id);
        let at = self.index_of(id);
        self.lemma_id_is_only_at(at);
        assert forall|i: int| 0 <= i < self.cards.len() implies #[trigger] after.cards[i]
            == self.cards[i] by {
            assert(0 <= self.zs()[i] < self.cards.len());
            if i < at {
                assert(self.zs()[i] != self.zs()[at]);
            } else if at < i {
                assert(self.zs()[at] != self.zs()[i]);
            }
        }
        assert(after.cards =~= self.cards);
    }

    /// Raising a card at place `k` changes places in the stack and nothing
    /// else: the card comes to the front, every other card that was at `k`
    /// or above moves down by exactly one place, and the cards below `k` stay.
    pub proof fn lemma_raise_moves_cards_above_down(self, id: nat)
        requires
            self.inv(),
            self.contains(id),
        ensures
            self.raise_to_front(id).next_id == self.next_id,
            self.raise_to_front(id).cards.len() == self.cards.len(),
            forall|i: int|
                0 <= i < self.cards.len() ==> {
                    let was = self.cards[i];
                    let now = #[trigger] self.raise_to_front(id).cards[i];
                    &&& now == was.with_z(now.z)
                    &&& was.id == id ==> now.z == self.cards.len() - 1
                    &&& was.id != id && was.z >= self.card(id).z ==> now.z == was.z - 1
                    &&& was.id != id && was.z < self.card(id).z ==> now.z == was.z
                },
    {
    }

    /// Removing a card keeps the invariant. By identifier: the card is gone,
    /// the others are there, and each of them has changed its place only.
    pub proof fn lemma_remove(self, id: nat)
        requires
            self.inv(),
        ensures
            self.remove(id).inv(),
            self.contains(id) ==> self.remove(id).cards.len() == self.cards.len() - 1,
            forall|other: nat|
                #![trigger self.remove(id).contains(other)]
                #![trigger self.contains(other)]
                self.remove(id).contains(other) == (self.contains(other) && other != id),
            forall|other: nat|
                self.contains(id) && self.contains(other) && other != id ==> #[trigger] self.remove(
                    id,
                ).card(other) == self.card(other).with_z(
                    Self::closed_up(self.card(other).z, self.card(id).z),
                ),
    {
        if self.contains(id) {
            let after = self.remove(id);
            let at = self.index_of(id);
            let rest = self.cards.remove(at);
            assert forall|i: int| 0 <= i < rest.len() implies {
                let from = if i < at { i } else { i + 1 };
                &&& #[trigger] rest[i] == self.cards[from]
                &&& rest[i].id != id
                &&& rest[i].z != self.cards[at].z
            } by {
                let from = if i < at { i } else { i + 1 };
                self.lemma_index_of(from);
                if from < at {
                    assert(self.zs()[from] != self.zs()[at]);
                } else {
                    assert(self.zs()[at] != self.zs()[from]);
                }
            }
            assert forall|i: int| 0 <= i < after.cards.len() implies 0 <= #[trigger] after.zs()[i]
                < after.cards.len() by {
                let from = if i < at { i } else { i + 1 };
                assert(rest[i] == self.cards[from]);
                assert(0 <= self.zs()[from] < self.cards.len());
                assert(0 <= self.zs()[at] < self.cards.len());
            }
            assert forall|i: int, j: int| 0 <= i < j < after.cards.len() implies #[trigger] after.zs()[i]
                != #[trigger] after.zs()[j] by {
                let from_i = if i < at { i } else { i + 1 };
                let from_j = if j < at { j } else { j + 1 };
                assert(rest[i] == self.cards[from_i]);
                assert(rest[j] == self.cards[from_j]);
                assert(self.zs()[from_i] != self.zs()[from_j]);
            }
            assert forall|i: int| 0 <= i < after.cards.len() implies (#[trigger] after.cards[i]).size_ok() by {
                let from = if i < at { i } else { i + 1 };
                assert(rest[i] == self.cards[from]);
                assert(self.cards[from].size_ok());
            }
            assert forall|i: int| 0 <= i < after.cards.len() implies (#[trigger] after.cards[i]).id
                < after.next_id by {
                let from = if i < at { i } else { i + 1 };
                assert(rest[i] == self.cards[from]);
            }
            assert forall|i: int, j: int| 0 <= i < j < after.cards.len() implies (
            #[trigger] after.cards[i]).id != (#[trigger] after.cards[j]).id by {
                let from_i = if i < at { i } else { i + 1 };
                let from_j = if j < at { j } else { j + 1 };
                assert(rest[i] == self.cards[from_i]);
                assert(rest[j] == self.cards[from_j]);
            }
            assert forall|other: nat| after.contains(other) == (self.contains(other) && other
                != id) by {
                if after.contains(other) {
                    let to = after.index_of(other);
                    let from = if to < at { to } else { to + 1 };
                    assert(rest[to] == self.cards[from]);
                    assert(self.cards[from].id == other);
                }
                if self.contains(other) && other != id {
                    let from = self.index_of(other);
                    let to = if from < at { from } else { from - 1 };
                    assert(rest[to] == self.cards[from]);
                    assert(after.cards[to].id == other);
                }
            }
            assert forall|other: nat|
                self.contains(other) && other != id implies #[trigger] after.card(other)
                == self.card(other).with_z(
                Self::closed_up(self.card(other).z, self.card(id).z),
            ) by {
                let from = self.index_of(other);
                let to = if from < at { from } else { from - 1 };
                assert(rest[to] == self.cards[from]);
                after.lemma_index_of(to);
            }
        }
    }

    /// Moving, resizing, rotating or resetting a card keeps the invariant.
    /// By identifier: the same cards are there, and none but the one named
    /// has changed.
    pub proof fn lemma_transforms(self, id: nat, a: int, b: int)
        requires
            self.inv(),
        ensures
            self.translate(id, a, b).inv(),
            self.translate(id, a, b).differs_only_at(self, id),
            self.contains(id) ==> self.translate(id, a, b).card(id) == self.card(id).moved(a, b),
            self.resize(id, a, b).inv(),
            self.resize(id, a, b).differs_only_at(self, id),
            self.contains(id) ==> self.resize(id, a, b).card(id) == self.card(id).resized(a, b),
            self.rotate_toward(id, a, b).inv(),
            self.rotate_toward(id, a, b).differs_only_at(self, id),
            self.contains(id) ==> self.rotate_toward(id, a, b).card(id) == self.card(
                id,
            ).rotated_toward(a, b),
            self.reset_rotation(id).inv(),
            self.reset_rotation(id).differs_only_at(self, id),
            self.contains(id) ==> self.reset_rotation(id).card(id) == self.card(id).unrotated(),
    {
        let moved = self.translate(id, a, b);
        let resized = self.resize(id, a, b);
        let rotated = self.rotate_toward(id, a, b);
        let reset = self.reset_rotation(id);
        assert(moved.zs() =~= self.zs());
        assert(resized.zs() =~= self.zs());
        assert(rotated.zs() =~= self.zs());
        assert(reset.zs() =~= self.zs());
        assert forall|i: int| 0 <= i < self.cards.len() implies {
            &&& (#[trigger] moved.cards[i]).size_ok()
            &&& (#[trigger] resized.cards[i]).size_ok()
            &&& (#[trigger] rotated.cards[i]).size_ok()
            &&& (#[trigger] reset.cards[i]).size_ok()
        } by {
            assert(self.cards[i].size_ok());
        }
        moved.lemma_same_places(self);
        resized.lemma_same_places(self);
        rotated.lemma_same_places(self);
        reset.lemma_same_places(self);
    }
}

} // verus!
