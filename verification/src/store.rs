//! The card store: the cards of a board and their stacking order.

use crate::card::{Angle, Card, CardView};
use crate::store_view::CardsView;
use crate::zorder::lemma_dense_takes_every_place;
use vstd::prelude::*;

verus! {

/// The cards of a board, with their stacking order.
///
/// Every card has an identifier of its own, given at creation and never
/// given again. The places in the stack are always `0, ..., n - 1` for `n`
/// cards, each taken once; the card at the highest place is in front.
pub struct CardStore {
    cards: Vec<Card>,
    next_id: usize,
}

impl View for CardStore {
    type V = CardsView;

    closed spec fn view(&self) -> CardsView {
        CardsView { cards: self.cards@.map_values(|c: Card| c@), next_id: self.next_id as nat }
    }
}

impl CardStore {
    /// The store's invariant holds, within what a machine can hold.
    pub open spec fn wf(&self) -> bool {
        self@.wf()
    }

    /// A store without cards.
    pub fn new() -> (store: CardStore)
        ensures
            store@ == CardsView::empty(),
            store.wf(),
    {
        let store = CardStore { cards: Vec::new(), next_id: 0 };
        assert(store@.cards =~= Seq::empty());
        assert(store@.zs() =~= Seq::empty());
        store
    }

    /// The number of cards.
    pub fn len(&self) -> (n: usize)
        ensures
            n == self@.cards.len(),
    {
        self.cards.len()
    }

    /// The cards, in storage order: the order of creation.
    pub fn cards(&self) -> (cards: &Vec<Card>)
        ensures
            cards@.len() == self@.cards.len(),
            forall|i: int| 0 <= i < cards@.len() ==> (#[trigger] cards@[i])@ == self@.cards[i],
    {
        &self.cards
    }

    /// Where the card with this identifier is stored, if there is one.
    fn find(&self, id: usize) -> (found: Option<usize>)
        ensures
            match found {
                Some(at) => at < self@.cards.len() && self@.cards[at as int].id == id,
                None => !self@.contains(id as nat),
            },
    {
        let mut at: usize = 0;
        while at < self.cards.len()
            invariant
                at <= self.cards.len(),
                forall|i: int| 0 <= i < at ==> (#[trigger] self@.cards[i]).id != id,
            decreases self.cards.len() - at,
        {
            if self.cards[at].id() == id {
                return Some(at);
            }
            at += 1;
        }
        None
    }

    /// Whether there is a card with this identifier.
    pub fn contains(&self, id: usize) -> (found: bool)
        ensures
            found == self@.contains(id as nat),
    {
        self.find(id).is_some()
    }

    /// The card with this identifier, if there is one.
    pub fn get(&self, id: usize) -> (card: Option<&Card>)
        requires
            self.wf(),
        ensures
            card is Some <==> self@.contains(id as nat),
            card matches Some(c) ==> c@ == self@.card(id as nat),
    {
        match self.find(id) {
            Some(at) => {
                proof {
                    self@.lemma_index_of(at as int);
                }
                Some(&self.cards[at])
            },
            None => None,
        }
    }

    /// Whether one more card can be created.
    pub fn has_room(&self) -> (room: bool)
        ensures
            room == self@.has_room(),
    {
        self.cards.len() < i32::MAX as usize && self.next_id < usize::MAX
    }

    /// Appends a card of the default size, without rotation, in front of all
    /// others, and returns its identifier. No other card changes.
    pub fn create(&mut self, image: String, position: (i32, i32)) -> (id: usize)
        requires
            old(self).wf(),
            old(self)@.has_room(),
        ensures
            final(self)@ == old(self)@.create(image@, position.0 as int, position.1 as int),
            final(self).wf(),
            id == old(self)@.next_id,
            !old(self)@.contains(id as nat),
            forall|other: nat|
                #![trigger final(self)@.contains(other)]
                #![trigger old(self)@.contains(other)]
                final(self)@.contains(other) == (old(self)@.contains(other) || other == id),
            final(self)@.card(id as nat) == CardView::fresh(
                id as nat,
                image@,
                position.0 as int,
                position.1 as int,
                old(self)@.cards.len() as int,
            ),
            forall|other: nat|
                old(self)@.contains(other) ==> #[trigger] final(self)@.card(other)
                    == old(self)@.card(other),
    {
        proof {
            self@.lemma_create(image@, position.0 as int, position.1 as int);
        }
        let id: usize = self.next_id;
        let z: i32 = self.cards.len() as i32;
        let card = Card::new(id, image, position, z);
        self.cards.push(card);
        self.next_id = id + 1;
        assert(self@.cards =~= old(self)@.create(
            image@,
            position.0 as int,
            position.1 as int,
        ).cards);
        id
    }

    /// Moves the card by the delta, on both axes, without any clamping.
    ///
    /// Returns whether there is a card with this identifier; without one the
    /// store is left as it is.
    pub fn translate(&mut self, id: usize, dx: i32, dy: i32) -> (found: bool)
        requires
            old(self).wf(),
            old(self)@.contains(id as nat) ==> old(self)@.card(id as nat).can_move(
                dx as int,
                dy as int,
            ),
        ensures
            final(self)@ == old(self)@.translate(id as nat, dx as int, dy as int),
            final(self).wf(),
            found == old(self)@.contains(id as nat),
            final(self)@.differs_only_at(old(self)@, id as nat),
            found ==> final(self)@.card(id as nat) == old(self)@.card(id as nat).moved(
                dx as int,
                dy as int,
            ),
    {
        proof {
            self@.lemma_transforms(id as nat, dx as int, dy as int);
        }
        match self.find(id) {
            Some(at) => {
                proof {
                    self@.lemma_index_of(at as int);
                    self@.lemma_id_is_only_at(at as int);
                }
                self.cards[at].translate(dx, dy);
                assert(self@.cards =~= old(self)@.translate(id as nat, dx as int, dy as int).cards);
                true
            },
            None => {
                assert(self@.cards =~= self@.translate(id as nat, dx as int, dy as int).cards);
                false
            },
        }
    }

    /// Resizes the card from its bottom-right corner by the delta. Each side
    /// is clamped on its own, so that neither goes below the minimum.
    ///
    /// Returns whether there is a card with this identifier; without one the
    /// store is left as it is.
    pub fn resize(&mut self, id: usize, dx: i32, dy: i32) -> (found: bool)
        requires
            old(self).wf(),
            old(self)@.contains(id as nat) ==> old(self)@.card(id as nat).can_resize(
                dx as int,
                dy as int,
            ),
        ensures
            final(self)@ == old(self)@.resize(id as nat, dx as int, dy as int),
            final(self).wf(),
            found == old(self)@.contains(id as nat),
            final(self)@.differs_only_at(old(self)@, id as nat),
            found ==> final(self)@.card(id as nat) == old(self)@.card(id as nat).resized(
                dx as int,
                dy as int,
            ),
    {
        proof {
            self@.lemma_transforms(id as nat, dx as int, dy as int);
        }
        match self.find(id) {
            Some(at) => {
                proof {
                    self@.lemma_index_of(at as int);
                    self@.lemma_id_is_only_at(at as int);
                    assert(self@.cards[at as int].size_ok());
                }
                self.cards[at].resize(dx, dy);
                assert(self@.cards =~= old(self)@.resize(id as nat, dx as int, dy as int).cards);
                true
            },
            None => {
                assert(self@.cards =~= self@.resize(id as nat, dx as int, dy as int).cards);
                false
            },
        }
    }

    /// Rotates the card about its center so that its rotation handle comes
    /// under a cursor at `(px, py)`.
    ///
    /// Returns whether there is a card with this identifier; without one the
    /// store is left as it is.
    pub fn rotate_toward(&mut self, id: usize, px: i32, py: i32) -> (found: bool)
        requires
            old(self).wf(),
        ensures
            final(self)@ == old(self)@.rotate_toward(id as nat, px as int, py as int),
            final(self).wf(),
            found == old(self)@.contains(id as nat),
            final(self)@.differs_only_at(old(self)@, id as nat),
            found ==> final(self)@.card(id as nat) == old(self)@.card(id as nat).rotated_toward(
                px as int,
                py as int,
            ),
    {
        proof {
            self@.lemma_transforms(id as nat, px as int, py as int);
        }
        match self.find(id) {
            Some(at) => {
                proof {
                    self@.lemma_index_of(at as int);
                    self@.lemma_id_is_only_at(at as int);
                    assert(self@.cards[at as int].size_ok());
                }
                self.cards[at].rotate_toward(px, py);
                assert(self@.cards =~= old(self)@.rotate_toward(
                    id as nat,
                    px as int,
                    py as int,
                ).cards);
                true
            },
            None => {
                assert(self@.cards =~= self@.rotate_toward(id as nat, px as int, py as int).cards);
                false
            },
        }
    }

    /// Takes every rotation off the card.
    ///
    /// Returns whether there is a card with this identifier; without one the
    /// store is left as it is.
    pub fn reset_rotation(&mut self, id: usize) -> (found: bool)
        requires
            old(self).wf(),
        ensures
            final(self)@ == old(self)@.reset_rotation(id as nat),
            final(self).wf(),
            found == old(self)@.contains(id as nat),
            final(self)@.differs_only_at(old(self)@, id as nat),
            found ==> final(self)@.card(id as nat) == old(self)@.card(id as nat).unrotated(),
            found ==> final(self)@.card(id as nat).rotation == Angle::Zero,
    {
        proof {
            self@.lemma_transforms(id as nat, 0, 0);
        }
        match self.find(id) {
            Some(at) => {
                proof {
                    self@.lemma_index_of(at as int);
                    self@.lemma_id_is_only_at(at as int);
                }
                self.cards[at].reset_rotation();
                assert(self@.cards =~= old(self)@.reset_rotation(id as nat).cards);
                true
            },
            None => {
                assert(self@.cards =~= self@.reset_rotation(id as nat).cards);
                false
            },
        }
    }

    /// Brings the card to the front of the stack. Every other card at its
    /// place or above moves down one place, so that the stack stays dense;
    /// nothing but places changes.
    ///
    /// Returns whether there is a card with this identifier; without one the
    /// store is left as it is.
    pub fn raise_to_front(&mut self, id: usize) -> (found: bool)
        requires
            old(self).wf(),
        ensures
            final(self)@ == old(self)@.raise_to_front(id as nat),
            final(self).wf(),
            found == old(self)@.contains(id as nat),
            final(self)@.same_ids(old(self)@),
            forall|other: nat|
                found && old(self)@.contains(other) ==> #[trigger] final(self)@.card(other)
                    == old(self)@.card(other).with_z(
                    CardsView::raised(
                        old(self)@.card(other),
                        id as nat,
                        old(self)@.card(id as nat).z,
                        old(self)@.cards.len() - 1,
                    ),
                ),
    {
        let ghost before = self@;
        proof {
            before.lemma_raise(id as nat);
        }
        match self.find(id) {
            Some(at) => {
                proof {
                    before.lemma_index_of(at as int);
                    before.lemma_id_is_only_at(at as int);
                    assert(0 <= before.zs()[at as int]);
                }
                let selected: i32 = self.cards[at].z();
                let count: usize = self.cards.len();
                let mut i: usize = 0;
                while i < count
                    invariant
                        i <= count,
                        count == before.cards.len(),
                        self.cards@.len() == count,
                        self.next_id == before.next_id,
                        0 <= selected,
                        forall|j: int|
                            0 <= j < i ==> (#[trigger] self.cards@[j])@ == before.cards[j].with_z(
                                if before.cards[j].z >= selected {
                                    before.cards[j].z - 1
                                } else {
                                    before.cards[j].z
                                },
                            ),
                        forall|j: int|
                            i <= j < count ==> (#[trigger] self.cards@[j])@ == before.cards[j],
                    decreases count - i,
                {
                    let z: i32 = self.cards[i].z();
                    if z >= selected {
                        self.cards[i].set_z(z - 1);
                    }
                    i += 1;
                }
                self.cards[at].set_z((count - 1) as i32);
                assert(self@.cards =~= before.raise_to_front(id as nat).cards);
                true
            },
            None => false,
        }
    }

    /// Deletes the card. The cards in front of it move down one place, so
    /// that the stack stays dense; the remaining cards keep their storage
    /// order and their identifiers, and change in nothing but their places.
    ///
    /// Returns whether there was a card with this identifier; without one
    /// the store is left as it is.
    pub fn remove(&mut self, id: usize) -> (found: bool)
        requires
            old(self).wf(),
        ensures
            final(self)@ == old(self)@.remove(id as nat),
            final(self).wf(),
            found == old(self)@.contains(id as nat),
            forall|other: nat|
                #![trigger final(self)@.contains(other)]
                #![trigger old(self)@.contains(other)]
                final(self)@.contains(other) == (old(self)@.contains(other) && other != id),
            forall|other: nat|
                found && old(self)@.contains(other) && other != id ==> #[trigger] final(self)@.card(
                    other,
                ) == old(self)@.card(other).with_z(
                    CardsView::closed_up(old(self)@.card(other).z, old(self)@.card(id as nat).z),
                ),
    {
        let ghost before = self@;
        proof {
            before.lemma_remove(id as nat);
        }
        match self.find(id) {
            Some(at) => {
                proof {
                    before.lemma_index_of(at as int);
                }
                let card = self.cards.remove(at);
                let gone: i32 = card.z();
                let ghost rest = before.cards.remove(at as int);
                assert(self@.cards =~= rest);
                let count: usize = self.cards.len();
                let mut i: usize = 0;
                while i < count
                    invariant
                        i <= count,
                        count == rest.len(),
                        self.cards@.len() == count,
                        self.next_id == before.next_id,
                        forall|j: int|
                            0 <= j < i ==> (#[trigger] self.cards@[j])@ == rest[j].with_z(
                                CardsView::closed_up(rest[j].z, gone as int),
                            ),
                        forall|j: int| i <= j < count ==> (#[trigger] self.cards@[j])@ == rest[j],
                    decreases count - i,
                {
                    let z: i32 = self.cards[i].z();
                    if z > gone {
                        self.cards[i].set_z(z - 1);
                    }
                    i += 1;
                }
                assert(self@.cards =~= before.remove(id as nat).cards);
                true
            },
            None => false,
        }
    }

    /// The identifiers of the cards from the back of the stack to the front:
    /// the order in which to draw them.
    pub fn stacking_order(&self) -> (order: Vec<usize>)
        requires
            self.wf(),
        ensures
            order@.len() == self@.cards.len(),
            forall|k: int|
                0 <= k < order@.len() ==> self@.contains(#[trigger] order@[k] as nat)
                    && self@.card(order@[k] as nat).z == k,
    {
        let count: usize = self.cards.len();
        let mut order: Vec<usize> = Vec::new();
        while order.len() < count
            invariant
                order@.len() <= count,
            decreases count - order@.len(),
        {
            order.push(0);
        }
        let mut i: usize = 0;
        while i < count
            invariant
                i <= count,
                count == self.cards@.len(),
                order@.len() == count,
                self@.wf(),
                forall|j: int|
                    0 <= j < i ==> 0 <= (#[trigger] self.cards@[j])@.z < count
                        && order@[self.cards@[j]@.z] == self.cards@[j]@.id,
            decreases count - i,
        {
            proof {
                assert(0 <= self@.zs()[i as int] < count);
                assert forall|j: int| 0 <= j < i implies (#[trigger] self.cards@[j])@.z
                    != self.cards@[i as int]@.z by {
                    assert(self@.zs()[j] != self@.zs()[i as int]);
                }
            }
            let place: usize = self.cards[i].z() as usize;
            order[place] = self.cards[i].id();
            i += 1;
        }
        proof {
            assert forall|k: int| 0 <= k < order@.len() implies self@.contains(
                #[trigger] order@[k] as nat,
            ) && self@.card(order@[k] as nat).z == k by {
                lemma_dense_takes_every_place(self@.zs(), k);
                let j = choose|j: int| 0 <= j < self@.zs().len() && self@.zs()[j] == k;
                assert(self.cards@[j]@.z == k);
                self@.lemma_index_of(j);
            }
        }
        order
    }
}

} // verus!
