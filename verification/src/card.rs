//! A single card: its geometry, its exact rotation and its place in the stack.

use vstd::prelude::*;

verus! {

/// Radius, in pixels, of the round handles at a card's corners.
pub const HANDLE_RADIUS_PX: i32 = 5;

/// Smallest width and height of a card: one pixel between two handles.
pub const MIN_CARD_SIZE_PX: i32 = 2 * HANDLE_RADIUS_PX + 1;

/// Width and height of a newly created card.
pub const DEFAULT_CARD_SIZE_PX: i32 = 300;

/// An angle in radians, in exact form.
///
/// `Sum` stands for `atan2(target.1, target.0) + atan2(handle.1, handle.0)`,
/// each pair being an `(x, y)` vector.
pub ghost enum Angle {
    /// The angle of exactly zero.
    Zero,
    /// The sum of the directions of the two vectors.
    Sum { target: (int, int), handle: (int, int) },
}

/// The rotation of a card.
///
/// The angle is kept as the integer vectors it was derived from, so that two
/// rotations are equal exactly when they were derived from the same geometry.
/// `Toward` is the angle `atan2(cursor_dy, cursor_dx) + atan2(handle_dy, handle_dx)`
/// in radians: the direction from the card's center to the cursor, plus the
/// direction from the center to the corner that carries the rotation handle.
#[derive(Clone, Copy, Debug, PartialEq, Eq, Structural)]
pub enum Rotation {
    /// No rotation: an angle of exactly zero.
    Zero,
    /// The rotation that puts the rotation handle under the cursor.
    Toward { cursor_dx: i64, cursor_dy: i64, handle_dx: i32, handle_dy: i32 },
}

impl View for Rotation {
    type V = Angle;

    open spec fn view(&self) -> Angle {
        match *self {
            Rotation::Zero => Angle::Zero,
            Rotation::Toward { cursor_dx, cursor_dy, handle_dx, handle_dy } => Angle::Sum {
                target: (cursor_dx as int, cursor_dy as int),
                handle: (handle_dx as int, handle_dy as int),
            },
        }
    }
}

/// The mathematical model of a card.
pub ghost struct CardView {
    /// The identifier under which the store knows the card.
    pub id: nat,
    /// What the card shows.
    pub image: Seq<char>,
    /// Left edge.
    pub x: int,
    /// Top edge.
    pub y: int,
    /// Length of the horizontal sides.
    pub width: int,
    /// Length of the vertical sides.
    pub height: int,
    /// Rotation about the center.
    pub rotation: Angle,
    /// Place in the stack; the highest is in front.
    pub z: int,
}

impl CardView {
    /// A card as it is created: default size, no rotation.
    pub open spec fn fresh(id: nat, image: Seq<char>, x: int, y: int, z: int) -> CardView {
        CardView {
            id,
            image,
            x,
            y,
            width: DEFAULT_CARD_SIZE_PX as int,
            height: DEFAULT_CARD_SIZE_PX as int,
            rotation: Angle::Zero,
            z,
        }
    }

    /// Neither side is shorter than the minimum.
    pub open spec fn size_ok(self) -> bool {
        self.width >= MIN_CARD_SIZE_PX && self.height >= MIN_CARD_SIZE_PX
    }

    /// The moved card's corner can still be held in pixels.
    pub open spec fn can_move(self, dx: int, dy: int) -> bool {
        &&& i32::MIN <= self.x + dx <= i32::MAX
        &&& i32::MIN <= self.y + dy <= i32::MAX
    }

    /// The resized card's sides can still be held in pixels.
    pub open spec fn can_resize(self, dx: int, dy: int) -> bool {
        &&& self.width + dx <= i32::MAX
        &&& self.height + dy <= i32::MAX
    }

    /// The card is translated by the delta, on both axes.
    pub open spec fn moved(self, dx: int, dy: int) -> CardView {
        CardView { x: self.x + dx, y: self.y + dy, ..self }
    }

    /// One side after a resize by `delta`: never below the minimum.
    pub open spec fn resized_side(side: int, delta: int) -> int {
        if side + delta >= MIN_CARD_SIZE_PX {
            side + delta
        } else {
            MIN_CARD_SIZE_PX as int
        }
    }

    /// The card is resized from its bottom-right corner; each axis is clamped on its own.
    pub open spec fn resized(self, dx: int, dy: int) -> CardView {
        CardView {
            width: Self::resized_side(self.width, dx),
            height: Self::resized_side(self.height, dy),
            ..self
        }
    }

    /// No resize takes a side below the minimum, however far the delta
    /// goes, and the floor is idempotent: resizing the resized card by
    /// nothing changes nothing.
    pub proof fn lemma_resize_keeps_minimum(self, dx: int, dy: int)
        ensures
            self.resized(dx, dy).size_ok(),
            self.resized(dx, dy).resized(0, 0) == self.resized(dx, dy),
    {
    }

    /// The center of the card; the half of a side is a whole number of
    /// pixels, the odd pixel left out.
    pub open spec fn center(self) -> (int, int) {
        (self.x + self.width / 2, self.y + self.height / 2)
    }

    /// The vector from the center to the corner that carries the rotation
    /// handle, in the frame of the card before any rotation. Its direction
    /// is the angle by which the handle is off the axis.
    pub open spec fn rotation_handle_vector(self) -> (int, int) {
        (self.width, self.height)
    }

    /// The angle that puts the rotation handle under a cursor at `(px, py)`:
    /// the direction from the center to the cursor, plus the direction of
    /// the handle, taken from the size as it is now.
    pub open spec fn angle_toward(self, px: int, py: int) -> Angle {
        Angle::Sum {
            target: (px - self.center().0, py - self.center().1),
            handle: self.rotation_handle_vector(),
        }
    }

    /// The card is rotated about its center so that its rotation handle is under the cursor.
    pub open spec fn rotated_toward(self, px: int, py: int) -> CardView {
        CardView { rotation: self.angle_toward(px, py), ..self }
    }

    /// The card without any rotation.
    pub open spec fn unrotated(self) -> CardView {
        CardView { rotation: Angle::Zero, ..self }
    }

    /// The card at another place in the stack.
    pub open spec fn with_z(self, z: int) -> CardView {
        CardView { z, ..self }
    }
}

/// A transformable image on the board.
#[derive(Debug, PartialEq)]
pub struct Card {
    id: usize,
    image: String,
    position: (i32, i32),
    size: (i32, i32),
    rotation: Rotation,
    z: i32,
}

impl View for Card {
    type V = CardView;

    closed spec fn view(&self) -> CardView {
        CardView {
            id: self.id as nat,
            image: self.image@,
            x: self.position.0 as int,
            y: self.position.1 as int,
            width: self.size.0 as int,
            height: self.size.1 as int,
            rotation: self.rotation@,
            z: self.z as int,
        }
    }
}

impl Card {
    /// What holds of every card on a board: the minimum size is kept.
    pub open spec fn wf(&self) -> bool {
        self@.size_ok()
    }

    /// A new card of the default size, without rotation.
    pub(crate) fn new(id: usize, image: String, position: (i32, i32), z: i32) -> (card: Card)
        ensures
            card@ == CardView::fresh(
                id as nat,
                image@,
                position.0 as int,
                position.1 as int,
                z as int,
            ),
            card.wf(),
    {
        Card {
            id,
            image,
            position,
            size: (DEFAULT_CARD_SIZE_PX, DEFAULT_CARD_SIZE_PX),
            rotation: Rotation::Zero,
            z,
        }
    }

    /// The identifier under which the store knows this card.
    pub fn id(&self) -> (id: usize)
        ensures
            id == self@.id,
    {
        self.id
    }

    /// What the card shows.
    pub fn image(&self) -> (image: &str)
        ensures
            image@ == self@.image,
    {
        self.image.as_str()
    }

    /// The top-left corner, as `(x, y)`.
    pub fn position(&self) -> (position: (i32, i32))
        ensures
            position.0 == self@.x,
            position.1 == self@.y,
    {
        self.position
    }

    /// The size, as `(width, height)`.
    pub fn size(&self) -> (size: (i32, i32))
        ensures
            size.0 == self@.width,
            size.1 == self@.height,
    {
        self.size
    }

    /// The rotation about the center.
    pub fn rotation(&self) -> (rotation: Rotation)
        ensures
            rotation@ == self@.rotation,
    {
        self.rotation
    }

    /// The place in the stack; the highest is in front.
    pub fn z(&self) -> (z: i32)
        ensures
            z == self@.z,
    {
        self.z
    }

    /// The vector from the center to the corner that carries the rotation
    /// handle, in the frame of the card before any rotation.
    pub fn rotation_handle_vector(&self) -> (vector: (i32, i32))
        ensures
            vector.0 == self@.rotation_handle_vector().0,
            vector.1 == self@.rotation_handle_vector().1,
    {
        self.size
    }

    /// Moves the card by the delta, on both axes, without any clamping.
    pub(crate) fn translate(&mut self, dx: i32, dy: i32)
        requires
            old(self)@.can_move(dx as int, dy as int),
        ensures
            final(self)@ == old(self)@.moved(dx as int, dy as int),
    {
        self.position = (self.position.0 + dx, self.position.1 + dy);
    }

    /// Resizes the card from its bottom-right corner, keeping each side at the minimum or above.
    pub(crate) fn resize(&mut self, dx: i32, dy: i32)
        requires
            old(self).wf(),
            old(self)@.can_resize(dx as int, dy as int),
        ensures
            final(self)@ == old(self)@.resized(dx as int, dy as int),
            final(self).wf(),
    {
        let width: i32 = self.size.0 + dx;
        let height: i32 = self.size.1 + dy;
        self.size = (
            if width >= MIN_CARD_SIZE_PX { width } else { MIN_CARD_SIZE_PX },
            if height >= MIN_CARD_SIZE_PX { height } else { MIN_CARD_SIZE_PX },
        );
    }

    /// Rotates the card about its center so that the rotation handle is under the cursor.
    ///
    /// The handle's own direction is taken from the size as it is now.
    pub(crate) fn rotate_toward(&mut self, px: i32, py: i32)
        requires
            old(self).wf(),
        ensures
            final(self)@ == old(self)@.rotated_toward(px as int, py as int),
    {
        let center_x: i64 = self.position.0 as i64 + (self.size.0 / 2) as i64;
        let center_y: i64 = self.position.1 as i64 + (self.size.1 / 2) as i64;
        let handle = self.rotation_handle_vector();
        self.rotation = Rotation::Toward {
            cursor_dx: px as i64 - center_x,
            cursor_dy: py as i64 - center_y,
            handle_dx: handle.0,
            handle_dy: handle.1,
        };
    }

    /// Takes every rotation off the card.
    pub(crate) fn reset_rotation(&mut self)
        ensures
            final(self)@ == old(self)@.unrotated(),
    {
        self.rotation = Rotation::Zero;
    }

    /// Puts the card at another place in the stack.
    pub(crate) fn set_z(&mut self, z: i32)
        ensures
            final(self)@ == old(self)@.with_z(z as int),
    {
        self.z = z;
    }
}

} // verus!
