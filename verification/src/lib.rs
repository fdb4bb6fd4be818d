//! An interactive board of rectangular image cards.
//!
//! Cards are moved, resized and rotated by dragging, and are kept in a dense
//! stacking order. [`CardStore`] owns the cards; [`Model`] adds the drag state
//! machine that turns a stream of pointer messages into changes of the store.
//! Every function is verified against a mathematical model of the board: the
//! views [`CardView`], [`CardsView`] and [`ModelView`].

pub mod card;
pub mod model;
pub mod model_view;
pub mod msg;
pub mod store;
pub mod store_view;
pub mod zorder;

pub use card::{Angle, Card, CardView, Rotation};
pub use card::{DEFAULT_CARD_SIZE_PX, HANDLE_RADIUS_PX, MIN_CARD_SIZE_PX};
pub use model::Model;
pub use model_view::ModelView;
pub use msg::{DragState, Msg};
pub use store::CardStore;
pub use store_view::CardsView;
