//! Card sets for a trading-card game: the untyped cards of a set, the typed
//! hero record rebuilt from a card's attributes, and lookup indexes from
//! name fragments and card types to the positions of the cards they select.

pub mod bits;
pub mod card;
pub mod document;
pub mod hero;
pub mod index;
pub mod normalize;
pub mod text;

pub use bits::PositionSet;
pub use card::{CardType, Sphere, UCard, UCards, UProperty, USet};
pub use document::document_body;
pub use hero::{HeroCard, HeroField, ValidationError, ValidationErrorKind};
pub use index::{build_name_index, build_type_index, NameIndex, TypeIndex, UnknownCardType};
pub use normalize::normalize;
