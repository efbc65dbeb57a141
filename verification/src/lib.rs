//! Human-readable name generation from categorized word lists.
//!
//! A `Petnames` value holds three word lists (adjectives, adverbs, names).
//! A generated name with `n` words contains, in order, `n - 2` adverbs
//! (when `n > 2`), one adjective (when `n >= 2`), and one name (when
//! `n >= 1`), joined by a caller-supplied separator. Names can be drawn
//! independently at random (repeating mode) or enumerated so that every
//! combination appears exactly once (non-repeating mode).

pub mod arith;
pub mod laws;
pub mod letters;
pub mod petnames;
pub mod product;
pub mod randomness;
pub mod text;
pub mod words;

pub use crate::petnames::Names;
pub use crate::petnames::Petnames;
pub use crate::petnames::Role;
pub use crate::product::NamesProduct;
pub use crate::words::petname;

