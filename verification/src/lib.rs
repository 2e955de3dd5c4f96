//! Layouts of bitfields over integral types.
//!
//! A layout is a struct over an unsigned integral type, and the bitfields of that type:
//!
//! ```text
//! {
//!     pub struct Example(u32);
//!     {
//!         let foo @ 21..14;
//!         let custom @ 13..10: CustomFieldRepr;
//!         let bar @ 9..8 = 0b11;
//!         let baz @ 7;
//!         let __ @ 3..2 = 1;
//!         let __ @ 1..0;
//!     }
//! }
//! ```
//!
//! [`layout()`] turns such a text into the source text of a wrapper type with constants,
//! constructors, a getter and a setter for each named field, iteration and formatting.
//! [`bitfield_repr`] does so for a type that represents a field's values. [`register`] and
//! [`instance`] give a layout its meaning directly: the masks, the default, and the accessors
//! of its words.

pub mod acceptance;
pub mod accessors;
pub mod base;
pub mod bitfield;
pub mod constants;
pub mod declaration;
pub mod display;
pub mod display_laws;
pub mod error;
pub mod expand;
pub mod field_laws;
pub mod format;
pub mod instance;
pub mod laws;
pub mod layout;
pub mod layout_laws;
pub mod meaning_laws;
pub mod model_laws;
mod pieces;
pub mod radix;
pub mod register;
mod shapes;
pub mod source_laws;
pub mod syntax;
pub mod templates;
pub mod text;
pub mod typedef;
pub mod view_laws;
pub mod word;

pub use crate::expand::{bitfield_repr, layout};
