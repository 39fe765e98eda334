//! A reader for bibliography documents in a BibTeX-like notation.
//!
//! A document is a sequence of items, each introduced by `@`: typed
//! entries, string macros, preambles and comments. [`bibfile`] turns a
//! text into the ordered list of its items.
//!
//! The modules, from the ground up:
//!
//! - [`unicode`]: the three questions that only the Unicode tables answer.
//! - [`grammar`]: what the notation accepts, stated over classified text.
//! - [`source`]: a text made ready for reading, with its tables.
//! - [`tags`]: the mapping from keys to values that an item holds.
//! - [`bibfile`]: the items, as written and as kept, and how they are
//!   shown.
//! - [`parser`]: reading values, tags, items and documents from a source.
//! - [`laws`], [`comma`], [`roundtrip`]: what holds of the notation as a
//!   whole, with proofs.

pub mod unicode;
pub mod grammar;
pub mod source;
pub mod tags;
pub mod bibfile;
pub mod parser;
pub mod comma;
pub mod laws;
pub mod roundtrip;

pub use bibfile::{BibError, BibFile, BibItem, RawItem};
pub use grammar::{Glyph, Kind};
pub use parser::bibfile;
pub use source::Source;
pub use tags::TagMap;
