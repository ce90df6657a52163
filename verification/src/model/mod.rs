//! The core: what a note is, the store, Markdown, and monitor geometry.

pub mod geometry;
pub mod geometry_laws;
pub mod markdown;
pub mod markdown_laws;
pub mod markdown_syntax_laws;
pub mod note;
pub mod note_laws;
pub mod store;
pub mod store_laws;

pub use geometry::{Monitor, Placement};
pub use note::{Note, NoteGeometry, Palette};
pub use store::{Store, StoreError};
