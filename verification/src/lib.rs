//! Parser for unified-diff text.
//!
//! A diff document is parsed line by line into a [`PatchSet`]: an ordered
//! collection of [`PatchedFile`]s, each holding ordered [`Hunk`]s, each hunk
//! holding individually typed and numbered [`Line`]s.

pub mod classify;
pub mod codec;
pub mod laws;
pub mod model;
pub mod patch;
pub mod render;
pub mod text;

pub use model::{Error, Hunk, Line, LineType, PatchedFile};
pub use patch::PatchSet;
