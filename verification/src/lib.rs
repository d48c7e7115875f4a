//! Renders tabular string data (a header row followed by body rows) as a
//! fixed-width table drawn with Unicode box-drawing characters.
//!
//! The rendered output is pinned down exactly by the specification functions
//! in [`model`]: every public function's contract states its result as a
//! sequence of characters computed from the input alone.

pub mod model;
pub mod table;

pub use table::TableRenderer;
