//! Ranking of the text blocks of an HTML document by content density.
//!
//! The library flattens a parsed HTML tree into block-level text segments,
//! tracking how much of each segment's visible text sits inside a hyperlink,
//! detects near-duplicate segments, and supplies the order-theoretic smoothing
//! pass of the scorer. The floating-point score arithmetic and all I/O live
//! outside the library.

pub mod dom;
pub mod dups;
pub mod laws;
pub mod smooth;
pub mod text;
pub mod width;

pub use dom::{flatten_dom, DomNode, Paragraph};
pub use dups::{count_duplicates, remove_numbers};
pub use smooth::fill_up_hole;
pub use text::normalize_ws;
