//! The display width of text that may hold terminal escape sequences.
pub mod laws;
pub mod model;
pub mod scan;
pub mod unicode;

pub use scan::ansi_width;
