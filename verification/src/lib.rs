//! Side-by-side text layout: wraps each pane's lines to the pane's display
//! width, aligns the wrapped panes row by row, and joins corresponding rows
//! with delimiter strings into flat output lines.

pub mod widths;
pub mod wrap;
pub mod layout;

pub use wrap::Pane;
pub use layout::{vsplit, vsplit_checked};
