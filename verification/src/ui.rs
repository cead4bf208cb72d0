//! Styled text: what a view of a diff is made of, before anything is drawn.

pub mod alignment_laws;
pub mod diff_utils;
pub mod footer;
pub mod highlight_line;
pub mod pairing;
pub mod projection_laws;
pub mod render_ui;
pub mod side_by_side_diff;
pub mod style;
pub mod unified_diff;
