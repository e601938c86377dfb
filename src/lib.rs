//! Slide rendering for a terminal presenter: heading classification, layout
//! of title, body, footer and progress bar, and their terminal encoding.
pub mod text;
pub mod theme;
pub mod classify;
pub mod layout;
pub mod terminal;
