//! Input-and-display engine of a modal terminal editor: a key-sequence
//! dispatcher and a dirty-tracked screen grid with window bands.
pub mod keys;
pub mod layout;
pub mod text;
pub mod screen;
pub mod buffer;
