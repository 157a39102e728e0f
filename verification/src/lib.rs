//! Core of a flashcard-style trainer for boxing combinations: the record
//! format, the facet filter and the navigation state.

pub mod combination;
pub mod model;
pub mod screen;
pub mod text;
