//! Slides and the quiz they make up.
pub mod common;
pub mod config;
pub mod media;
pub mod multiple_choice;
pub mod order;
pub mod type_answer;
