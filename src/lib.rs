//! A personal to-do list: an ordered sequence of tasks with verified
//! operations, a line-oriented storage format with a proved round trip,
//! and the text that a console front end prints.

pub mod task;
pub mod list;
mod text;
pub mod codec;
pub mod query;
pub mod render;
pub mod input;
