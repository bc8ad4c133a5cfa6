//! A small task tracker: tasks with an optional due date and owned
//! sub-tasks, validated against the calendar, sorted by how many
//! dependencies they carry, and rendered as one line of text each.

pub mod color;
pub mod date;
pub mod render;
pub mod task;
pub mod text;
