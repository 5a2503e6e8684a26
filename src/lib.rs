//! A small task tracker: tasks with an id, a text and a state, kept in a
//! store that assigns ids and is written to and read from a JSON document.

pub mod cli;
pub mod model;
pub mod store;
