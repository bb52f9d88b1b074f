//! A declaratively configured control panel: actions that run commands, pipe
//! their output, show it, set variables and offer choices, wired together by a
//! variable store, conditions over it and a dependency index that says which
//! elements to re-enable when a variable changes.

pub mod condition;
pub mod conditionals;
pub mod config;
pub mod handler;
pub mod store;
pub mod text;
