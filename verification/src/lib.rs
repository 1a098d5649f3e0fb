//! The text buffer and the branching history of a modal editor for the terminal.
//!
//! A buffer holds the lines of a text. Every edit of the text is recorded as an
//! action that can be taken back, in a tree in which each edit that is made after
//! an undo begins a branch of its own, so that no state of the text is lost. The
//! tree can be walked by undo and redo, and any node of it can be gone to; a
//! browser shows the tree row by row.
//!
//! `text` and `effect` say in the abstract what the edits and the actions do to a
//! text, `laws` what holds of undo, redo and the browser. `lines`, `edit`,
//! `select`, `motion` and `events` change a buffer; `action`, `undo` and `browse`
//! are the history; `screen` and `terminal` say what is drawn.

pub mod action;
pub mod browse;
pub mod buffer;
pub mod common;
pub mod config;
pub mod edit;
pub mod effect;
pub mod events;
pub mod guard;
pub mod laws;
pub mod lines;
pub mod motion;
pub mod screen;
pub mod select;
pub mod terminal;
pub mod text;
pub mod undo;
