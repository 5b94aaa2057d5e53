//! A spaced-repetition engine for a personal "memory palace": a flat store of
//! question/answer items whose next review time moves out while the learner
//! keeps remembering them, and falls back to a short interval when they do not.
//!
//! - [`item`] holds the flashcard and the rules that schedule it.
//! - [`exam`] opens a session on a store, keeps the learner's marks, and folds
//!   them back into the store; a session can be saved and taken up again.
//! - [`update`] carries edited copies of items back into the stores they came
//!   from.
//! - [`select`] picks items by due time and label, [`print`] writes a store as
//!   a table, and [`file`] turns items into what is kept on disk and back.
//!
//! The library computes on values. Reading and writing files, the clock and
//! the display are left to the program around it.

pub mod exam;
pub mod file;
pub mod item;
pub mod print;
mod random;
pub mod select;
pub mod sorting;
pub mod text;
pub mod time;
pub mod update;

pub use crate::item::{
    is_schedulable, schedulable, timeout, Item, INIT_INTERVAL_SECS, MAX_INTERVAL_SECS,
    MAX_JITTERED_SECS,
};
pub use crate::file::append;
pub use crate::time::Timestamp;
