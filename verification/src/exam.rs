//! A review session: choose the items to go over, let the learner mark
//! them, fold the marks back into the store.

pub mod selected;

pub use self::selected::{Checkpoint, RestoreError, Selected, SelectionEntry};

use crate::exam::selected::fed_back;
use crate::item::{schedulable, Item};
use crate::time::Timestamp;
use vstd::prelude::*;

verus! {

/// How one review session is set up.
#[derive(Debug)]
pub struct Exam {
    /// The file of the memory palace under review.
    pub file_name: String,
    /// Go over at most this many items.
    pub take: Option<usize>,
    /// Do everything except writing the store back.
    pub dry_run: bool,
    /// Present the items sorted by question instead of shuffled.
    pub sort: bool,
}

impl Exam {
    /// Ends `session` at `now` and says what is to be written back: the
    /// reviewed store, or nothing in a dry run. The marks are recorded either
    /// way, and the session is left empty.
    pub fn finish(&self, session: &mut Selected, now: &Timestamp) -> (output: Option<Vec<Item>>)
        requires
            old(session).wf(),
            schedulable(*now),
        ensures
            output is None <==> self.dry_run,
            output matches Some(items) ==> fed_back(
                old(session).store(),
                old(session).entries(),
                *now,
                items@,
            ),
            final(session).store().len() == 0,
            final(session).entries().len() == 0,
            final(session).wf(),
    {
        let items = session.feedback(now);
        if self.dry_run {
            None
        } else {
            Some(items)
        }
    }
}

} // verus!
