//! Printing a store for reading on paper.

pub mod typst;

use crate::item::Item;
use crate::print::typst::{typst, typst_table};
use vstd::prelude::*;

verus! {

/// What to print, and in which form.
#[derive(Debug)]
pub enum Print {
    /// A Typst table of questions and answers.
    Typst { input: Vec<Item> },
}

impl Print {
    /// The printed text.
    pub fn gogogo(&self) -> (output: String)
        ensures
            match *self {
                Print::Typst { input } => output@ == typst_table(input@),
            },
    {
        match self {
            Print::Typst { input } => typst(input),
        }
    }
}

} // verus!
