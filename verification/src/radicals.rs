//! The radical index lookup table, injected by the caller of `load`.
//!
//! Index `i` (starting at 1) names the table's `i`-th value; an index
//! outside the table is a lookup failure.

use crate::model::{ParseError, ParseErrorV};
use crate::model::result_view;
use vstd::prelude::*;

verus! {

/// The canonical value of each radical index, in index order: entry `i - 1`
/// is the value of index `i`.
pub struct RadicalTable {
    pub values: Vec<String>,
}

impl View for RadicalTable {
    type V = Seq<Seq<char>>;

    open spec fn view(&self) -> Seq<Seq<char>> {
        self.values@.map_values(|s: String| s@)
    }
}

/// What looking up `index` in `table` yields: the `index`-th value when
/// `1 <= index <= table.len()`, and a lookup failure otherwise.
pub open spec fn lookup_spec(table: Seq<Seq<char>>, index: u32) -> Result<Seq<char>, ParseErrorV> {
    if 1 <= index && index <= table.len() {
        Ok(table[index - 1])
    } else {
        Err(ParseErrorV::RadicalOutOfRange(index))
    }
}

impl RadicalTable {
    /// Resolves a radical index to its canonical value, failing exactly on
    /// indices outside the table.
    pub fn lookup(&self, index: u32) -> (r: Result<String, ParseError>)
        ensures
            result_view(r) == lookup_spec(self@, index),
    {
        if 1 <= index && (index as usize) <= self.values.len() {
            Ok(self.values[(index - 1) as usize].clone())
        } else {
            Err(ParseError::RadicalOutOfRange(index))
        }
    }
}

} // verus!
