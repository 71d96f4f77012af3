//! What came of reading a file.

use vstd::prelude::*;

verus! {

/// What came of reading a text file.
#[derive(Debug)]
pub enum FileText {
    /// There is no such file.
    Absent,
    /// It could not be read, for the reason given.
    Unread(String),
    /// What it holds.
    Text(String),
}

} // verus!
