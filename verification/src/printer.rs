//! Per-record output detail.

use vstd::prelude::*;

verus! {

/// How much of each record is printed.
#[derive(Clone, Copy, PartialEq, Eq, Structural, Debug)]
pub enum Verbosity {
    /// One line per record.
    Brief,
    /// The key fields of each record.
    Normal,
    /// Everything, including the full policy and the input planes.
    Full,
}

} // verus!
