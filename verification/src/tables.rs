//! The tablebase with a record of the directories added to it.

use vstd::prelude::*;
use crate::bindings::{StandardPosition, SyzygyTables, WdlValue};

verus! {

/// A tablebase together with the log of the directories handed to it, in
/// order, and the number of table files each one added.  Only
/// `add_directory` extends the log.  Every reading of the largest piece
/// count is recorded too, with the number of directories added by then.
pub struct TableSet {
    tables: SyzygyTables,
    log: Ghost<Seq<(Seq<char>, usize)>>,
    max_reads: Ghost<Seq<(nat, usize)>>,
}

/// The file counts of a log, in order.
pub open spec fn log_counts(log: Seq<(Seq<char>, usize)>) -> Seq<usize> {
    log.map_values(|e: (Seq<char>, usize)| e.1)
}

impl TableSet {
    /// The directories added so far and the file count each gave.
    pub closed spec fn log(&self) -> Seq<(Seq<char>, usize)> {
        self.log@
    }

    /// The readings of the largest piece count so far: the number of
    /// directories added at the time, and the value read.
    pub closed spec fn max_reads(&self) -> Seq<(nat, usize)> {
        self.max_reads@
    }

    /// A tablebase with no tables.
    pub fn new() -> (r: Self)
        ensures
            r.log() == Seq::<(Seq<char>, usize)>::empty(),
            r.max_reads() == Seq::<(nat, usize)>::empty(),
    {
        TableSet { tables: SyzygyTables::new(), log: Ghost(Seq::empty()), max_reads: Ghost(Seq::empty()) }
    }

    /// Add the table files of directory `dir`; on success the directory
    /// and the count the tablebase returned join the log.
    pub fn add_directory(&mut self, dir: &str) -> (r: Result<usize, String>)
        ensures
            r matches Ok(n) ==> final(self).log() == old(self).log().push((dir@, n)),
            r is Err ==> final(self).log() == old(self).log(),
            final(self).max_reads() == old(self).max_reads(),
    {
        let r = self.tables.add_directory(dir);
        match r {
            Ok(n) => {
                proof {
                    self.log@ = self.log@.push((dir@, n));
                }
                Ok(n)
            },
            Err(e) => Err(e),
        }
    }

    /// The largest piece count among the tables added; the reading joins
    /// the record of readings.
    pub fn max_pieces(&mut self) -> (r: usize)
        ensures
            final(self).max_reads() == old(self).max_reads().push((old(self).log().len(), r)),
            final(self).log() == old(self).log(),
    {
        let r = self.tables.max_pieces();
        proof {
            self.max_reads@ = self.max_reads@.push((self.log@.len(), r));
        }
        r
    }

    /// The tablebase's WDL value of the position, ignoring the 50-move
    /// counter, or `None` when it has no answer.
    pub fn probe_wdl_after_zeroing(&self, pos: &StandardPosition) -> (r: Option<WdlValue>) {
        self.tables.probe_wdl_after_zeroing(pos)
    }
}

} // verus!
