//! State of the terminal progress display.  Drawing it is the caller's
//! business; this keeps what it shows.

use vstd::prelude::*;
use std::time::Instant;
use crate::bindings::instant_now;

verus! {

pub struct Progress {
    start: Instant,
    processed: usize,
    written: usize,
    skipped: usize,
    current_file: String,
}

impl Progress {
    pub closed spec fn spec_start(&self) -> Instant {
        self.start
    }

    pub closed spec fn spec_processed(&self) -> usize {
        self.processed
    }

    pub closed spec fn spec_written(&self) -> usize {
        self.written
    }

    pub closed spec fn spec_skipped(&self) -> usize {
        self.skipped
    }

    pub closed spec fn spec_current_file(&self) -> Seq<char> {
        self.current_file@
    }

    /// A display started now, with nothing processed and no file.
    pub fn new() -> (r: Self)
        ensures
            r.spec_processed() == 0,
            r.spec_written() == 0,
            r.spec_skipped() == 0,
            r.spec_current_file() == Seq::<char>::empty(),
    {
        Progress { start: instant_now(), processed: 0, written: 0, skipped: 0, current_file: String::new() }
    }

    /// Name the file being processed.
    pub fn set_file(&mut self, name: &str)
        ensures
            final(self).spec_current_file() == name@,
            final(self).spec_start() == old(self).spec_start(),
            final(self).spec_processed() == old(self).spec_processed(),
            final(self).spec_written() == old(self).spec_written(),
            final(self).spec_skipped() == old(self).spec_skipped(),
    {
        self.current_file = name.to_owned();
    }

    /// Record the counts to show; skipped records are the FRC/variant ones
    /// and the failed ones together.
    pub fn update(&mut self, processed: usize, written: usize, skipped_frc: usize, skipped_err: usize)
        requires
            skipped_frc + skipped_err <= usize::MAX,
        ensures
            final(self).spec_processed() == processed,
            final(self).spec_written() == written,
            final(self).spec_skipped() == skipped_frc + skipped_err,
            final(self).spec_current_file() == old(self).spec_current_file(),
            final(self).spec_start() == old(self).spec_start(),
    {
        self.processed = processed;
        self.written = written;
        self.skipped = skipped_frc + skipped_err;
    }

    /// When the display started.
    pub fn start(&self) -> (r: Instant)
        ensures
            r == self.spec_start(),
    {
        self.start
    }

    pub fn processed(&self) -> (r: usize)
        ensures
            r == self.spec_processed(),
    {
        self.processed
    }

    pub fn written(&self) -> (r: usize)
        ensures
            r == self.spec_written(),
    {
        self.written
    }

    pub fn skipped(&self) -> (r: usize)
        ensures
            r == self.spec_skipped(),
    {
        self.skipped
    }

    pub fn current_file(&self) -> (r: &str)
        ensures
            r@ == self.spec_current_file(),
    {
        self.current_file.as_str()
    }
}

} // verus!
