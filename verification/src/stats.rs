//! The integer tallies of the summary statistics of a run.

use vstd::prelude::*;
use std::collections::HashMap;
use crate::record::V6Record;

verus! {

broadcast use vstd::std_specs::hash::group_hash_axioms;

/// How often `k` has been counted in `m`.
pub open spec fn count_of(m: Map<u32, usize>, k: u32) -> int {
    if m.contains_key(k) { m[k] as int } else { 0 }
}

/// Record counts over a run; the averages of the search values are kept by
/// the caller.
pub struct StatsCounts {
    pub total_records: usize,
    /// Records skipped as non-classical (FRC / variant) input.
    pub skipped_frc: usize,
    pub total_visits: u64,
    pub adjudicated: usize,
    pub proven_best: usize,
    /// Records seen per format version.
    pub version_counts: HashMap<u32, usize>,
    /// Records seen per input format.
    pub format_counts: HashMap<u32, usize>,
}

impl StatsCounts {
    /// No count exceeds the number of records counted.
    pub open spec fn wf(&self) -> bool {
        &&& self.adjudicated <= self.total_records
        &&& self.proven_best <= self.total_records
        &&& forall|k: u32| #[trigger] count_of(self.version_counts@, k) <= self.total_records
        &&& forall|k: u32| #[trigger] count_of(self.format_counts@, k) <= self.total_records
    }

    pub fn new() -> (r: Self)
        ensures
            r.wf(),
            r.total_records == 0,
            r.skipped_frc == 0,
            r.total_visits == 0,
            r.adjudicated == 0,
            r.proven_best == 0,
            r.version_counts@ == Map::<u32, usize>::empty(),
            r.format_counts@ == Map::<u32, usize>::empty(),
    {
        StatsCounts {
            total_records: 0,
            skipped_frc: 0,
            total_visits: 0,
            adjudicated: 0,
            proven_best: 0,
            version_counts: HashMap::new(),
            format_counts: HashMap::new(),
        }
    }

    /// Count one record.
    pub fn update(&mut self, rec: &V6Record)
        requires
            old(self).wf(),
            old(self).total_records < usize::MAX,
            old(self).total_visits + rec.visits <= u64::MAX,
        ensures
            final(self).wf(),
            final(self).total_records == old(self).total_records + 1,
            final(self).skipped_frc == old(self).skipped_frc,
            final(self).total_visits == old(self).total_visits + rec.visits,
            final(self).adjudicated == old(self).adjudicated + (if rec.invariance_info & 0x20 != 0 { 1int } else { 0 }),
            final(self).proven_best == old(self).proven_best + (if rec.invariance_info & 0x08 != 0 { 1int } else { 0 }),
            final(self).version_counts@ == old(self).version_counts@.insert(
                rec.version,
                (count_of(old(self).version_counts@, rec.version) + 1) as usize,
            ),
            final(self).format_counts@ == old(self).format_counts@.insert(
                rec.input_format,
                (count_of(old(self).format_counts@, rec.input_format) + 1) as usize,
            ),
    {
        self.total_records = self.total_records + 1;
        self.total_visits = self.total_visits + rec.visits as u64;
        if rec.game_adjudicated() {
            self.adjudicated = self.adjudicated + 1;
        }
        if rec.best_q_is_proven() {
            self.proven_best = self.proven_best + 1;
        }
        let ghost vc = self.version_counts@;
        let ghost fc = self.format_counts@;
        bump(&mut self.version_counts, rec.version);
        bump(&mut self.format_counts, rec.input_format);
        assert forall|k: u32| #[trigger] count_of(self.version_counts@, k) <= self.total_records by {
            assert(count_of(vc, k) <= self.total_records - 1);
        }
        assert forall|k: u32| #[trigger] count_of(self.format_counts@, k) <= self.total_records by {
            assert(count_of(fc, k) <= self.total_records - 1);
        }
    }
}

/// Add one to the count of `k`.
fn bump(m: &mut HashMap<u32, usize>, k: u32)
    requires
        count_of(old(m)@, k) < usize::MAX,
    ensures
        final(m)@ == old(m)@.insert(k, (count_of(old(m)@, k) + 1) as usize),
{
    let current: usize = match m.get(&k) {
        Some(v) => *v,
        None => 0,
    };
    m.insert(k, current + 1);
}

} // verus!
