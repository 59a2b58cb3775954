//! The decisions taken while reading the records of one input file (one game).

use vstd::prelude::*;
use crate::record::RECORD_SIZE;
use crate::fen::INPUT_CLASSICAL;
use crate::stats::StatsCounts;

verus! {

/// Records between two progress updates.
pub const PROGRESS_INTERVAL: usize = 1000;

/// What a read of up to `RECORD_SIZE` bytes gave.
#[derive(Clone, Copy, PartialEq, Eq, Structural, Debug)]
pub enum ChunkStep {
    /// Nothing was left: the file is done.
    End,
    /// Fewer bytes than a record: trailing garbage, the file is done.
    Trailing,
    /// A whole record.
    Record,
}

pub fn classify_chunk(total_read: usize) -> (r: ChunkStep)
    ensures
        total_read == 0 ==> r == ChunkStep::End,
        0 < total_read < RECORD_SIZE ==> r == ChunkStep::Trailing,
        total_read >= RECORD_SIZE ==> r == ChunkStep::Record,
{
    if total_read == 0 {
        ChunkStep::End
    } else if total_read < RECORD_SIZE {
        ChunkStep::Trailing
    } else {
        ChunkStep::Record
    }
}

/// What to do with the next record of a file.
#[derive(Clone, Copy, PartialEq, Eq, Structural, Debug)]
pub enum RecordStep {
    /// The bytes did not decode into a record.
    Unparsed,
    /// Not the classical input format (FRC or another variant): skipped.
    Variant,
    /// Before the first record to process (`--skip`).
    BeforeSkip,
    /// Process the record with this run-wide index at this game ply.
    Process { index: usize, ply: u16 },
}

/// Counters shared by all files of a run.
pub struct RunCounters {
    /// Index of the next record over the whole run.
    pub global_index: usize,
    /// Records processed so far.
    pub shown: usize,
}

/// State of the game being read.
pub struct GameScan {
    /// Ply of the next record in the game (saturating).
    pub ply: u16,
    /// The game already had its tablebase hit; no more probing.
    pub tb_hit_found: bool,
}

impl RunCounters {
    pub fn new() -> (r: Self)
        ensures
            r.global_index == 0 && r.shown == 0,
    {
        RunCounters { global_index: 0, shown: 0 }
    }

    /// The `--limit` has been reached.
    pub fn limit_reached(&self, limit: Option<usize>) -> (r: bool)
        ensures
            r == (limit matches Some(l) && self.shown >= l),
    {
        match limit {
            Some(l) => self.shown >= l,
            None => false,
        }
    }

    /// Count one processed record; returns whether a progress update is due.
    pub fn record_shown(&mut self) -> (due: bool)
        requires
            old(self).shown < usize::MAX,
        ensures
            final(self).shown == old(self).shown + 1,
            final(self).global_index == old(self).global_index,
            due == (final(self).shown % PROGRESS_INTERVAL == 0),
    {
        self.shown = self.shown + 1;
        self.shown % PROGRESS_INTERVAL == 0
    }
}

/// `p + 1`, staying at the maximum.
pub open spec fn next_ply(p: u16) -> u16 {
    if p == u16::MAX { p } else { (p + 1) as u16 }
}

impl GameScan {
    /// The state at the start of a game.
    pub fn new() -> (r: Self)
        ensures
            r.ply == 0 && !r.tb_hit_found,
    {
        GameScan { ply: 0, tb_hit_found: false }
    }

    /// Decide about the next record, whose input format is `input_format`
    /// (`None` when it could not be decoded).  Every record advances the
    /// run-wide index and the game ply, processed or not; records of other
    /// formats than the classical one are skipped and counted in `stats`,
    /// and records before the `skip` first are skipped too.
    pub fn next_record(
        &mut self,
        run: &mut RunCounters,
        stats: &mut StatsCounts,
        input_format: Option<u32>,
        skip: usize,
    ) -> (r: RecordStep)
        requires
            old(run).global_index < usize::MAX,
            input_format matches Some(f) && f != INPUT_CLASSICAL ==> old(stats).skipped_frc < usize::MAX,
        ensures
            final(stats).skipped_frc == old(stats).skipped_frc + (if r == RecordStep::Variant { 1int } else { 0 }),
            final(stats).total_records == old(stats).total_records,
            final(stats).total_visits == old(stats).total_visits,
            final(stats).adjudicated == old(stats).adjudicated,
            final(stats).proven_best == old(stats).proven_best,
            final(stats).version_counts@ == old(stats).version_counts@,
            final(stats).format_counts@ == old(stats).format_counts@,
            final(run).global_index == old(run).global_index + 1,
            final(run).shown == old(run).shown,
            final(self).ply == next_ply(old(self).ply),
            final(self).tb_hit_found == old(self).tb_hit_found,
            input_format is None ==> r == RecordStep::Unparsed,
            input_format matches Some(f) && f != INPUT_CLASSICAL ==> r == RecordStep::Variant,
            input_format == Some(INPUT_CLASSICAL) && old(run).global_index < skip ==> r == RecordStep::BeforeSkip,
            input_format == Some(INPUT_CLASSICAL) && old(run).global_index >= skip ==> r == (RecordStep::Process {
                index: old(run).global_index,
                ply: old(self).ply,
            }),
    {
        let index = run.global_index;
        let ply = self.ply;
        run.global_index = run.global_index + 1;
        self.ply = self.ply.saturating_add(1);
        match input_format {
            None => RecordStep::Unparsed,
            Some(f) => {
                if f != INPUT_CLASSICAL {
                    stats.skipped_frc = stats.skipped_frc + 1;
                    RecordStep::Variant
                } else if index < skip {
                    RecordStep::BeforeSkip
                } else {
                    RecordStep::Process { index, ply }
                }
            },
        }
    }

    /// Note whether the record just buffered gave the game's tablebase hit;
    /// after a hit the game is not probed again.
    pub fn note_buffered(&mut self, new_hit: bool)
        ensures
            final(self).tb_hit_found == (old(self).tb_hit_found || new_hit),
            final(self).ply == old(self).ply,
    {
        if new_hit {
            self.tb_hit_found = true;
        }
    }
}

/// Number of `true` entries of `s`.
pub open spec fn count_true(s: Seq<bool>) -> nat
    decreases s.len(),
{
    if s.len() == 0 {
        0
    } else {
        count_true(s.drop_last()) + (if s.last() { 1nat } else { 0nat })
    }
}

proof fn lemma_none_true(s: Seq<bool>)
    requires
        forall|i: int| 0 <= i < s.len() ==> !#[trigger] s[i],
    ensures
        count_true(s) == 0,
    decreases s.len(),
{
    if s.len() > 0 {
        assert forall|i: int| 0 <= i < s.drop_last().len() implies !#[trigger] s.drop_last()[i] by {
            assert(s.drop_last()[i] == s[i]);
        }
        lemma_none_true(s.drop_last());
    }
}

/// A game has at most one tablebase hit.  `hits[i]` tells whether the
/// `i`-th record buffered in a game gave a hit; once one has,
/// `note_buffered` sets `tb_hit_found`, and `buffer_record` never gives a
/// hit with that flag set, so no later record gives one.
pub proof fn law_at_most_one_hit_per_game(hits: Seq<bool>)
    requires
        forall|i: int, j: int| 0 <= j < i < hits.len() && #[trigger] hits[j] ==> !#[trigger] hits[i],
    ensures
        count_true(hits) <= 1,
    decreases hits.len(),
{
    if hits.len() > 0 {
        let rest = hits.drop_last();
        assert forall|i: int, j: int| 0 <= j < i < rest.len() && #[trigger] rest[j] implies !#[trigger] rest[i] by {
            assert(rest[j] == hits[j] && rest[i] == hits[i]);
        }
        law_at_most_one_hit_per_game(rest);
        if hits.last() {
            assert forall|i: int| 0 <= i < rest.len() implies !#[trigger] rest[i] by {
                assert(rest[i] == hits[i]);
                if hits[i] {
                    assert(!hits[hits.len() - 1]);
                }
            }
            lemma_none_true(rest);
        }
    }
}

} // verus!
