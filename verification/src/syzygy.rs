//! Syzygy endgame tablebase probing.
//!
//! Positions with more than seven pieces are never probed.  A WDL value is
//! collapsed to +1 (win, cursed win included), 0 (draw) or -1 (loss,
//! blessed loss included), relative to the side to move.

use vstd::prelude::*;
use crate::bindings::{StandardPosition, WdlValue, shakmaty_piece_count, sm_piece_count};
use crate::tables::{TableSet, log_counts};

verus! {

/// Maximum piece count for which Syzygy tables exist.
pub const MAX_PIECES: usize = 7;

/// Summary of the table files discovered at load time.
#[derive(Clone, Copy)]
pub struct TableInventory {
    /// Total number of table files added over all directories.
    pub file_count: usize,
    /// Largest piece count among the tables added (0 when there are none).
    pub max_pieces: usize,
}

impl Default for TableInventory {
    fn default() -> (r: Self)
        ensures
            r.file_count == 0 && r.max_pieces == 0,
    {
        TableInventory { file_count: 0, max_pieces: 0 }
    }
}

/// `a + b`, staying at `usize::MAX`.
pub open spec fn capped_add(a: nat, b: nat) -> nat {
    if a + b > usize::MAX { usize::MAX as nat } else { a + b }
}

/// The sum of `counts`, added in order and capped at `usize::MAX`.
pub open spec fn capped_sum(counts: Seq<usize>) -> nat
    decreases counts.len(),
{
    if counts.len() == 0 {
        0
    } else {
        capped_add(capped_sum(counts.drop_last()), counts.last() as nat)
    }
}

/// The inventory of tables added with the per-directory file counts
/// `counts` to a tablebase whose largest piece count is `max_pieces`.
pub open spec fn inventory_of(counts: Seq<usize>, max_pieces: usize) -> TableInventory {
    TableInventory { file_count: capped_sum(counts) as usize, max_pieces }
}

proof fn lemma_capped_sum_bound(counts: Seq<usize>)
    ensures
        capped_sum(counts) <= usize::MAX,
    decreases counts.len(),
{
    if counts.len() > 0 {
        lemma_capped_sum_bound(counts.drop_last());
    }
}

/// The inventory from the file count of every directory and the largest
/// piece count of the tablebase.
pub fn table_inventory(counts: &Vec<usize>, max_pieces: usize) -> (r: TableInventory)
    ensures
        r == inventory_of(counts@, max_pieces),
{
    let mut total: usize = 0;
    let mut i: usize = 0;
    while i < counts.len()
        invariant
            i <= counts@.len(),
            total == capped_sum(counts@.take(i as int)),
        decreases counts@.len() - i,
    {
        proof {
            assert(counts@.take(i + 1).drop_last() =~= counts@.take(i as int));
            lemma_capped_sum_bound(counts@.take(i as int));
        }
        total = total.saturating_add(counts[i]);
        i = i + 1;
    }
    assert(counts@.take(counts@.len() as int) =~= counts@);
    TableInventory { file_count: total, max_pieces }
}

/// The pieces of `s` between occurrences of `sep`, as `str::split` gives
/// them (empty pieces included).
pub open spec fn split_seq(s: Seq<char>, sep: char) -> Seq<Seq<char>>
    decreases s.len(),
{
    if s.len() == 0 {
        seq![Seq::<char>::empty()]
    } else {
        let rest = split_seq(s.drop_last(), sep);
        if s.last() == sep {
            rest.push(Seq::<char>::empty())
        } else {
            rest.update(rest.len() - 1, rest.last().push(s.last()))
        }
    }
}

proof fn lemma_split_seq_nonempty(s: Seq<char>, sep: char)
    ensures
        split_seq(s, sep).len() >= 1,
    decreases s.len(),
{
    if s.len() > 0 {
        lemma_split_seq_nonempty(s.drop_last(), sep);
    }
}

/// Split `s` at every `sep`.
pub fn split_paths(s: &str, sep: char) -> (r: Vec<String>)
    ensures
        r@.len() == split_seq(s@, sep).len(),
        forall|i: int| 0 <= i < r@.len() ==> #[trigger] r@[i]@ == split_seq(s@, sep)[i],
{
    let n = s.unicode_len();
    let mut done: Vec<String> = Vec::new();
    let mut cur = String::new();
    let mut i: usize = 0;
    while i < n
        invariant
            i <= n,
            n == s@.len(),
            split_seq(s@.take(i as int), sep).len() == done@.len() + 1,
            forall|j: int|
                0 <= j < done@.len() ==> #[trigger] done@[j]@ == split_seq(s@.take(i as int), sep)[j],
            cur@ == split_seq(s@.take(i as int), sep).last(),
        decreases n - i,
    {
        let c = s.get_char(i);
        proof {
            assert(s@.take(i + 1).drop_last() =~= s@.take(i as int));
            lemma_split_seq_nonempty(s@.take(i as int), sep);
        }
        if c == sep {
            done.push(cur);
            cur = String::new();
        } else {
            cur.push(c);
        }
        i = i + 1;
    }
    done.push(cur);
    proof {
        assert(s@.take(n as int) =~= s@);
    }
    done
}

/// The side-to-move relative result of a WDL value: +1, 0 or -1.
pub open spec fn wdl_sign(w: WdlValue) -> int {
    match w {
        WdlValue::Loss | WdlValue::BlessedLoss => -1,
        WdlValue::Draw => 0,
        WdlValue::CursedWin | WdlValue::Win => 1,
    }
}

pub fn wdl_signum(w: WdlValue) -> (r: i16)
    ensures
        r == wdl_sign(w),
{
    match w {
        WdlValue::Loss | WdlValue::BlessedLoss => -1,
        WdlValue::Draw => 0,
        WdlValue::CursedWin | WdlValue::Win => 1,
    }
}

/// The side-to-move result of a tablebase answer: `None` stays `None`.
pub open spec fn spec_signed_answer(a: Option<WdlValue>) -> Option<i16> {
    match a {
        Some(w) => Some(wdl_sign(w) as i16),
        None => None,
    }
}

/// The probe's result for the tablebase's answer `answer`.
pub fn signed_answer(answer: Option<WdlValue>) -> (r: Option<i16>)
    ensures
        r == spec_signed_answer(answer),
{
    match answer {
        Some(w) => Some(wdl_signum(w)),
        None => None,
    }
}

/// A tablebase answer keeps its sense from the side to move: a win or a
/// cursed win is +1, a draw 0, a loss or a blessed loss -1, and no answer
/// is no result.  Negating the answer turns a win into -1.
pub proof fn law_answer_keeps_its_sense(a: Option<WdlValue>)
    ensures
        a == Some(WdlValue::Win) || a == Some(WdlValue::CursedWin) ==> spec_signed_answer(a) == Some(1i16),
        a == Some(WdlValue::Draw) ==> spec_signed_answer(a) == Some(0i16),
        a == Some(WdlValue::Loss) || a == Some(WdlValue::BlessedLoss) ==> spec_signed_answer(a) == Some(-1i16),
        a is None ==> spec_signed_answer(a) is None,
{
}

/// The start of the message for a directory that cannot be loaded.
pub open spec fn load_failure_prefix(dir: Seq<char>) -> Seq<char> {
    "syzygy: failed to load "@ + dir + ": "@
}

/// Thin wrapper around the tablebase.  Constructed once and shared for a
/// whole run; probing is meant to stop at the first hit of a game.
pub struct SyzygyProber {
    tables: TableSet,
    loaded: bool,
    inventory: TableInventory,
}

impl SyzygyProber {
    pub closed spec fn spec_loaded(&self) -> bool {
        self.loaded
    }

    pub closed spec fn spec_inventory(&self) -> TableInventory {
        self.inventory
    }

    /// The directories added to the tablebase, in order, with the number
    /// of table files each one added.
    pub closed spec fn spec_log(&self) -> Seq<(Seq<char>, usize)> {
        self.tables.log()
    }

    /// The readings of the tablebase's largest piece count: the number of
    /// directories added at the time, and the value read.
    pub closed spec fn spec_max_reads(&self) -> Seq<(nat, usize)> {
        self.tables.max_reads()
    }

    /// A prober with no tables loaded: every probe returns `None`.
    pub fn disabled() -> (r: Self)
        ensures
            !r.spec_loaded(),
            r.spec_inventory().file_count == 0,
            r.spec_inventory().max_pieces == 0,
            r.spec_log().len() == 0,
            r.spec_max_reads().len() == 0,
    {
        SyzygyProber { tables: TableSet::new(), loaded: false, inventory: TableInventory::default() }
    }

    /// Load the table files of every directory of `path`, where directories
    /// are separated by `separator`, in order.  Fails on the first directory
    /// that cannot be read, naming it.  The inventory sums the per-directory
    /// file counts (capped at `usize::MAX`) and takes the tablebase's
    /// largest piece count.
    pub fn load(path: &str, separator: char) -> (r: Result<Self, String>)
        ensures
            r matches Ok(p) ==> {
                &&& p.spec_loaded()
                &&& p.spec_log().len() == split_seq(path@, separator).len()
                &&& forall|j: int|
                    0 <= j < p.spec_log().len() ==> #[trigger] p.spec_log()[j].0 == split_seq(path@, separator)[j]
                &&& exists|m: usize| #[trigger] inventory_of(log_counts(p.spec_log()), m) == p.spec_inventory()
                &&& p.spec_max_reads().len() > 0
                &&& p.spec_max_reads().last() == (
                    split_seq(path@, separator).len(),
                    p.spec_inventory().max_pieces,
                )
            },
            r matches Err(msg) ==> exists|i: int|
                0 <= i < split_seq(path@, separator).len() && load_failure_prefix(
                    #[trigger] split_seq(path@, separator)[i],
                ).is_prefix_of(msg@),
    {
        let dirs = split_paths(path, separator);
        let mut tables = TableSet::new();
        let mut counts: Vec<usize> = Vec::new();
        let mut i: usize = 0;
        while i < dirs.len()
            invariant
                i <= dirs@.len(),
                counts@.len() == i,
                tables.log().len() == i,
                tables.max_reads().len() == 0,
                counts@ == log_counts(tables.log()),
                forall|j: int| 0 <= j < i ==> #[trigger] tables.log()[j].0 == split_seq(path@, separator)[j],
                dirs@.len() == split_seq(path@, separator).len(),
                forall|j: int| 0 <= j < dirs@.len() ==> #[trigger] dirs@[j]@ == split_seq(path@, separator)[j],
            decreases dirs@.len() - i,
        {
            let ghost before = tables.log();
            match tables.add_directory(dirs[i].as_str()) {
                Ok(added) => {
                    counts.push(added);
                    assert(log_counts(tables.log()) =~= log_counts(before).push(added));
                },
                Err(e) => {
                    let mut msg = "syzygy: failed to load ".to_owned();
                    msg.append(dirs[i].as_str());
                    msg.append(": ");
                    msg.append(e.as_str());
                    assert(load_failure_prefix(split_seq(path@, separator)[i as int]).is_prefix_of(msg@)) by {
                        assert(msg@ =~= load_failure_prefix(split_seq(path@, separator)[i as int]) + e@);
                        assert(msg@.take(load_failure_prefix(split_seq(path@, separator)[i as int]).len() as int)
                            =~= load_failure_prefix(split_seq(path@, separator)[i as int]));
                    }
                    return Err(msg);
                },
            }
            i = i + 1;
        }
        let max_pieces = tables.max_pieces();
        let inventory = table_inventory(&counts, max_pieces);
        assert(inventory_of(log_counts(tables.log()), max_pieces) == inventory);
        let p = SyzygyProber { tables, loaded: true, inventory };
        assert(p.spec_log().len() == split_seq(path@, separator).len());
        assert(forall|j: int|
            0 <= j < p.spec_log().len() ==> #[trigger] p.spec_log()[j].0 == split_seq(path@, separator)[j]);
        assert(inventory_of(log_counts(p.spec_log()), max_pieces) == p.spec_inventory());
        assert(p.spec_max_reads().last() == (split_seq(path@, separator).len(), max_pieces));
        Ok(p)
    }

    /// `true` if tables were loaded.
    pub fn is_loaded(&self) -> (r: bool)
        ensures
            r == self.spec_loaded(),
    {
        self.loaded
    }

    /// Inventory of the table files found at load time (zero unless loaded).
    pub fn inventory(&self) -> (r: TableInventory)
        ensures
            r == self.spec_inventory(),
    {
        self.inventory
    }

    /// Probe a position: `Some(+1 / 0 / -1)` from the side to move's point
    /// of view, or `None` when no tables are loaded, the position has more
    /// than seven pieces, or the tablebase has no answer.
    pub fn probe(&self, _fen: &str, pos: &StandardPosition) -> (r: Option<i16>)
        ensures
            !self.spec_loaded() ==> r is None,
            shakmaty_piece_count(pos@) > MAX_PIECES ==> r is None,
            r matches Some(v) ==> -1 <= v <= 1,
    {
        if !self.loaded {
            return None;
        }
        let piece_count = sm_piece_count(pos);
        if piece_count > MAX_PIECES {
            return None;
        }
        signed_answer(self.tables.probe_wdl_after_zeroing(pos))
    }
}

} // verus!
