//! The lc0 policy move table: index -> UCI move in the side-to-move frame.
//!
//! The policy entries are, first, every queen-line or knight move
//! between two squares, ordered by origin square and then destination
//! square (a1 = 0 .. h8 = 63); then the promotions from the seventh
//! rank, ordered by origin file, destination file and piece (queen, rook,
//! bishop).

use vstd::prelude::*;

verus! {

pub open spec fn abs_diff(a: int, b: int) -> int {
    if a >= b { a - b } else { b - a }
}

/// `from -> to` is a queen-line or a knight move between distinct squares.
pub open spec fn is_policy_move(from: int, to: int) -> bool {
    let dr = abs_diff(from / 8, to / 8);
    let df = abs_diff(from % 8, to % 8);
    &&& from != to
    &&& (dr == 0 || df == 0 || dr == df || (dr == 1 && df == 2) || (dr == 2 && df == 1))
}

/// The plain policy moves whose code `from * 64 + to` is below `k`, in order.
pub open spec fn plain_moves(k: int) -> Seq<(int, int)>
    decreases k,
{
    if k <= 0 {
        seq![]
    } else {
        let from = (k - 1) / 64;
        let to = (k - 1) % 64;
        plain_moves(k - 1) + (if is_policy_move(from, to) { seq![(from, to)] } else { seq![] })
    }
}

/// The promotion piece letter of code `c` (0 queen, 1 rook, 2 bishop).
pub open spec fn promotion_char(c: int) -> char {
    if c == 0 { 'q' } else if c == 1 { 'r' } else { 'b' }
}

/// The promotion entries among the first `k` of the 72 candidates
/// `e = 9 * from_file + 3 * d + c`, moving from file `from_file` on the
/// seventh rank to file `from_file - 1 + d` on the eighth with piece `c`.
pub open spec fn promotion_moves(k: int) -> Seq<(int, int, char)>
    decreases k,
{
    if k <= 0 {
        seq![]
    } else {
        let e = k - 1;
        let from_file = e / 9;
        let to_file = from_file - 1 + (e / 3) % 3;
        promotion_moves(k - 1) + (if 0 <= to_file < 8 {
            seq![(48 + from_file, 56 + to_file, promotion_char(e % 3))]
        } else {
            seq![]
        })
    }
}

/// The letter of file `f` (0 = 'a').
pub open spec fn file_letter(f: int) -> char {
    ((97 + f) as u8) as char
}

/// The digit of rank `r` (0 = '1').
pub open spec fn rank_digit(r: int) -> char {
    ((49 + r) as u8) as char
}

/// UCI text of a square.
pub open spec fn square_text(sq: int) -> Seq<char> {
    seq![file_letter(sq % 8), rank_digit(sq / 8)]
}

/// Number of entries of the policy move table.
pub open spec fn policy_len() -> int {
    (plain_moves(4096).len() + promotion_moves(72).len()) as int
}

/// UCI text of the policy move with index `idx`, if there is one.
pub open spec fn policy_move_text(idx: int) -> Option<Seq<char>> {
    let plain = plain_moves(4096);
    let promos = promotion_moves(72);
    if 0 <= idx < plain.len() {
        Some(square_text(plain[idx].0) + square_text(plain[idx].1))
    } else if plain.len() <= idx < plain.len() + promos.len() {
        let m = promos[idx - plain.len()];
        Some(square_text(m.0) + square_text(m.1).push(m.2))
    } else {
        None
    }
}

proof fn lemma_plain_moves_len(k: int)
    requires
        k >= 0,
    ensures
        plain_moves(k).len() <= k,
    decreases k,
{
    if k > 0 {
        lemma_plain_moves_len(k - 1);
    }
}

/// Entries do not move when the table grows.
proof fn lemma_plain_moves_prefix(j: int, k: int)
    requires
        0 <= j <= k,
    ensures
        plain_moves(j).len() <= plain_moves(k).len(),
        forall|i: int| 0 <= i < plain_moves(j).len() ==> #[trigger] plain_moves(k)[i] == plain_moves(j)[i],
    decreases k - j,
{
    if j < k {
        lemma_plain_moves_prefix(j, k - 1);
    }
}

proof fn lemma_promotion_moves_prefix(j: int, k: int)
    requires
        0 <= j <= k,
    ensures
        promotion_moves(j).len() <= promotion_moves(k).len(),
        forall|i: int|
            0 <= i < promotion_moves(j).len() ==> #[trigger] promotion_moves(k)[i] == promotion_moves(j)[i],
    decreases k - j,
{
    if j < k {
        lemma_promotion_moves_prefix(j, k - 1);
    }
}

fn abs_diff_exec(a: u64, b: u64) -> (r: u64)
    ensures
        r == abs_diff(a as int, b as int),
{
    if a >= b { a - b } else { b - a }
}

fn is_policy_move_exec(from: u64, to: u64) -> (r: bool)
    requires
        from < 64,
        to < 64,
    ensures
        r == is_policy_move(from as int, to as int),
{
    let dr = abs_diff_exec(from / 8, to / 8);
    let df = abs_diff_exec(from % 8, to % 8);
    from != to && (dr == 0 || df == 0 || dr == df || (dr == 1 && df == 2) || (dr == 2 && df == 1))
}

fn push_square(s: &mut String, sq: u64)
    requires
        sq < 64,
    ensures
        final(s)@ == old(s)@ + square_text(sq as int),
{
    s.push(((97 + sq % 8) as u8) as char);
    s.push(((49 + sq / 8) as u8) as char);
    assert(final(s)@ =~= old(s)@ + square_text(sq as int));
}

/// Number of plain policy moves (queen-line and knight moves).
fn count_plain_moves() -> (n: u64)
    ensures
        n == plain_moves(4096).len(),
{
    let mut k: u64 = 0;
    let mut n: u64 = 0;
    while k < 4096
        invariant
            k <= 4096,
            n == plain_moves(k as int).len(),
            n <= k,
        decreases 4096 - k,
    {
        if is_policy_move_exec(k / 64, k % 64) {
            n = n + 1;
        }
        k = k + 1;
    }
    n
}

/// Number of entries of the policy move table.
pub fn policy_table_len() -> (n: usize)
    ensures
        n == policy_len(),
        n >= 1,
{
    let plain = count_plain_moves();
    proof {
        lemma_plain_moves_len(4096);
    }
    let mut e: u64 = 0;
    let mut promos: u64 = 0;
    while e < 72
        invariant
            e <= 72,
            promos == promotion_moves(e as int).len(),
            promos <= e,
        decreases 72 - e,
    {
        let from_file = e / 9;
        let d = (e / 3) % 3;
        if from_file + d >= 1 && from_file + d - 1 < 8 {
            promos = promos + 1;
        }
        e = e + 1;
    }
    assert(promotion_moves(4).len() == 1) by {
        reveal_with_fuel(promotion_moves, 5);
    }
    proof {
        lemma_promotion_moves_prefix(4, 72);
        lemma_plain_moves_len(4096);
    }
    (plain + promos) as usize
}

/// The UCI text (side-to-move frame) of the policy move with index `idx`,
/// or `None` when `idx` lies beyond the table.
pub fn idx_to_move(idx: u16) -> (r: Option<String>)
    ensures
        match (r, policy_move_text(idx as int)) {
            (Some(s), Some(t)) => s@ == t,
            (None, None) => true,
            _ => false,
        },
{
    let total_plain = count_plain_moves();
    let target = idx as u64;
    if target < total_plain {
        let mut k: u64 = 0;
        let mut n: u64 = 0;
        while k < 4096
            invariant
                k <= 4096,
                n == plain_moves(k as int).len(),
                n <= target,
                target == idx,
                target < plain_moves(4096).len(),
            decreases 4096 - k,
        {
            let from = k / 64;
            let to = k % 64;
            if is_policy_move_exec(from, to) {
                if n == target {
                    proof {
                        lemma_plain_moves_prefix(k + 1, 4096);
                        assert(plain_moves(k + 1)[n as int] == (from as int, to as int));
                    }
                    let mut s = String::new();
                    push_square(&mut s, from);
                    push_square(&mut s, to);
                    assert(plain_moves(4096)[target as int] == (from as int, to as int));
                    assert(s@ =~= square_text(from as int) + square_text(to as int));
                    return Some(s);
                }
                n = n + 1;
            }
            k = k + 1;
        }
        proof {
            lemma_plain_moves_prefix(k as int, 4096);
        }
        return None;
    }
    let j = target - total_plain;
    let mut e: u64 = 0;
    let mut n: u64 = 0;
    while e < 72
        invariant
            e <= 72,
            n == promotion_moves(e as int).len(),
            n <= e,
            n <= j,
            j == idx - plain_moves(4096).len(),
        decreases 72 - e,
    {
        let from_file = e / 9;
        let d = (e / 3) % 3;
        if from_file + d >= 1 && from_file + d - 1 < 8 {
            let to_file = from_file + d - 1;
            if n == j {
                proof {
                    lemma_promotion_moves_prefix(e + 1, 72);
                    assert(promotion_moves(e + 1)[n as int] == (
                        48 + from_file,
                        56 + to_file,
                        promotion_char((e % 3) as int),
                    ));
                }
                let mut s = String::new();
                push_square(&mut s, 48 + from_file);
                push_square(&mut s, 56 + to_file);
                let c = e % 3;
                s.push(if c == 0 { 'q' } else if c == 1 { 'r' } else { 'b' });
                assert(s@ =~= square_text((48 + from_file) as int) + square_text(
                    (56 + to_file) as int,
                ).push(promotion_char(c as int)));
                return Some(s);
            }
            n = n + 1;
        }
        e = e + 1;
    }
    proof {
        lemma_promotion_moves_prefix(e as int, 72);
    }
    None
}

} // verus!
