//! FEN reconstruction from the input planes of a V6 record.
//!
//! The planes hold 8 history slots of 13 planes; slot 0 (planes 0..12) is
//! the current position: planes 0..6 are the pieces of the side to move
//! (pawn, knight, bishop, rook, queen, king), planes 6..12 those of the
//! opponent.  Each plane is stored with the bits of every byte reversed,
//! and the board is mirrored vertically when Black is to move.  In the
//! classical input format an en-passant file is marked by a phantom pawn
//! of the opponent on the first rank of the side-to-move frame.

use vstd::prelude::*;
use crate::record::V6Record;
use crate::text::{decimal, digit_char, digit_to_char, push_decimal};

verus! {

/// Bit `i` of `v` is set.
pub open spec fn bit(v: u64, i: int) -> bool {
    (v >> (i as u64)) & 1 == 1
}

/// The square with the same rank and the mirrored file (a <-> h).
pub open spec fn mirror_file_sq(sq: int) -> int {
    sq - sq % 8 + (7 - sq % 8)
}

/// The square with the same file and the mirrored rank (1 <-> 8).
pub open spec fn mirror_rank_sq(sq: int) -> int {
    8 * (7 - sq / 8) + sq % 8
}

proof fn lemma_xor7(i: u64)
    requires
        i < 64,
    ensures
        (i ^ 7) as int == mirror_file_sq(i as int),
        (i ^ 56) as int == mirror_rank_sq(i as int),
{
    assert(i < 64 ==> (i ^ 7) == i - i % 8 + (7 - i % 8)) by (bit_vector);
    assert(i < 64 ==> (i ^ 56) == 8 * (7 - i / 8) + i % 8) by (bit_vector);
}

/// Exchange the bit groups selected by `mask` with their neighbours `shift` bits higher.
pub open spec fn swap_groups(v: u64, shift: u64, mask: u64) -> u64 {
    ((v >> shift) & mask) | ((v & mask) << shift)
}

fn swap_bit_groups(v: u64, shift: u64, mask: u64) -> (r: u64)
    requires
        shift < 64,
    ensures
        r == swap_groups(v, shift, mask),
{
    ((v >> shift) & mask) | ((v & mask) << shift)
}

proof fn lemma_reverse_bits_in_bytes(v: u64, i: u64)
    by (bit_vector)
    requires
        i < 64,
    ensures
        (swap_groups(
            swap_groups(swap_groups(v, 1, 0x5555_5555_5555_5555), 2, 0x3333_3333_3333_3333),
            4,
            0x0F0F_0F0F_0F0F_0F0F,
        ) >> i) & 1 == (v >> (i ^ 7)) & 1,
{
}

/// `v` with the bits of every byte in reverse order.
pub open spec fn reversed_in_bytes(v: u64) -> u64 {
    swap_groups(
        swap_groups(swap_groups(v, 1, 0x5555_5555_5555_5555), 2, 0x3333_3333_3333_3333),
        4,
        0x0F0F_0F0F_0F0F_0F0F,
    )
}

/// `v` with its bytes in reverse order.
pub open spec fn bytes_reversed(v: u64) -> u64 {
    swap_groups(
        swap_groups(swap_groups(v, 8, 0x00FF_00FF_00FF_00FF), 16, 0x0000_FFFF_0000_FFFF),
        32,
        0x0000_0000_FFFF_FFFF,
    )
}

/// Undo the reversal of the bits within every byte (mirror every rank).
pub fn reverse_bits_in_bytes(v: u64) -> (r: u64)
    ensures
        r == reversed_in_bytes(v),
        forall|i: int| 0 <= i < 64 ==> #[trigger] bit(r, i) == bit(v, mirror_file_sq(i)),
{
    let a = swap_bit_groups(v, 1, 0x5555_5555_5555_5555);
    let b = swap_bit_groups(a, 2, 0x3333_3333_3333_3333);
    let r = swap_bit_groups(b, 4, 0x0F0F_0F0F_0F0F_0F0F);
    assert forall|i: int| 0 <= i < 64 implies #[trigger] bit(r, i) == bit(v, mirror_file_sq(i)) by {
        lemma_reverse_bits_in_bytes(v, i as u64);
        lemma_xor7(i as u64);
    }
    r
}

proof fn lemma_flip_vertical(v: u64, i: u64)
    by (bit_vector)
    requires
        i < 64,
    ensures
        (swap_groups(
            swap_groups(swap_groups(v, 8, 0x00FF_00FF_00FF_00FF), 16, 0x0000_FFFF_0000_FFFF),
            32,
            0x0000_0000_FFFF_FFFF,
        ) >> i) & 1 == (v >> (i ^ 56)) & 1,
{
}

/// Flip the board vertically (rank 1 <-> rank 8): the byte order is reversed.
pub fn flip_vertical(v: u64) -> (r: u64)
    ensures
        r == bytes_reversed(v),
        forall|i: int| 0 <= i < 64 ==> #[trigger] bit(r, i) == bit(v, mirror_rank_sq(i)),
{
    let a = swap_bit_groups(v, 8, 0x00FF_00FF_00FF_00FF);
    let b = swap_bit_groups(a, 16, 0x0000_FFFF_0000_FFFF);
    let r = swap_bit_groups(b, 32, 0x0000_0000_FFFF_FFFF);
    assert forall|i: int| 0 <= i < 64 implies #[trigger] bit(r, i) == bit(v, mirror_rank_sq(i)) by {
        lemma_flip_vertical(v, i as u64);
        lemma_xor7(i as u64);
    }
    r
}

/// Reversing the bits of every byte twice, or the order of the bytes
/// twice, gives the value back.
pub proof fn law_reversals_undo_themselves(v: u64)
    ensures
        reversed_in_bytes(reversed_in_bytes(v)) == v,
        bytes_reversed(bytes_reversed(v)) == v,
{
    assert(reversed_in_bytes(reversed_in_bytes(v)) == v) by (bit_vector);
    assert(bytes_reversed(bytes_reversed(v)) == v) by (bit_vector);
}

/// Decode one stored plane into a standard bitboard of the side-to-move
/// frame (bit N = square N, a1 = 0, h1 = 7, a8 = 56, h8 = 63).
pub fn decode_plane(raw: u64) -> (r: u64)
    ensures
        r == reversed_in_bytes(raw),
        forall|i: int| 0 <= i < 64 ==> #[trigger] bit(r, i) == bit(raw, mirror_file_sq(i)),
{
    reverse_bits_in_bytes(raw)
}

// ── Pieces ───────────────────────────────────────────────────────────────────

/// The `input_format` of the classical encoding.
pub const INPUT_CLASSICAL: u32 = 1;

#[derive(Clone, Copy, PartialEq, Eq, Structural, Debug)]
pub enum Piece {
    WP,
    WN,
    WB,
    WR,
    WQ,
    WK,
    BP,
    BN,
    BB,
    BR,
    BQ,
    BK,
}

impl Piece {
    /// The FEN letter of the piece.
    pub open spec fn spec_char(self) -> char {
        match self {
            Piece::WP => 'P',
            Piece::WN => 'N',
            Piece::WB => 'B',
            Piece::WR => 'R',
            Piece::WQ => 'Q',
            Piece::WK => 'K',
            Piece::BP => 'p',
            Piece::BN => 'n',
            Piece::BB => 'b',
            Piece::BR => 'r',
            Piece::BQ => 'q',
            Piece::BK => 'k',
        }
    }

    pub fn to_char(self) -> (c: char)
        ensures
            c == self.spec_char(),
    {
        match self {
            Piece::WP => 'P',
            Piece::WN => 'N',
            Piece::WB => 'B',
            Piece::WR => 'R',
            Piece::WQ => 'Q',
            Piece::WK => 'K',
            Piece::BP => 'p',
            Piece::BN => 'n',
            Piece::BB => 'b',
            Piece::BR => 'r',
            Piece::BQ => 'q',
            Piece::BK => 'k',
        }
    }
}

/// The piece of colour `white` and kind `t` (0 pawn .. 5 king).
pub open spec fn piece_of(white: bool, t: int) -> Piece {
    if white {
        if t == 0 { Piece::WP } else if t == 1 { Piece::WN } else if t == 2 { Piece::WB }
        else if t == 3 { Piece::WR } else if t == 4 { Piece::WQ } else { Piece::WK }
    } else {
        if t == 0 { Piece::BP } else if t == 1 { Piece::BN } else if t == 2 { Piece::BB }
        else if t == 3 { Piece::BR } else if t == 4 { Piece::BQ } else { Piece::BK }
    }
}

fn make_piece(white: bool, t: usize) -> (p: Piece)
    requires
        t < 6,
    ensures
        p == piece_of(white, t as int),
{
    if white {
        if t == 0 { Piece::WP } else if t == 1 { Piece::WN } else if t == 2 { Piece::WB }
        else if t == 3 { Piece::WR } else if t == 4 { Piece::WQ } else { Piece::WK }
    } else {
        if t == 0 { Piece::BP } else if t == 1 { Piece::BN } else if t == 2 { Piece::BB }
        else if t == 3 { Piece::BR } else if t == 4 { Piece::BQ } else { Piece::BK }
    }
}

// ── The position shown by a record ───────────────────────────────────────────

/// Black is to move: canonical formats keep the side in bit 7 of
/// `invariance_info`, the classical format in `side_to_move_or_enpassant`.
pub open spec fn black_to_move(rec: V6Record) -> bool {
    if rec.input_format != INPUT_CLASSICAL {
        rec.invariance_info & 0x80 != 0
    } else {
        rec.side_to_move_or_enpassant != 0
    }
}

/// The square of the side-to-move frame shown at standard square `sq`.
pub open spec fn frame_sq(black: bool, sq: int) -> int {
    if black { mirror_rank_sq(sq) } else { sq }
}

/// Plane `p` of the current slot (0..12) puts a piece on standard square
/// `sq`.  First-rank bits of the opponent's pawn plane mark en passant and
/// are no pieces.
pub open spec fn plane_marks(rec: V6Record, p: int, sq: int) -> bool {
    let f = frame_sq(black_to_move(rec), sq);
    &&& bit(rec.planes@[p], mirror_file_sq(f))
    &&& !(p == 6 && f < 8)
}

/// The piece that plane `p` (0..12) encodes: planes 0..6 belong to the side to move.
pub open spec fn plane_piece(black: bool, p: int) -> Piece {
    piece_of((p < 6) != black, p % 6)
}

/// The piece on `sq` according to planes `0..k`; a later plane overrides an earlier one.
pub open spec fn board_scan(rec: V6Record, sq: int, k: int) -> Option<Piece>
    decreases k,
{
    if k <= 0 {
        None
    } else if plane_marks(rec, k - 1, sq) {
        Some(plane_piece(black_to_move(rec), k - 1))
    } else {
        board_scan(rec, sq, k - 1)
    }
}

/// The piece on standard square `sq` (a1 = 0, h8 = 63).
pub open spec fn board_at(rec: V6Record, sq: int) -> Option<Piece> {
    board_scan(rec, sq, 12)
}

/// Number of squares below `n` that hold `piece`.
pub open spec fn count_on_board(rec: V6Record, piece: Piece, n: int) -> nat
    decreases n,
{
    if n <= 0 {
        0
    } else {
        count_on_board(rec, piece, n - 1) + (if board_at(rec, n - 1) == Some(piece) { 1nat } else { 0nat })
    }
}

/// FEN text of one rank from `file` on, with `empty` empty squares pending.
pub open spec fn rank_text(rec: V6Record, rank: int, file: int, empty: int) -> Seq<char>
    decreases 8 - file,
{
    if file >= 8 {
        if empty > 0 { seq![digit_char(empty)] } else { seq![] }
    } else {
        match board_at(rec, rank * 8 + file) {
            None => rank_text(rec, rank, file + 1, empty + 1),
            Some(p) => (if empty > 0 { seq![digit_char(empty)] } else { seq![] }) + seq![p.spec_char()]
                + rank_text(rec, rank, file + 1, 0),
        }
    }
}

/// FEN piece placement of ranks `rank` down to 1 (0-based), separated by '/'.
pub open spec fn placement_text(rec: V6Record, rank: int) -> Seq<char>
    decreases rank,
{
    if rank <= 0 {
        rank_text(rec, 0, 0, 0)
    } else {
        rank_text(rec, rank, 0, 0) + seq!['/'] + placement_text(rec, rank - 1)
    }
}

/// Castling rights in FEN order, each kept only when king and rook stand on
/// their classical squares.
pub open spec fn castling_text(rec: V6Record) -> Seq<char> {
    let black = black_to_move(rec);
    let white_oo = if black { rec.castling_them_oo } else { rec.castling_us_oo };
    let white_ooo = if black { rec.castling_them_ooo } else { rec.castling_us_ooo };
    let black_oo = if black { rec.castling_us_oo } else { rec.castling_them_oo };
    let black_ooo = if black { rec.castling_us_ooo } else { rec.castling_them_ooo };
    let wk = board_at(rec, 4) == Some(Piece::WK);
    let bk = board_at(rec, 60) == Some(Piece::BK);
    let s = (if white_oo != 0 && wk && board_at(rec, 7) == Some(Piece::WR) { seq!['K'] } else { seq![] })
        + (if white_ooo != 0 && wk && board_at(rec, 0) == Some(Piece::WR) { seq!['Q'] } else { seq![] })
        + (if black_oo != 0 && bk && board_at(rec, 63) == Some(Piece::BR) { seq!['k'] } else { seq![] })
        + (if black_ooo != 0 && bk && board_at(rec, 56) == Some(Piece::BR) { seq!['q'] } else { seq![] });
    if s.len() == 0 { seq!['-'] } else { s }
}

/// The lowest file from `f` on (below 8) that satisfies `marked`.
pub open spec fn lowest_file(marked: spec_fn(int) -> bool, f: int) -> Option<int>
    decreases 8 - f,
{
    if f >= 8 {
        None
    } else if marked(f) {
        Some(f)
    } else {
        lowest_file(marked, f + 1)
    }
}

/// Bit `i` of the byte `b`.
pub open spec fn bit8(b: u8, i: int) -> bool {
    (b >> (i as u8)) & 1 == 1
}

/// The en-passant file: canonical formats mark it as a bit of
/// `side_to_move_or_enpassant` (in reversed order under the flip
/// transform), the classical format as a phantom pawn on the first rank of
/// the opponent's pawn plane.
pub open spec fn ep_file(rec: V6Record) -> Option<int> {
    if rec.input_format != INPUT_CLASSICAL {
        let b = rec.side_to_move_or_enpassant;
        let flip = rec.invariance_info & 0x01 != 0;
        if b == 0 {
            None
        } else {
            lowest_file(|f: int| if flip { bit8(b, 7 - f) } else { bit8(b, f) }, 0)
        }
    } else {
        lowest_file(|f: int| bit(rec.planes@[6], mirror_file_sq(f)), 0)
    }
}

/// The letter of file `f` (0 = 'a').
pub open spec fn file_char(f: int) -> char {
    ((97 + f) as u8) as char
}

/// The FEN en-passant field: the target square on rank 6 (White to move)
/// or rank 3 (Black to move), or "-".
pub open spec fn ep_text(rec: V6Record) -> Seq<char> {
    match ep_file(rec) {
        Some(f) => seq![file_char(f), if black_to_move(rec) { '3' } else { '6' }],
        None => seq!['-'],
    }
}

/// The FEN of the record, or the message for a position without exactly
/// one king per side.
pub open spec fn spec_fen(rec: V6Record) -> Result<Seq<char>, Seq<char>> {
    let wk = count_on_board(rec, Piece::WK, 64);
    let bk = count_on_board(rec, Piece::BK, 64);
    if wk != 1 || bk != 1 {
        Err("Invalid position: "@ + decimal(wk) + " white kings, "@ + decimal(bk) + " black kings"@)
    } else {
        Ok(placement_text(rec, 7) + seq![' ', if black_to_move(rec) { 'b' } else { 'w' }, ' ']
            + castling_text(rec) + seq![' '] + ep_text(rec) + seq![' '] + decimal(
            rec.rule50_count as nat,
        ) + seq![' ', '1'])
    }
}

/// `s` is a FEN this library renders for some record.
pub open spec fn is_rendered_fen(s: Seq<char>) -> bool {
    exists|rec: V6Record| rec.wf() && spec_fen(rec) == Ok::<Seq<char>, Seq<char>>(s)
}

// ── Building the FEN ─────────────────────────────────────────────────────────

proof fn lemma_strip_rank_1(x: u64, i: u64)
    by (bit_vector)
    requires
        i < 64,
    ensures
        ((x & 0xFFFF_FFFF_FFFF_FF00u64) >> i) & 1 == 1 <==> ((x >> i) & 1 == 1 && i >= 8),
{
}

/// The bitboard of plane `p` of the current slot in standard orientation,
/// without the en-passant marks.
fn slot_bitboard(rec: &V6Record, p: usize, black: bool) -> (r: u64)
    requires
        rec.wf(),
        p < 12,
        black == black_to_move(*rec),
    ensures
        forall|sq: int| 0 <= sq < 64 ==> #[trigger] bit(r, sq) == plane_marks(*rec, p as int, sq),
{
    let raw = rec.planes[p];
    let decoded = decode_plane(raw);
    let stripped = if p == 6 { decoded & 0xFFFF_FFFF_FFFF_FF00 } else { decoded };
    assert forall|f: int| 0 <= f < 64 implies #[trigger] bit(stripped, f) == (bit(
        raw,
        mirror_file_sq(f),
    ) && !(p == 6 && f < 8)) by {
        assert(bit(decoded, f) == bit(raw, mirror_file_sq(f)));
        if p == 6 {
            lemma_strip_rank_1(decoded, f as u64);
            assert(bit(stripped, f) == (bit(decoded, f) && f >= 8));
        }
    }
    let r = if black { flip_vertical(stripped) } else { stripped };
    assert forall|sq: int| 0 <= sq < 64 implies #[trigger] bit(r, sq) == plane_marks(
        *rec,
        p as int,
        sq,
    ) by {
        let f = frame_sq(black, sq);
        assert(0 <= f < 64);
        assert(bit(stripped, f) == (bit(raw, mirror_file_sq(f)) && !(p == 6 && f < 8)));
    }
    r
}

/// All twelve current-slot bitboards hold the pieces of `rec`.
pub open spec fn bitboards_of(rec: V6Record, bbs: Seq<u64>) -> bool {
    &&& bbs.len() == 12
    &&& forall|p: int, sq: int|
        0 <= p < 12 && 0 <= sq < 64 ==> #[trigger] bit(bbs[p], sq) == plane_marks(rec, p, sq)
}

/// The piece on square `sq`: the last plane that marks the square wins.
fn square_piece(rec: &V6Record, bbs: &Vec<u64>, black: bool, sq: u64) -> (r: Option<Piece>)
    requires
        bitboards_of(*rec, bbs@),
        black == black_to_move(*rec),
        sq < 64,
    ensures
        r == board_at(*rec, sq as int),
{
    let mut k: usize = 12;
    while k > 0
        invariant
            k <= 12,
            bitboards_of(*rec, bbs@),
            black == black_to_move(*rec),
            sq < 64,
            board_scan(*rec, sq as int, k as int) == board_at(*rec, sq as int),
        decreases k,
    {
        let bb = bbs[k - 1];
        assert(bit(bb, sq as int) == plane_marks(*rec, k - 1, sq as int));
        if (bb >> sq) & 1 == 1 {
            let white = (k - 1 < 6) != black;
            return Some(make_piece(white, (k - 1) % 6));
        }
        k = k - 1;
    }
    None
}

/// The en-passant target square of the classical format, recovered from
/// the phantom pawn on the first rank of the opponent's pawn plane, or "-".
fn classical_ep(rec: &V6Record, black_to_move_flag: bool) -> (r: String)
    requires
        rec.wf(),
        rec.input_format == INPUT_CLASSICAL,
        black_to_move_flag == black_to_move(*rec),
    ensures
        r@ == ep_text(*rec),
{
    let their_pawns = decode_plane(rec.planes[6]);
    let ghost marked = |f: int| bit(rec.planes@[6], mirror_file_sq(f));
    let mut file: u64 = 0;
    while file < 8 && (their_pawns >> file) & 1 != 1
        invariant
            file <= 8,
            rec.wf(),
            marked == (|f: int| bit(rec.planes@[6], mirror_file_sq(f))),
            forall|i: int| 0 <= i < 64 ==> #[trigger] bit(their_pawns, i) == bit(
                rec.planes@[6],
                mirror_file_sq(i),
            ),
            lowest_file(marked, file as int) == lowest_file(marked, 0),
        decreases 8 - file,
    {
        assert(bit(their_pawns, file as int) == ((their_pawns >> file) & 1 == 1));
        assert(!marked(file as int));
        file = file + 1;
    }
    let mut s = String::new();
    if file == 8 {
        s.push('-');
    } else {
        assert(bit(their_pawns, file as int) == ((their_pawns >> file) & 1 == 1));
        assert(marked(file as int));
        s.push(((97 + file) as u8) as char);
        s.push(if black_to_move_flag { '3' } else { '6' });
    }
    assert(s@ =~= ep_text(*rec));
    s
}

/// Bit `f` of `b`, or bit `7 - f` under the flip transform.
fn ep_mark(b: u8, flip: bool, f: u8) -> (r: bool)
    requires
        f < 8,
    ensures
        r == (if flip { bit8(b, 7 - f) } else { bit8(b, f as int) }),
{
    if flip {
        (b >> (7 - f)) & 1 == 1
    } else {
        (b >> f) & 1 == 1
    }
}

/// The en-passant field of a canonical-format record.
fn canonical_ep(rec: &V6Record, black_to_move_flag: bool) -> (r: String)
    requires
        rec.input_format != INPUT_CLASSICAL,
        black_to_move_flag == black_to_move(*rec),
    ensures
        r@ == ep_text(*rec),
{
    let b = rec.side_to_move_or_enpassant;
    let flip = rec.transform_flip();
    let mut s = String::new();
    if b == 0 {
        s.push('-');
        assert(s@ =~= ep_text(*rec));
        return s;
    }
    let ghost marked = |f: int| if flip { bit8(b, 7 - f) } else { bit8(b, f) };
    let mut file: u8 = 0;
    while file < 8 && !ep_mark(b, flip, file)
        invariant
            file <= 8,
            b != 0,
            flip == (rec.invariance_info & 0x01 != 0),
            marked == (|f: int| if flip { bit8(b, 7 - f) } else { bit8(b, f) }),
            lowest_file(marked, file as int) == lowest_file(marked, 0),
        decreases 8 - file,
    {
        assert(!marked(file as int));
        file = file + 1;
    }
    if file == 8 {
        s.push('-');
    } else {
        assert(marked(file as int));
        s.push((97 + file) as char);
        s.push(if black_to_move_flag { '3' } else { '6' });
    }
    assert(s@ =~= ep_text(*rec));
    s
}

/// `board` holds the piece on every square of `rec`.
pub open spec fn board_of(rec: V6Record, board: Seq<Option<Piece>>) -> bool {
    &&& board.len() == 64
    &&& forall|sq: int| 0 <= sq < 64 ==> #[trigger] board[sq] == board_at(rec, sq)
}

fn holds(o: Option<Piece>, p: Piece) -> (r: bool)
    ensures
        r == (o == Some(p)),
{
    match o {
        Some(q) => q == p,
        None => false,
    }
}

/// The piece placement field of the FEN, ranks 8 to 1.
fn placement_field(rec: &V6Record, board: &Vec<Option<Piece>>) -> (r: String)
    requires
        board_of(*rec, board@),
    ensures
        r@ == placement_text(*rec, 7),
{
    let mut fen = String::new();
    let mut r: usize = 8;
    while r > 0
        invariant
            r <= 8,
            board_of(*rec, board@),
            fen@ + (if r == 0 { Seq::<char>::empty() } else { placement_text(*rec, r - 1) })
                == placement_text(*rec, 7),
        decreases r,
    {
        let rank = r - 1;
        let ghost pre = fen@;
        let mut empty: u8 = 0;
        let mut file: usize = 0;
        while file < 8
            invariant
                rank < 8,
                file <= 8,
                empty <= file,
                board_of(*rec, board@),
                fen@ + rank_text(*rec, rank as int, file as int, empty as int) == pre + rank_text(
                    *rec,
                    rank as int,
                    0,
                    0,
                ),
            decreases 8 - file,
        {
            let sq = rank * 8 + file;
            let ghost before = fen@;
            match board[sq] {
                None => {
                    empty = empty + 1;
                },
                Some(p) => {
                    if empty > 0 {
                        fen.push(digit_to_char(empty));
                    }
                    fen.push(p.to_char());
                    assert(before + rank_text(*rec, rank as int, file as int, empty as int) =~= fen@
                        + rank_text(*rec, rank as int, file + 1, 0));
                    empty = 0;
                },
            }
            file = file + 1;
        }
        if empty > 0 {
            fen.push(digit_to_char(empty));
        }
        assert(fen@ =~= pre + rank_text(*rec, rank as int, 0, 0));
        if rank > 0 {
            fen.push('/');
            assert(pre + placement_text(*rec, rank as int) =~= fen@ + placement_text(
                *rec,
                rank - 1,
            ));
        } else {
            assert(pre + placement_text(*rec, rank as int) =~= fen@);
        }
        r = r - 1;
    }
    fen
}

/// The castling field of the FEN.
fn castling_field(rec: &V6Record, black: bool, board: &Vec<Option<Piece>>) -> (r: String)
    requires
        board_of(*rec, board@),
        black == black_to_move(*rec),
    ensures
        r@ == castling_text(*rec),
{
    let (white_oo, white_ooo, black_oo, black_ooo) = if black {
        (rec.castling_them_oo, rec.castling_them_ooo, rec.castling_us_oo, rec.castling_us_ooo)
    } else {
        (rec.castling_us_oo, rec.castling_us_ooo, rec.castling_them_oo, rec.castling_them_ooo)
    };
    let white_king_on_e1 = holds(board[4], Piece::WK);
    let black_king_on_e8 = holds(board[60], Piece::BK);
    let white_rook_on_h1 = holds(board[7], Piece::WR);
    let white_rook_on_a1 = holds(board[0], Piece::WR);
    let black_rook_on_h8 = holds(board[63], Piece::BR);
    let black_rook_on_a8 = holds(board[56], Piece::BR);
    let mut castling = String::new();
    if white_oo != 0 && white_king_on_e1 && white_rook_on_h1 {
        castling.push('K');
    }
    if white_ooo != 0 && white_king_on_e1 && white_rook_on_a1 {
        castling.push('Q');
    }
    if black_oo != 0 && black_king_on_e8 && black_rook_on_h8 {
        castling.push('k');
    }
    if black_ooo != 0 && black_king_on_e8 && black_rook_on_a8 {
        castling.push('q');
    }
    if castling.as_str().is_empty() {
        castling.push('-');
    }
    assert(castling@ =~= castling_text(*rec));
    castling
}

/// Generate the FEN of a record.  Fails with a description when the
/// position does not hold exactly one king per side.
pub fn record_to_fen(rec: &V6Record) -> (res: Result<String, String>)
    requires
        rec.wf(),
    ensures
        match (res, spec_fen(*rec)) {
            (Ok(s), Ok(t)) => s@ == t,
            (Err(s), Err(t)) => s@ == t,
            _ => false,
        },
{
    let is_canonical = rec.input_format != INPUT_CLASSICAL;
    let black = if is_canonical {
        rec.canonical_side_to_move()
    } else {
        rec.side_to_move_or_enpassant != 0
    };
    let mut bbs: Vec<u64> = Vec::new();
    let mut p: usize = 0;
    while p < 12
        invariant
            p <= 12,
            rec.wf(),
            black == black_to_move(*rec),
            bbs@.len() == p,
            forall|q: int, sq: int|
                0 <= q < p && 0 <= sq < 64 ==> #[trigger] bit(bbs@[q], sq) == plane_marks(
                    *rec,
                    q,
                    sq,
                ),
        decreases 12 - p,
    {
        let bb = slot_bitboard(rec, p, black);
        bbs.push(bb);
        p = p + 1;
    }
    let mut board: Vec<Option<Piece>> = Vec::new();
    let mut sq: u64 = 0;
    while sq < 64
        invariant
            sq <= 64,
            bitboards_of(*rec, bbs@),
            black == black_to_move(*rec),
            board@.len() == sq,
            forall|s: int| 0 <= s < sq ==> #[trigger] board@[s] == board_at(*rec, s),
        decreases 64 - sq,
    {
        let piece = square_piece(rec, &bbs, black, sq);
        board.push(piece);
        sq = sq + 1;
    }
    let mut wk: u64 = 0;
    let mut bk: u64 = 0;
    let mut i: usize = 0;
    while i < 64
        invariant
            i <= 64,
            board_of(*rec, board@),
            wk == count_on_board(*rec, Piece::WK, i as int),
            bk == count_on_board(*rec, Piece::BK, i as int),
            wk <= i,
            bk <= i,
        decreases 64 - i,
    {
        if holds(board[i], Piece::WK) {
            wk = wk + 1;
        }
        if holds(board[i], Piece::BK) {
            bk = bk + 1;
        }
        i = i + 1;
    }
    if wk != 1 || bk != 1 {
        let mut msg = String::new();
        msg.append("Invalid position: ");
        push_decimal(&mut msg, wk);
        msg.append(" white kings, ");
        push_decimal(&mut msg, bk);
        msg.append(" black kings");
        assert(msg@ =~= "Invalid position: "@ + decimal(wk as nat) + " white kings, "@ + decimal(
            bk as nat,
        ) + " black kings"@);
        return Err(msg);
    }
    let placement = placement_field(rec, &board);
    let castling = castling_field(rec, black, &board);
    let ep = if is_canonical {
        canonical_ep(rec, black)
    } else {
        classical_ep(rec, black)
    };
    let mut fen = placement;
    fen.push(' ');
    fen.push(if black { 'b' } else { 'w' });
    fen.push(' ');
    fen.append(castling.as_str());
    fen.push(' ');
    fen.append(ep.as_str());
    fen.push(' ');
    push_decimal(&mut fen, rec.rule50_count as u64);
    fen.push(' ');
    fen.push('1');
    assert(fen@ =~= placement_text(*rec, 7) + seq![' ', if black { 'b' } else { 'w' }, ' ']
        + castling_text(*rec) + seq![' '] + ep_text(*rec) + seq![' '] + decimal(
        rec.rule50_count as nat,
    ) + seq![' ', '1']);
    Ok(fen)
}

// ── Laws ─────────────────────────────────────────────────────────────────────

/// Mirroring the files, or the ranks, twice gives back the square.
pub proof fn law_mirror_squares_involution(sq: int)
    requires
        0 <= sq < 64,
    ensures
        0 <= mirror_file_sq(sq) < 64,
        0 <= mirror_rank_sq(sq) < 64,
        mirror_file_sq(mirror_file_sq(sq)) == sq,
        mirror_rank_sq(mirror_rank_sq(sq)) == sq,
{
}

/// A FEN is produced only for a position with exactly one king per side.
pub proof fn law_fen_has_one_king_each(rec: V6Record)
    requires
        spec_fen(rec) is Ok,
    ensures
        count_on_board(rec, Piece::WK, 64) == 1,
        count_on_board(rec, Piece::BK, 64) == 1,
{
}

/// A castling right is emitted only with king and rook on their classical
/// squares, so the FEN is consistent for standard chess.
pub proof fn law_castling_rights_are_consistent(rec: V6Record)
    ensures
        castling_text(rec).contains('K') ==> board_at(rec, 4) == Some(Piece::WK) && board_at(rec, 7)
            == Some(Piece::WR),
        castling_text(rec).contains('Q') ==> board_at(rec, 4) == Some(Piece::WK) && board_at(rec, 0)
            == Some(Piece::WR),
        castling_text(rec).contains('k') ==> board_at(rec, 60) == Some(Piece::BK) && board_at(rec, 63)
            == Some(Piece::BR),
        castling_text(rec).contains('q') ==> board_at(rec, 60) == Some(Piece::BK) && board_at(rec, 56)
            == Some(Piece::BR),
{
    let black = black_to_move(rec);
    let white_oo = if black { rec.castling_them_oo } else { rec.castling_us_oo };
    let white_ooo = if black { rec.castling_them_ooo } else { rec.castling_us_ooo };
    let black_oo = if black { rec.castling_us_oo } else { rec.castling_them_oo };
    let black_ooo = if black { rec.castling_us_ooo } else { rec.castling_them_ooo };
    let wk = board_at(rec, 4) == Some(Piece::WK);
    let bk = board_at(rec, 60) == Some(Piece::BK);
    let a = if white_oo != 0 && wk && board_at(rec, 7) == Some(Piece::WR) { seq!['K'] } else { seq![] };
    let b = if white_ooo != 0 && wk && board_at(rec, 0) == Some(Piece::WR) { seq!['Q'] } else { seq![] };
    let c = if black_oo != 0 && bk && board_at(rec, 63) == Some(Piece::BR) { seq!['k'] } else { seq![] };
    let d = if black_ooo != 0 && bk && board_at(rec, 56) == Some(Piece::BR) { seq!['q'] } else { seq![] };
    let s = a + b + c + d;
    assert forall|ch: char| s.contains(ch) implies (ch == 'K' && a.len() == 1) || (ch == 'Q' && b.len() == 1)
        || (ch == 'k' && c.len() == 1) || (ch == 'q' && d.len() == 1) by {
        let j = choose|j: int| 0 <= j < s.len() && s[j] == ch;
        if j < a.len() {
        } else if j < a.len() + b.len() {
            assert(s[j] == b[j - a.len()]);
        } else if j < a.len() + b.len() + c.len() {
            assert(s[j] == c[j - a.len() - b.len()]);
        } else {
            assert(s[j] == d[j - a.len() - b.len() - c.len()]);
        }
    }
    if s.len() == 0 {
        assert(castling_text(rec) == seq!['-']);
        assert forall|ch: char| castling_text(rec).contains(ch) implies ch == '-' by {
            let j = choose|j: int| 0 <= j < castling_text(rec).len() && castling_text(rec)[j] == ch;
        }
    }
}

/// The king's home square of a colour (e1 or e8).
pub open spec fn king_home(black: bool) -> int {
    if black { 60 } else { 4 }
}

/// The home square of a colour's rook on the short (h-file) or long
/// (a-file) side.
pub open spec fn rook_home(black: bool, short: bool) -> int {
    (if black { 56int } else { 0int }) + (if short { 7int } else { 0int })
}

/// The FEN letter of a colour's castling right on one side.
pub open spec fn castling_letter(black: bool, short: bool) -> char {
    if black {
        if short { 'k' } else { 'q' }
    } else {
        if short { 'K' } else { 'Q' }
    }
}

/// The king and the rook of a colour stand on their home squares for
/// castling on one side.
pub open spec fn castling_pieces_home(rec: V6Record, black: bool, short: bool) -> bool {
    &&& board_at(rec, king_home(black)) == Some(piece_of(!black, 5))
    &&& board_at(rec, rook_home(black, short)) == Some(piece_of(!black, 3))
}

proof fn lemma_four_letters(a: Seq<char>, b: Seq<char>, c: Seq<char>, d: Seq<char>, ch: char)
    requires
        a == seq!['K'] || a.len() == 0,
        b == seq!['Q'] || b.len() == 0,
        c == seq!['k'] || c.len() == 0,
        d == seq!['q'] || d.len() == 0,
    ensures
        (a + b + c + d).contains(ch) == ((ch == 'K' && a.len() == 1) || (ch == 'Q' && b.len() == 1) || (ch == 'k'
            && c.len() == 1) || (ch == 'q' && d.len() == 1)),
{
    let s = a + b + c + d;
    if (ch == 'K' && a.len() == 1) {
        assert(s[0] == ch);
    } else if (ch == 'Q' && b.len() == 1) {
        assert(s[a.len() as int] == ch);
    } else if (ch == 'k' && c.len() == 1) {
        assert(s[(a.len() + b.len()) as int] == ch);
    } else if (ch == 'q' && d.len() == 1) {
        assert(s[(a.len() + b.len() + c.len()) as int] == ch);
    }
    if s.contains(ch) {
        let j = choose|j: int| 0 <= j < s.len() && s[j] == ch;
        if j < a.len() {
        } else if j < a.len() + b.len() {
            assert(s[j] == b[j - a.len()]);
        } else if j < a.len() + b.len() + c.len() {
            assert(s[j] == c[j - a.len() - b.len()]);
        } else {
            assert(s[j] == d[j - a.len() - b.len() - c.len()]);
        }
    }
}

/// Each colour keeps its own castling rights.  The `us` flags are the
/// rights of the side to move and the `them` flags those of its opponent;
/// the FEN shows a colour's right on a side exactly when its flag is set
/// and that colour's king and rook stand on their home squares.
pub proof fn law_castling_rights_follow_their_colour(rec: V6Record)
    ensures
        castling_text(rec).contains(castling_letter(black_to_move(rec), true)) == (rec.castling_us_oo != 0
            && castling_pieces_home(rec, black_to_move(rec), true)),
        castling_text(rec).contains(castling_letter(black_to_move(rec), false)) == (rec.castling_us_ooo != 0
            && castling_pieces_home(rec, black_to_move(rec), false)),
        castling_text(rec).contains(castling_letter(!black_to_move(rec), true)) == (rec.castling_them_oo != 0
            && castling_pieces_home(rec, !black_to_move(rec), true)),
        castling_text(rec).contains(castling_letter(!black_to_move(rec), false)) == (rec.castling_them_ooo
            != 0 && castling_pieces_home(rec, !black_to_move(rec), false)),
{
    let black = black_to_move(rec);
    let wk = board_at(rec, 4) == Some(Piece::WK);
    let bk = board_at(rec, 60) == Some(Piece::BK);
    let flags_w_oo = if black { rec.castling_them_oo } else { rec.castling_us_oo };
    let flags_w_ooo = if black { rec.castling_them_ooo } else { rec.castling_us_ooo };
    let flags_b_oo = if black { rec.castling_us_oo } else { rec.castling_them_oo };
    let flags_b_ooo = if black { rec.castling_us_ooo } else { rec.castling_them_ooo };
    let a = if flags_w_oo != 0 && wk && board_at(rec, 7) == Some(Piece::WR) { seq!['K'] } else { seq![] };
    let b = if flags_w_ooo != 0 && wk && board_at(rec, 0) == Some(Piece::WR) { seq!['Q'] } else { seq![] };
    let c = if flags_b_oo != 0 && bk && board_at(rec, 63) == Some(Piece::BR) { seq!['k'] } else { seq![] };
    let d = if flags_b_ooo != 0 && bk && board_at(rec, 56) == Some(Piece::BR) { seq!['q'] } else { seq![] };
    assert(castling_text(rec) == (if (a + b + c + d).len() == 0 { seq!['-'] } else { a + b + c + d }));
    lemma_four_letters(a, b, c, d, 'K');
    lemma_four_letters(a, b, c, d, 'Q');
    lemma_four_letters(a, b, c, d, 'k');
    lemma_four_letters(a, b, c, d, 'q');
    if (a + b + c + d).len() == 0 {
        assert forall|ch: char| seq!['-'].contains(ch) implies ch == '-' by {
            let j = choose|j: int| 0 <= j < 1 && seq!['-'][j] == ch;
        }
    }
}

/// A piece on the board comes from a plane that marks its square.
proof fn lemma_piece_from_plane(rec: V6Record, sq: int, k: int)
    requires
        0 <= k <= 12,
    ensures
        board_scan(rec, sq, k) matches Some(pc) ==> exists|p: int|
            0 <= p < k && #[trigger] plane_marks(rec, p, sq) && plane_piece(black_to_move(rec), p) == pc,
    decreases k,
{
    if k > 0 {
        lemma_piece_from_plane(rec, sq, k - 1);
        if plane_marks(rec, k - 1, sq) {
            assert(plane_marks(rec, k - 1, sq));
        }
    }
}

/// The opponent's pawns on the first rank of the side-to-move frame mark
/// the en-passant file; they never show as pawns on the board.
pub proof fn law_ep_marks_are_not_pawns(rec: V6Record, sq: int)
    requires
        0 <= sq < 64,
        frame_sq(black_to_move(rec), sq) < 8,
    ensures
        board_at(rec, sq) != Some(piece_of(black_to_move(rec), 0)),
{
    let black = black_to_move(rec);
    lemma_piece_from_plane(rec, sq, 12);
    if board_at(rec, sq) == Some(piece_of(black, 0)) {
        let p = choose|p: int|
            0 <= p < 12 && #[trigger] plane_marks(rec, p, sq) && plane_piece(black, p) == piece_of(black, 0);
        assert(p == 6);
        assert(!plane_marks(rec, 6, sq));
    }
}

/// `b` is the record `a` with the first rank of the side-to-move frame of
/// the opponent's pawn plane cleared: the stored low byte of plane 6.
pub open spec fn without_ep_marks(a: V6Record, b: V6Record) -> bool {
    &&& a.wf()
    &&& b.wf()
    &&& b.planes@ == a.planes@.update(6, a.planes@[6] & 0xFFFF_FFFF_FFFF_FF00u64)
    &&& b.input_format == a.input_format
    &&& b.side_to_move_or_enpassant == a.side_to_move_or_enpassant
    &&& b.invariance_info == a.invariance_info
    &&& b.castling_us_oo == a.castling_us_oo
    &&& b.castling_us_ooo == a.castling_us_ooo
    &&& b.castling_them_oo == a.castling_them_oo
    &&& b.castling_them_ooo == a.castling_them_ooo
    &&& b.rule50_count == a.rule50_count
}

proof fn lemma_marks_without_ep(a: V6Record, b: V6Record, p: int, sq: int)
    requires
        without_ep_marks(a, b),
        0 <= p < 12,
        0 <= sq < 64,
    ensures
        plane_marks(b, p, sq) == plane_marks(a, p, sq),
{
    if p == 6 {
        let f = frame_sq(black_to_move(a), sq);
        let i = mirror_file_sq(f);
        assert(0 <= i < 64);
        assert(i < 8 <==> f < 8);
        lemma_strip_rank_1(a.planes@[6], i as u64);
    }
}

proof fn lemma_scan_without_ep(a: V6Record, b: V6Record, sq: int, k: int)
    requires
        without_ep_marks(a, b),
        0 <= k <= 12,
        0 <= sq < 64,
    ensures
        board_scan(b, sq, k) == board_scan(a, sq, k),
    decreases k,
{
    if k > 0 {
        lemma_marks_without_ep(a, b, k - 1, sq);
        lemma_scan_without_ep(a, b, sq, k - 1);
    }
}

proof fn lemma_count_without_ep(a: V6Record, b: V6Record, pc: Piece, n: int)
    requires
        without_ep_marks(a, b),
        n <= 64,
    ensures
        count_on_board(b, pc, n) == count_on_board(a, pc, n),
    decreases n,
{
    if n > 0 {
        lemma_scan_without_ep(a, b, n - 1, 12);
        lemma_count_without_ep(a, b, pc, n - 1);
    }
}

proof fn lemma_rank_without_ep(a: V6Record, b: V6Record, rank: int, file: int, empty: int)
    requires
        without_ep_marks(a, b),
        0 <= rank < 8,
        0 <= file,
    ensures
        rank_text(b, rank, file, empty) == rank_text(a, rank, file, empty),
    decreases 8 - file,
{
    if file < 8 {
        lemma_scan_without_ep(a, b, rank * 8 + file, 12);
        lemma_rank_without_ep(a, b, rank, file + 1, empty + 1);
        lemma_rank_without_ep(a, b, rank, file + 1, 0);
    }
}

proof fn lemma_placement_without_ep(a: V6Record, b: V6Record, rank: int)
    requires
        without_ep_marks(a, b),
        0 <= rank < 8,
    ensures
        placement_text(b, rank) == placement_text(a, rank),
    decreases rank,
{
    lemma_rank_without_ep(a, b, rank, 0, 0);
    if rank > 0 {
        lemma_placement_without_ep(a, b, rank - 1);
    }
}

proof fn lemma_no_mark_from(b: V6Record, f: int)
    requires
        b.wf(),
        0 <= f <= 8,
        forall|g: int| f <= g < 8 ==> !bit(b.planes@[6], #[trigger] mirror_file_sq(g)),
    ensures
        lowest_file(|g: int| bit(b.planes@[6], mirror_file_sq(g)), f) is None,
    decreases 8 - f,
{
    if f < 8 {
        assert(!bit(b.planes@[6], mirror_file_sq(f)));
        lemma_no_mark_from(b, f + 1);
    }
}

/// In the classical format, clearing the en-passant marks changes nothing
/// but the en-passant field of the FEN: the board and the castling rights
/// stay, and the field becomes "-".
pub proof fn law_ep_marks_only_set_the_ep_field(a: V6Record, b: V6Record)
    requires
        without_ep_marks(a, b),
        a.input_format == INPUT_CLASSICAL,
    ensures
        forall|sq: int| 0 <= sq < 64 ==> #[trigger] board_at(b, sq) == board_at(a, sq),
        castling_text(b) == castling_text(a),
        ep_text(b) == seq!['-'],
        spec_fen(a) is Err ==> spec_fen(b) == spec_fen(a),
        spec_fen(a) is Ok ==> spec_fen(b) == Ok::<Seq<char>, Seq<char>>(
            placement_text(a, 7) + seq![' ', if black_to_move(a) { 'b' } else { 'w' }, ' ']
                + castling_text(a) + seq![' ', '-', ' '] + decimal(a.rule50_count as nat) + seq![
                ' ',
                '1',
            ],
        ),
{
    assert forall|sq: int| 0 <= sq < 64 implies #[trigger] board_at(b, sq) == board_at(a, sq) by {
        lemma_scan_without_ep(a, b, sq, 12);
    }
    assert(board_at(b, 4) == board_at(a, 4));
    assert(board_at(b, 7) == board_at(a, 7));
    assert(board_at(b, 0) == board_at(a, 0));
    assert(board_at(b, 60) == board_at(a, 60));
    assert(board_at(b, 63) == board_at(a, 63));
    assert(board_at(b, 56) == board_at(a, 56));
    lemma_count_without_ep(a, b, Piece::WK, 64);
    lemma_count_without_ep(a, b, Piece::BK, 64);
    lemma_placement_without_ep(a, b, 7);
    assert forall|g: int| 0 <= g < 8 implies !bit(b.planes@[6], #[trigger] mirror_file_sq(g)) by {
        lemma_strip_rank_1(a.planes@[6], mirror_file_sq(g) as u64);
    }
    lemma_no_mark_from(b, 0);
    assert(ep_text(b) == seq!['-']);
    if spec_fen(a) is Ok {
        let head = placement_text(a, 7) + seq![' ', if black_to_move(a) { 'b' } else { 'w' }, ' ']
            + castling_text(a);
        assert(black_to_move(b) == black_to_move(a));
        assert(count_on_board(b, Piece::WK, 64) == 1 && count_on_board(b, Piece::BK, 64) == 1);
        let hb = placement_text(b, 7) + seq![' ', if black_to_move(b) { 'b' } else { 'w' }, ' ']
            + castling_text(b);
        assert(hb == head);
        assert(spec_fen(b) == Ok::<Seq<char>, Seq<char>>(
            placement_text(b, 7) + seq![' ', if black_to_move(b) { 'b' } else { 'w' }, ' ']
                + castling_text(b) + seq![' '] + ep_text(b) + seq![' '] + decimal(b.rule50_count as nat)
                + seq![' ', '1'],
        ));
        let d = decimal(a.rule50_count as nat);
        assert(hb + seq![' '] + ep_text(b) + seq![' '] + d + seq![' ', '1'] =~= head + seq![' ', '-', ' '] + d
            + seq![' ', '1']);
    }
}

/// The en-passant target lies on rank 6 with White to move and on rank 3
/// with Black to move.
pub proof fn law_ep_rank_follows_side_to_move(rec: V6Record)
    ensures
        ep_text(rec) == seq!['-'] || (ep_text(rec).len() == 2 && ep_text(rec)[1] == (if black_to_move(rec) {
            '3'
        } else {
            '6'
        })),
{
}

} // verus!
