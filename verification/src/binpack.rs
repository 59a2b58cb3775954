//! Conversion of records into binpack training entries, buffering per game,
//! and propagation of tablebase results through a game.

use vstd::prelude::*;
use crate::bindings::{
    StandardPosition, SfPosition, shakmaty_fen_parses, shakmaty_piece_count, shakmaty_setup_is_standard,
    shakmaty_uci_is_legal, shakmaty_uci_parses, sf_fen_black, sf_fen_castling_right, sf_fen_ep_square,
    sf_fen_piece_kind, sm_parse_uci, sm_uci_is_legal, sf_position_from_fen,
};
use crate::fen::{record_to_fen, spec_fen};
use crate::moves::{idx_to_move, policy_len, policy_move_text, policy_table_len};
use crate::record::V6Record;
use crate::syzygy::{MAX_PIECES, SyzygyProber};
use crate::bindings::{
    PieceKind, io_error_text, sf_black_to_move, sf_ep_square, sf_ep_square_debug,
    sf_has_castling_right, sf_piece_kind_at, sf_square_debug, square_debug_text,
};
use crate::text::{decimal, push_decimal};

verus! {

// ── Backpropagation mode ─────────────────────────────────────────────────────

/// How far a tablebase result is propagated backward from the first hit.
/// Forward propagation (hit to end of game) always happens.
#[derive(Clone, Copy, PartialEq, Eq, Structural, Debug)]
pub enum BackpropMode {
    /// No backward propagation.
    Off,
    /// Backward propagation all the way to the first position of the game.
    Unlimited,
    /// Backward propagation over at most this many plies before the hit.
    Limited(u16),
}

impl BackpropMode {
    /// `true` for any mode other than `Off`.
    pub fn is_enabled(self) -> (r: bool)
        ensures
            r == !(self is Off),
    {
        !matches!(self, BackpropMode::Off)
    }
}

/// Number of positions before a hit at index `hit` that `mode` patches.
pub open spec fn backward_reach(mode: BackpropMode, hit: int) -> int {
    match mode {
        BackpropMode::Off => 0,
        BackpropMode::Unlimited => hit,
        BackpropMode::Limited(n) => if (n as int) < hit { n as int } else { hit },
    }
}

// ── Buffered entries ─────────────────────────────────────────────────────────

/// Piece a pawn promotes to.
#[derive(Clone, Copy, PartialEq, Eq, Structural, Debug)]
pub enum PromotionPiece {
    Queen,
    Rook,
    Bishop,
    Knight,
}

/// How a move is encoded in a binpack entry.
#[derive(Clone, Copy, PartialEq, Eq, Structural, Debug)]
pub enum MoveKind {
    Normal,
    Promotion { piece: PromotionPiece, black: bool },
    /// Encoded as the king capturing its own rook; `to` is the rook square.
    Castle,
    EnPassant,
}

/// A move in standard (White-at-bottom) square indices, a1 = 0, h8 = 63.
#[derive(Clone, Copy, PartialEq, Eq, Structural, Debug)]
pub struct MoveSpec {
    pub from: u8,
    pub to: u8,
    pub kind: MoveKind,
}

/// One position buffered for a game, ready to be patched and written.
pub struct BufferedEntry {
    /// The position, whose view is the FEN it was read from.
    pub pos: SfPosition,
    pub mv: MoveSpec,
    pub score: i16,
    pub ply: u16,
    /// Side-to-move relative result: 1 win, 0 draw, -1 loss.
    pub result: i16,
    /// Side-to-move relative tablebase result, if the probe hit here.
    pub tb_result: Option<i16>,
}

// ── WDL counters ─────────────────────────────────────────────────────────────

/// Win / draw / loss counts of side-to-move relative results.
#[derive(Clone, Copy)]
pub struct WdlCounts {
    pub wins: usize,
    pub draws: usize,
    pub losses: usize,
}

impl Default for WdlCounts {
    fn default() -> (r: Self)
        ensures
            r.wins == 0 && r.draws == 0 && r.losses == 0,
    {
        WdlCounts { wins: 0, draws: 0, losses: 0 }
    }
}

impl WdlCounts {
    /// Count `result`: 1 is a win, 0 a draw, -1 a loss; other values are ignored.
    pub fn tally(&mut self, result: i16)
        requires
            result == 1 ==> old(self).wins < usize::MAX,
            result == 0 ==> old(self).draws < usize::MAX,
            result == -1 ==> old(self).losses < usize::MAX,
        ensures
            final(self).wins == old(self).wins + (if result == 1 { 1int } else { 0 }),
            final(self).draws == old(self).draws + (if result == 0 { 1int } else { 0 }),
            final(self).losses == old(self).losses + (if result == -1 { 1int } else { 0 }),
    {
        if result == 1 {
            self.wins = self.wins + 1;
        } else if result == 0 {
            self.draws = self.draws + 1;
        } else if result == -1 {
            self.losses = self.losses + 1;
        }
    }

    pub open spec fn total(&self) -> int {
        self.wins + self.draws + self.losses
    }
}

// ── Errors ───────────────────────────────────────────────────────────────────

/// Why a record could not be converted or written.
#[derive(Debug)]
pub enum BinpackError {
    Fen(String),
    InvalidMove(String),
    FrcCastle(String),
    InvalidPosition(String),
    Io(std::io::Error),
    Writer(String),
}

#[derive(Clone, Copy, PartialEq, Eq, Structural, Debug)]
pub enum ErrorKind {
    Fen,
    InvalidMove,
    FrcCastle,
    InvalidPosition,
    Io,
    Writer,
}

impl BinpackError {
    pub open spec fn kind(&self) -> ErrorKind {
        match self {
            BinpackError::Fen(_) => ErrorKind::Fen,
            BinpackError::InvalidMove(_) => ErrorKind::InvalidMove,
            BinpackError::FrcCastle(_) => ErrorKind::FrcCastle,
            BinpackError::InvalidPosition(_) => ErrorKind::InvalidPosition,
            BinpackError::Io(_) => ErrorKind::Io,
            BinpackError::Writer(_) => ErrorKind::Writer,
        }
    }

    /// The description carried by the error (empty for `Io`).
    pub open spec fn text(&self) -> Seq<char> {
        match self {
            BinpackError::Fen(s) => s@,
            BinpackError::InvalidMove(s) => s@,
            BinpackError::FrcCastle(s) => s@,
            BinpackError::InvalidPosition(s) => s@,
            BinpackError::Io(_) => Seq::empty(),
            BinpackError::Writer(s) => s@,
        }
    }

    /// The prefix that the message of each kind of error starts with.
    pub open spec fn message_prefix(k: ErrorKind) -> Seq<char> {
        match k {
            ErrorKind::Fen => "FEN error: "@,
            ErrorKind::InvalidMove => "Invalid move: "@,
            ErrorKind::FrcCastle => "FRC position (skipping): "@,
            ErrorKind::InvalidPosition => "Invalid position: "@,
            ErrorKind::Io => "IO error: "@,
            ErrorKind::Writer => "Writer error: "@,
        }
    }

    /// Human-readable description of the error.
    pub fn message(&self) -> (r: String)
        ensures
            self.kind() != ErrorKind::Io ==> r@ == Self::message_prefix(self.kind()) + self.text(),
            self.kind() == ErrorKind::Io ==> r@.take(10) == "IO error: "@,
    {
        let (prefix, body) = match self {
            BinpackError::Fen(e) => ("FEN error: ", e.clone()),
            BinpackError::InvalidMove(e) => ("Invalid move: ", e.clone()),
            BinpackError::FrcCastle(e) => ("FRC position (skipping): ", e.clone()),
            BinpackError::InvalidPosition(e) => ("Invalid position: ", e.clone()),
            BinpackError::Io(e) => ("IO error: ", io_error_text(e)),
            BinpackError::Writer(e) => ("Writer error: ", e.clone()),
        };
        let mut s = prefix.to_owned();
        s.append(body.as_str());
        proof {
            reveal_strlit("IO error: ");
        }
        assert(self.kind() == ErrorKind::Io ==> s@.take(10) =~= "IO error: "@);
        s
    }
}

impl From<std::io::Error> for BinpackError {
    fn from(e: std::io::Error) -> (r: Self) {
        BinpackError::Io(e)
    }
}

impl vstd::std_specs::convert::FromSpecImpl<std::io::Error> for BinpackError {
    open spec fn obeys_from_spec() -> bool {
        true
    }

    open spec fn from_spec(v: std::io::Error) -> Self {
        BinpackError::Io(v)
    }
}

/// `e` is an error of kind `k` carrying the text `t`.
pub open spec fn error_is(e: BinpackError, k: ErrorKind, t: Seq<char>) -> bool {
    e.kind() == k && e.text() == t
}

/// `r` is the outcome `s`, errors compared by kind and text.
pub open spec fn outcome_is<T>(r: Result<T, BinpackError>, s: Result<T, (ErrorKind, Seq<char>)>) -> bool {
    match (r, s) {
        (Ok(a), Ok(b)) => a == b,
        (Err(e), Err((k, t))) => error_is(e, k, t),
        _ => false,
    }
}

fn concat2(a: &str, b: &str) -> (r: String)
    ensures
        r@ == a@ + b@,
{
    let mut s = a.to_owned();
    s.append(b);
    s
}

fn concat3(a: &str, b: &str, c: &str) -> (r: String)
    ensures
        r@ == a@ + b@ + c@,
{
    let mut s = a.to_owned();
    s.append(b);
    s.append(c);
    s
}

// ── Move parsing ─────────────────────────────────────────────────────────────

/// The square index of file letter `f` and rank digit `r`, as sfbinpack's
/// `Square::from_string` reads them.
pub open spec fn square_index(f: char, r: char) -> Option<int> {
    if 'a' <= f <= 'h' && '1' <= r <= '8' {
        Some((r as int - 49) * 8 + (f as int - 97))
    } else {
        None
    }
}

/// Facts about the position that decide how a move is encoded.
pub struct MoveFacts {
    /// Black is to move.
    pub black: bool,
    /// Kind of the piece on the origin square.
    pub moving: PieceKind,
    /// Kind of the piece on the destination square.
    pub target: PieceKind,
    /// The side to move may castle short / long.
    pub short_right: bool,
    pub long_right: bool,
    /// En-passant square index (64 when there is none).
    pub ep_square: u8,
    /// Text naming the en-passant square in messages.
    pub ep_text: String,
}

/// `f` holds what sfbinpack reads from the FEN `fen` about a move from
/// square `from` to square `to`.
pub open spec fn facts_of(f: MoveFacts, fen: Seq<char>, from: int, to: int) -> bool {
    &&& f.black == sf_fen_black(fen)
    &&& f.moving == sf_fen_piece_kind(fen, from)
    &&& f.target == sf_fen_piece_kind(fen, to)
    &&& f.short_right == sf_fen_castling_right(fen, sf_fen_black(fen), true)
    &&& f.long_right == sf_fen_castling_right(fen, sf_fen_black(fen), false)
    &&& f.ep_square as int == sf_fen_ep_square(fen)
    &&& f.ep_text@ == square_debug_text(sf_fen_ep_square(fen) as nat)
}

/// `d` with an explicit sign, as `{:+}` formats it.
pub open spec fn signed_text(d: int) -> Seq<char> {
    if d >= 0 { seq!['+'] + decimal(d as nat) } else { seq!['-'] + decimal((-d) as nat) }
}

/// How a non-promotion move `from -> to` (UCI text `uci`) is encoded in the
/// position sfbinpack reads from `fen`: a king moving more than one file
/// castles (king captures rook) when it stands on e1/e8 and the side to
/// move has the right, and is an FRC castle otherwise; a pawn moving
/// diagonally to an empty square must land on the en-passant square;
/// anything else is a normal move.
pub open spec fn spec_decide_move(uci: Seq<char>, from: int, to: int, fen: Seq<char>) -> Result<
    MoveSpec,
    (ErrorKind, Seq<char>),
> {
    let black = sf_fen_black(fen);
    let file_diff = to % 8 - from % 8;
    if sf_fen_piece_kind(fen, from) == PieceKind::King && (file_diff > 1 || file_diff < -1) {
        let home = if black { 60int } else { 4int };
        if from != home {
            Err((ErrorKind::FrcCastle, "king on "@ + square_debug_text(from as nat) + " (not e1/e8) moved "@
                + signed_text(file_diff) + " files: "@ + uci))
        } else {
            let kingside = file_diff > 0;
            if sf_fen_castling_right(fen, black, kingside) {
                let rook = if kingside { if black { 63int } else { 7int } } else { if black { 56int } else { 0int } };
                Ok(MoveSpec { from: from as u8, to: rook as u8, kind: MoveKind::Castle })
            } else {
                Err((ErrorKind::FrcCastle, "king move "@ + uci + " looks like FRC "@ + (if kingside {
                    "kingside"@
                } else {
                    "queenside"@
                }) + " castle but no rights"@))
            }
        }
    } else if sf_fen_piece_kind(fen, from) == PieceKind::Pawn && from % 8 != to % 8 && sf_fen_piece_kind(
        fen,
        to,
    ) == PieceKind::Empty {
        if sf_fen_ep_square(fen) == to {
            Ok(MoveSpec { from: from as u8, to: to as u8, kind: MoveKind::EnPassant })
        } else {
            Err((ErrorKind::InvalidMove, "diagonal pawn to empty non-ep square: "@ + uci
                + " (position ep square is "@ + square_debug_text(sf_fen_ep_square(fen) as nat) + ")"@))
        }
    } else {
        Ok(MoveSpec { from: from as u8, to: to as u8, kind: MoveKind::Normal })
    }
}

/// Append `d` with an explicit sign.
fn push_signed(s: &mut String, d: i32)
    requires
        d > i32::MIN,
    ensures
        final(s)@ == old(s)@ + signed_text(d as int),
{
    if d >= 0 {
        s.push('+');
        push_decimal(s, d as u64);
    } else {
        s.push('-');
        push_decimal(s, (-d) as u64);
    }
    assert(final(s)@ =~= old(s)@ + signed_text(d as int));
}

/// Decide how the move `from -> to` (UCI text `uci`, no promotion) is
/// encoded in the position the facts `f` were read from.
fn decide_move(uci: &str, from: u8, to: u8, f: &MoveFacts, Ghost(fen): Ghost<Seq<char>>) -> (r: Result<
    MoveSpec,
    BinpackError,
>)
    requires
        from < 64,
        to < 64,
        facts_of(*f, fen, from as int, to as int),
    ensures
        outcome_is(r, spec_decide_move(uci@, from as int, to as int, fen)),
{
    let file_diff: i32 = (to % 8) as i32 - (from % 8) as i32;
    if f.moving == PieceKind::King && (file_diff > 1 || file_diff < -1) {
        let home: u8 = if f.black { 60 } else { 4 };
        if from != home {
            let mut msg = concat3("king on ", sf_square_debug(from).as_str(), " (not e1/e8) moved ");
            push_signed(&mut msg, file_diff);
            msg.append(" files: ");
            msg.append(uci);
            return Err(BinpackError::FrcCastle(msg));
        }
        let kingside = file_diff > 0;
        let has_right = if kingside { f.short_right } else { f.long_right };
        if has_right {
            let rook: u8 = if kingside { if f.black { 63 } else { 7 } } else { if f.black { 56 } else { 0 } };
            return Ok(MoveSpec { from, to: rook, kind: MoveKind::Castle });
        } else {
            let mut msg = concat3("king move ", uci, " looks like FRC ");
            msg.append(if kingside { "kingside" } else { "queenside" });
            msg.append(" castle but no rights");
            return Err(BinpackError::FrcCastle(msg));
        }
    }
    if f.moving == PieceKind::Pawn && from % 8 != to % 8 && f.target == PieceKind::Empty {
        if f.ep_square == to {
            return Ok(MoveSpec { from, to, kind: MoveKind::EnPassant });
        } else {
            let mut msg = concat3("diagonal pawn to empty non-ep square: ", uci, " (position ep square is ");
            msg.append(f.ep_text.as_str());
            msg.append(")");
            return Err(BinpackError::InvalidMove(msg));
        }
    }
    Ok(MoveSpec { from, to, kind: MoveKind::Normal })
}

/// The encoding of the UCI move `uci` (in standard coordinates) in the
/// position sfbinpack reads from `fen`: squares and a promotion letter are
/// read from the text, a promotion takes the colour of the side to move,
/// and the rest is `spec_decide_move`.
pub open spec fn spec_parse_uci_move(uci: Seq<char>, fen: Seq<char>) -> Result<
    MoveSpec,
    (ErrorKind, Seq<char>),
> {
    if uci.len() < 4 || uci.len() > 5 {
        Err((ErrorKind::InvalidMove, "bad length: "@ + uci))
    } else if square_index(uci[0], uci[1]) is None {
        Err((ErrorKind::InvalidMove, "bad from square: "@ + uci))
    } else if square_index(uci[2], uci[3]) is None {
        Err((ErrorKind::InvalidMove, "bad to square: "@ + uci))
    } else {
        let from = square_index(uci[0], uci[1])->0;
        let to = square_index(uci[2], uci[3])->0;
        if uci.len() == 5 {
            let c = uci[4];
            if c == 'q' || c == 'r' || c == 'b' || c == 'n' {
                let piece = if c == 'q' {
                    PromotionPiece::Queen
                } else if c == 'r' {
                    PromotionPiece::Rook
                } else if c == 'b' {
                    PromotionPiece::Bishop
                } else {
                    PromotionPiece::Knight
                };
                Ok(
                    MoveSpec {
                        from: from as u8,
                        to: to as u8,
                        kind: MoveKind::Promotion { piece, black: sf_fen_black(fen) },
                    },
                )
            } else {
                Err((ErrorKind::InvalidMove, "bad promo piece: "@ + seq![c]))
            }
        } else {
            spec_decide_move(uci, from, to, fen)
        }
    }
}

/// A castle is the king taking its own rook on its own back rank: the king
/// leaves its home square (e1 for White, e8 for Black, by the side to move)
/// for the rook's square three files to the right (short, when the move
/// goes right) or four to the left (long), on the same rank.
pub proof fn law_castle_takes_own_rook(uci: Seq<char>, fen: Seq<char>)
    ensures
        spec_parse_uci_move(uci, fen) matches Ok(m) ==> m.kind == MoveKind::Castle ==> {
            &&& m.from == (if sf_fen_black(fen) { 60int } else { 4int })
            &&& m.to / 8 == m.from / 8
            &&& (m.to == m.from + 3 || m.to + 4 == m.from)
            &&& (m.to == m.from + 3) == (square_index(uci[2], uci[3])->0 % 8 > m.from % 8)
        },
{
}

/// The move of a converted record that is a castle is the king taking its
/// own rook on its own back rank.
pub proof fn law_converted_castle_takes_own_rook(rec: V6Record)
    ensures
        spec_convert(rec) matches Ok(m) ==> m.kind == MoveKind::Castle ==> {
            &&& m.to / 8 == m.from / 8
            &&& (m.to == m.from + 3 || m.to + 4 == m.from)
            &&& m.from % 8 == 4
        },
{
    if spec_convert(rec) is Ok {
        let f = spec_fen(rec)->Ok_0;
        let u = spec_best_move_text(rec, f)->Ok_0;
        law_castle_takes_own_rook(u, f);
    }
}

fn read_square(f: char, r: char) -> (res: Option<u8>)
    ensures
        match (res, square_index(f, r)) {
            (Some(a), Some(b)) => a == b && a < 64,
            (None, None) => true,
            _ => false,
        },
{
    if 'a' <= f && f <= 'h' && '1' <= r && r <= '8' {
        Some(((r as u32 - 49) * 8 + (f as u32 - 97)) as u8)
    } else {
        None
    }
}

/// The facts of the move `from -> to` as sfbinpack reports them.
fn position_facts(pos: &SfPosition, from: u8, to: u8) -> (f: MoveFacts)
    requires
        from < 64,
        to < 64,
    ensures
        facts_of(f, pos@, from as int, to as int),
{
    let black = sf_black_to_move(pos);
    MoveFacts {
        black,
        moving: sf_piece_kind_at(pos, from),
        target: sf_piece_kind_at(pos, to),
        short_right: sf_has_castling_right(pos, black, true),
        long_right: sf_has_castling_right(pos, black, false),
        ep_square: sf_ep_square(pos),
        ep_text: sf_ep_square_debug(pos),
    }
}

/// Parse a UCI move (already in standard coordinates) into its binpack
/// encoding in the position `pos`.  Lengths count characters; for the
/// ASCII text of policy moves they are byte lengths as well.
fn parse_uci_move(uci: &str, pos: &SfPosition) -> (r: Result<MoveSpec, BinpackError>)
    ensures
        outcome_is(r, spec_parse_uci_move(uci@, pos@)),
{
    let n = uci.unicode_len();
    if n < 4 || n > 5 {
        return Err(BinpackError::InvalidMove(concat2("bad length: ", uci)));
    }
    let from = match read_square(uci.get_char(0), uci.get_char(1)) {
        Some(s) => s,
        None => {
            return Err(BinpackError::InvalidMove(concat2("bad from square: ", uci)));
        },
    };
    let to = match read_square(uci.get_char(2), uci.get_char(3)) {
        Some(s) => s,
        None => {
            return Err(BinpackError::InvalidMove(concat2("bad to square: ", uci)));
        },
    };
    if n == 5 {
        let c = uci.get_char(4);
        let piece = if c == 'q' {
            PromotionPiece::Queen
        } else if c == 'r' {
            PromotionPiece::Rook
        } else if c == 'b' {
            PromotionPiece::Bishop
        } else if c == 'n' {
            PromotionPiece::Knight
        } else {
            let mut msg = "bad promo piece: ".to_owned();
            msg.push(c);
            assert(msg@ =~= "bad promo piece: "@ + seq![c]);
            return Err(BinpackError::InvalidMove(msg));
        };
        let black = sf_black_to_move(pos);
        return Ok(MoveSpec { from, to, kind: MoveKind::Promotion { piece, black } });
    }
    let f = position_facts(pos, from, to);
    decide_move(uci, from, to, &f, Ghost(pos@))
}

// ── Standard-chess legality ──────────────────────────────────────────────────

/// The position of a record as shakmaty sees it, kept for the tablebase probe.
struct LegalityResult {
    shakmaty_pos: StandardPosition,
}

/// Whether shakmaty takes `fen` for a standard-chess position and `uci` for
/// a legal move in it; anything it rejects is taken for an FRC record.
pub open spec fn spec_legality(uci: Seq<char>, fen: Seq<char>) -> Result<(), (ErrorKind, Seq<char>)> {
    if !(shakmaty_fen_parses(fen) && shakmaty_setup_is_standard(fen)) {
        Err((ErrorKind::FrcCastle, "position invalid in standard chess (FRC): "@ + fen))
    } else if !(shakmaty_uci_parses(uci) && shakmaty_uci_is_legal(fen, uci)) {
        Err((ErrorKind::FrcCastle, "move "@ + uci + " illegal in standard chess (FRC): "@ + fen))
    } else {
        Ok(())
    }
}

/// Check with shakmaty that `fen` is a standard-chess position and `uci` a
/// legal move in it.  Anything shakmaty rejects is taken for an FRC record
/// that slipped through the classical-format filter.
fn check_legal_standard_chess(uci: &str, fen: &str) -> (r: Result<LegalityResult, BinpackError>)
    ensures
        match (r, spec_legality(uci@, fen@)) {
            (Ok(l), Ok(())) => l.shakmaty_pos@ == fen@,
            (Err(e), Err((k, t))) => error_is(e, k, t),
            _ => false,
        },
{
    let pos = match StandardPosition::from_fen(fen) {
        Some(p) => p,
        None => {
            return Err(BinpackError::FrcCastle(concat2("position invalid in standard chess (FRC): ", fen)));
        },
    };
    let is_legal = match sm_parse_uci(uci) {
        Some(m) => sm_uci_is_legal(m, &pos),
        None => false,
    };
    if !is_legal {
        let mut msg = concat3("move ", uci, " illegal in standard chess (FRC): ");
        msg.append(fen);
        return Err(BinpackError::FrcCastle(msg));
    }
    Ok(LegalityResult { shakmaty_pos: pos })
}

// ── Entry construction ───────────────────────────────────────────────────────

/// The message for a policy index beyond the table.
pub open spec fn out_of_range_text(idx: int) -> Seq<char> {
    "best_idx "@ + decimal(idx as nat) + " out of range (max "@ + decimal((policy_len() - 1) as nat) + ")"@
}

/// The UCI text of the record's best move in standard coordinates: the
/// policy move, mirrored vertically exactly when Black is to move in the
/// position sfbinpack reads from `fen`.
pub open spec fn spec_best_move_text(rec: V6Record, fen: Seq<char>) -> Result<Seq<char>, (ErrorKind, Seq<char>)> {
    match policy_move_text(rec.best_idx as int) {
        None => Err((ErrorKind::InvalidMove, out_of_range_text(rec.best_idx as int))),
        Some(t) => if sf_fen_black(fen) {
            match spec_mirror_uci_move(t) {
                Some(m) => Ok(m),
                None => Err((ErrorKind::InvalidMove, "could not mirror move: "@ + t)),
            }
        } else {
            Ok(t)
        },
    }
}

/// How a record converts: its FEN, its best move in standard coordinates,
/// the standard-chess check, then the encoding of the move in the position.
pub open spec fn spec_convert(rec: V6Record) -> Result<MoveSpec, (ErrorKind, Seq<char>)> {
    match spec_fen(rec) {
        Err(m) => Err((ErrorKind::Fen, m)),
        Ok(f) => match spec_best_move_text(rec, f) {
            Err(e) => Err(e),
            Ok(u) => match spec_legality(u, f) {
                Err(e) => Err(e),
                Ok(_) => spec_parse_uci_move(u, f),
            },
        },
    }
}

/// Convert one record into a buffered entry at game ply `ply`, with the
/// centipawn `score` and side-to-move `result` the caller derived from the
/// record's search values, probing the tablebase with `prober`.
///
/// The FEN, the move and the evaluation all describe the same position.
/// With Black to move the policy move is mirrored vertically before it is
/// applied to the standard-orientation FEN.
fn record_to_converted(rec: &V6Record, ply: u16, prober: &SyzygyProber, score: i16, result: i16) -> (r: Result<
    BufferedEntry,
    BinpackError,
>)
    requires
        rec.wf(),
    ensures
        match (r, spec_convert(*rec)) {
            (Ok(e), Ok(mv)) => e.mv == mv && e.score == score && e.ply == ply && e.result == result,
            (Err(e), Err((k, t))) => error_is(e, k, t),
            _ => false,
        },
        r matches Ok(e) ==> e.pos@ == spec_fen(*rec)->Ok_0,
        r matches Ok(e) ==> (e.tb_result matches Some(v) ==> {
            &&& -1 <= v <= 1
            &&& prober.spec_loaded()
            &&& shakmaty_piece_count(spec_fen(*rec)->Ok_0) <= MAX_PIECES
        }),
{
    let fen = match record_to_fen(rec) {
        Ok(f) => f,
        Err(e) => return Err(BinpackError::Fen(e)),
    };
    assert(rec.wf() && spec_fen(*rec) == Ok::<Seq<char>, Seq<char>>(fen@));
    let pos = match sf_position_from_fen(fen.as_str()) {
        Ok(p) => p,
        Err(e) => {
            let mut msg = e;
            msg.append(" for FEN: ");
            msg.append(fen.as_str());
            return Err(BinpackError::InvalidPosition(msg));
        },
    };
    let table_move = match idx_to_move(rec.best_idx) {
        Some(m) => m,
        None => {
            let len = policy_table_len();
            let mut msg = "best_idx ".to_owned();
            push_decimal(&mut msg, rec.best_idx as u64);
            msg.append(" out of range (max ");
            push_decimal(&mut msg, (len - 1) as u64);
            msg.append(")");
            assert(msg@ =~= out_of_range_text(rec.best_idx as int));
            return Err(BinpackError::InvalidMove(msg));
        },
    };
    let black_to_move = sf_black_to_move(&pos);
    let uci = if black_to_move {
        match mirror_uci_move(table_move.as_str()) {
            Some(m) => m,
            None => {
                return Err(BinpackError::InvalidMove(concat2("could not mirror move: ", table_move.as_str())));
            },
        }
    } else {
        table_move
    };
    let legality = match check_legal_standard_chess(uci.as_str(), fen.as_str()) {
        Ok(l) => l,
        Err(e) => return Err(e),
    };
    let tb_result = prober.probe(fen.as_str(), &legality.shakmaty_pos);
    let mv = match parse_uci_move(uci.as_str(), &pos) {
        Ok(m) => m,
        Err(e) => return Err(e),
    };
    Ok(BufferedEntry { pos, mv, score, ply, result, tb_result })
}

// ── Square mirroring ─────────────────────────────────────────────────────────

pub open spec fn is_file_char(c: char) -> bool {
    'a' <= c <= 'h'
}

pub open spec fn is_rank_char(c: char) -> bool {
    '1' <= c <= '8'
}

/// The rank digit on the other side of the board ('1' <-> '8').
pub open spec fn mirrored_rank_char(c: char) -> char {
    ((49 + (56 - c as int)) as u8) as char
}

/// `s` mirrored vertically when it is a square such as "e2".
pub open spec fn spec_mirror_square(s: Seq<char>) -> Option<Seq<char>> {
    if s.len() == 2 && is_file_char(s[0]) && is_rank_char(s[1]) {
        Some(seq![s[0], mirrored_rank_char(s[1])])
    } else {
        None
    }
}

/// `u` mirrored vertically when it is a UCI move of two squares and an
/// optional one-byte promotion letter.
pub open spec fn spec_mirror_uci_move(u: Seq<char>) -> Option<Seq<char>> {
    if (u.len() == 4 || (u.len() == 5 && (u[4] as int) < 128)) && spec_mirror_square(
        u.subrange(0, 2),
    ) is Some && spec_mirror_square(u.subrange(2, 4)) is Some {
        Some(
            spec_mirror_square(u.subrange(0, 2))->0 + spec_mirror_square(u.subrange(2, 4))->0
                + u.subrange(4, u.len() as int),
        )
    } else {
        None
    }
}

/// Mirror a square string vertically (rank 1 <-> rank 8).  Policy moves are
/// given in the side-to-move frame; with Black to move their squares must
/// be un-flipped before they apply to a standard FEN.
pub fn mirror_square(sq_str: &str) -> (r: Option<String>)
    ensures
        match (r, spec_mirror_square(sq_str@)) {
            (Some(s), Some(t)) => s@ == t,
            (None, None) => true,
            _ => false,
        },
{
    if sq_str.unicode_len() != 2 {
        return None;
    }
    let file = sq_str.get_char(0);
    let rank = sq_str.get_char(1);
    if !('a' <= file && file <= 'h') || !('1' <= rank && rank <= '8') {
        return None;
    }
    let mut s = String::new();
    s.push(file);
    s.push(((49 + (56 - rank as u32)) as u8) as char);
    assert(s@ =~= seq![file, mirrored_rank_char(rank)]);
    Some(s)
}

/// Mirror a UCI move (4 characters, or 5 with a promotion letter) vertically.
pub fn mirror_uci_move(uci: &str) -> (r: Option<String>)
    ensures
        match (r, spec_mirror_uci_move(uci@)) {
            (Some(s), Some(t)) => s@ == t,
            (None, None) => true,
            _ => false,
        },
{
    let n = uci.unicode_len();
    if n < 4 || n > 5 {
        return None;
    }
    if n == 5 && (uci.get_char(4) as u32) >= 128 {
        return None;
    }
    let from = match mirror_square(uci.substring_char(0, 2)) {
        Some(f) => f,
        None => return None,
    };
    let to = match mirror_square(uci.substring_char(2, 4)) {
        Some(t) => t,
        None => return None,
    };
    let mut s = from;
    s.append(to.as_str());
    s.append(uci.substring_char(4, n));
    Some(s)
}

// ── Result propagation ───────────────────────────────────────────────────────

/// `h` is the index of the first entry with a tablebase result.
pub open spec fn is_first_hit(tbs: Seq<Option<i16>>, h: int) -> bool {
    &&& 0 <= h < tbs.len()
    &&& tbs[h] is Some
    &&& forall|j: int| 0 <= j < h ==> tbs[j] is None
}

/// `t` seen from a position `d` plies away (the side to move alternates).
pub open spec fn flipped(t: int, d: int) -> int {
    if d % 2 == 0 { t } else { -t }
}

/// The result at index `i` after propagating the tablebase result `t` found
/// at index `h`, given its previous value `old`.
pub open spec fn patched_result(old: int, i: int, h: int, t: int, mode: BackpropMode) -> int {
    if i >= h {
        flipped(t, i - h)
    } else if i >= h - backward_reach(mode, h) {
        flipped(t, h - i)
    } else {
        old
    }
}

/// Number of indices at which `a` and `b` differ.
pub open spec fn count_changed(a: Seq<i16>, b: Seq<i16>) -> nat
    decreases a.len(),
{
    if a.len() == 0 {
        0
    } else {
        count_changed(a.drop_last(), b.drop_last()) + (if a.last() != b.last() { 1nat } else { 0nat })
    }
}

/// Number of entries of `s` equal to `v`.
pub open spec fn count_result(s: Seq<i16>, v: int) -> nat
    decreases s.len(),
{
    if s.len() == 0 {
        0
    } else {
        count_result(s.drop_last(), v) + (if s.last() == v { 1nat } else { 0nat })
    }
}

pub open spec fn results_of(entries: Seq<BufferedEntry>) -> Seq<i16> {
    entries.map_values(|e: BufferedEntry| e.result)
}

pub open spec fn tb_results_of(entries: Seq<BufferedEntry>) -> Seq<Option<i16>> {
    entries.map_values(|e: BufferedEntry| e.tb_result)
}

proof fn lemma_some_hit_has_first(tbs: Seq<Option<i16>>, j: int)
    requires
        0 <= j < tbs.len(),
        tbs[j] is Some,
    ensures
        exists|h: int| is_first_hit(tbs, h),
    decreases j,
{
    if forall|k: int| 0 <= k < j ==> tbs[k] is None {
        assert(is_first_hit(tbs, j));
    } else {
        let k = choose|k: int| 0 <= k < j && !(tbs[k] is None);
        lemma_some_hit_has_first(tbs, k);
    }
}

/// The buffered entries hold a tablebase result.
pub open spec fn has_hit(entries: Seq<BufferedEntry>) -> bool {
    exists|i: int| 0 <= i < entries.len() && #[trigger] entries[i].tb_result is Some
}

/// At most one of the entries holds a tablebase result.
pub open spec fn at_most_one_hit(entries: Seq<BufferedEntry>) -> bool {
    forall|i: int, j: int|
        0 <= i < j < entries.len() && #[trigger] entries[i].tb_result is Some ==> #[trigger] entries[j].tb_result
            is None
}

/// `b` is `a` with only the results replaced by `results`.
pub open spec fn same_but_results(a: Seq<BufferedEntry>, b: Seq<BufferedEntry>) -> bool {
    &&& a.len() == b.len()
    &&& forall|i: int|
        0 <= i < a.len() ==> {
            &&& #[trigger] b[i].pos == a[i].pos
            &&& b[i].mv == a[i].mv
            &&& b[i].score == a[i].score
            &&& b[i].ply == a[i].ply
            &&& b[i].tb_result == a[i].tb_result
        }
}

/// A prefix holds no more entries equal to `v` than the whole, and one
/// more than the shorter prefix when its last entry is `v`.
proof fn lemma_count_result_prefix(s: Seq<i16>, i: int, v: int)
    requires
        0 <= i < s.len(),
    ensures
        count_result(s.take(i + 1), v) == count_result(s.take(i), v) + (if s[i] == v { 1nat } else { 0nat }),
        count_result(s.take(i + 1), v) <= count_result(s, v),
    decreases s.len() - i,
{
    assert(s.take(i + 1).drop_last() =~= s.take(i));
    if i + 1 < s.len() {
        lemma_count_result_prefix(s, i + 1, v);
    } else {
        assert(s.take(i + 1) =~= s);
    }
}

proof fn lemma_count_changed_step(a: Seq<i16>, b: Seq<i16>, n: int)
    requires
        0 <= n < a.len(),
        a.len() == b.len(),
    ensures
        count_changed(a.take(n + 1), b.take(n + 1)) == count_changed(a.take(n), b.take(n)) + (
        if a[n] != b[n] { 1nat } else { 0nat }),
{
    assert(a.take(n + 1).drop_last() =~= a.take(n));
    assert(b.take(n + 1).drop_last() =~= b.take(n));
}

proof fn lemma_count_changed_same(a: Seq<i16>)
    ensures
        count_changed(a, a) == 0,
    decreases a.len(),
{
    if a.len() > 0 {
        lemma_count_changed_same(a.drop_last());
    }
}

proof fn lemma_count_changed_le(a: Seq<i16>, b: Seq<i16>)
    requires
        a.len() == b.len(),
    ensures
        count_changed(a, b) <= a.len(),
    decreases a.len(),
{
    if a.len() > 0 {
        lemma_count_changed_le(a.drop_last(), b.drop_last());
    }
}

/// Patch the results of `entries` from the first tablebase hit: forward to
/// the end of the game always, backward as far as `mode` allows, flipping
/// the sign at every ply.  Returns how many results changed value.
pub fn propagate_tb_result(entries: &mut Vec<BufferedEntry>, mode: BackpropMode) -> (changed: usize)
    requires
        forall|h: int|
            is_first_hit(tb_results_of(old(entries)@), h) ==> old(entries)@[h].tb_result != Some(
                i16::MIN,
            ),
    ensures
        same_but_results(old(entries)@, final(entries)@),
        changed == count_changed(results_of(old(entries)@), results_of(final(entries)@)),
        (forall|j: int| 0 <= j < old(entries)@.len() ==> old(entries)@[j].tb_result is None)
            ==> final(entries)@ == old(entries)@ && changed == 0,
        forall|h: int|
            is_first_hit(tb_results_of(old(entries)@), h) ==> {
                &&& forall|i: int|
                    0 <= i < old(entries)@.len() ==> #[trigger] final(entries)@[i].result
                        == patched_result(
                        old(entries)@[i].result as int,
                        i,
                        h,
                        old(entries)@[h].tb_result->0 as int,
                        mode,
                    )
                &&& changed == count_changed(
                    results_of(old(entries)@),
                    results_of(final(entries)@),
                )
            },
{
    let ghost orig = entries@;
    let n = entries.len();
    let mut hit: usize = 0;
    while hit < n && entries[hit].tb_result.is_none()
        invariant
            hit <= n,
            n == entries@.len(),
            entries@ == orig,
            forall|j: int| 0 <= j < hit ==> orig[j].tb_result is None,
        decreases n - hit,
    {
        hit = hit + 1;
    }
    if hit == n {
        proof {
            lemma_count_changed_same(results_of(orig));
        }
        return 0;
    }
    let t: i16 = match entries[hit].tb_result {
        Some(v) => v,
        None => 0,
    };
    assert(is_first_hit(tb_results_of(orig), hit as int));
    let ghost h = hit as int;
    let reach: usize = match mode {
        BackpropMode::Off => 0,
        BackpropMode::Unlimited => hit,
        BackpropMode::Limited(lim) => if (lim as usize) < hit { lim as usize } else { hit },
    };
    let start = hit - reach;
    let mut changed: usize = 0;
    let mut i: usize = 0;
    while i < n
        invariant
            i <= n,
            n == entries@.len(),
            n == orig.len(),
            hit == h,
            start == h - backward_reach(mode, h),
            0 <= start <= h < n,
            t == orig[h].tb_result->0,
            t != i16::MIN,
            same_but_results(orig, entries@),
            forall|j: int|
                0 <= j < i ==> #[trigger] entries@[j].result == patched_result(
                    orig[j].result as int,
                    j,
                    h,
                    t as int,
                    mode,
                ),
            forall|j: int| i <= j < n ==> #[trigger] entries@[j].result == orig[j].result,
            changed == count_changed(
                results_of(orig).take(i as int),
                results_of(entries@).take(i as int),
            ),
            changed <= i,
        decreases n - i,
    {
        let old_result = entries[i].result;
        let new_result: i16 = if i >= hit {
            if (i - hit) % 2 == 0 {
                t
            } else {
                -t
            }
        } else if i >= start {
            if (hit - i) % 2 == 0 {
                t
            } else {
                -t
            }
        } else {
            old_result
        };
        let ghost before = entries@;
        let e = BufferedEntry {
            pos: entries[i].pos,
            mv: entries[i].mv,
            score: entries[i].score,
            ply: entries[i].ply,
            result: new_result,
            tb_result: entries[i].tb_result,
        };
        assert(e.pos == before[i as int].pos);
        assert(e.mv == before[i as int].mv);
        proof {
            if i >= hit {
                assert(new_result == flipped(t as int, i - h));
            } else if i >= start {
                assert(new_result == flipped(t as int, h - i));
            } else {
                assert(new_result == orig[i as int].result);
            }
        }
        assert(new_result == patched_result(orig[i as int].result as int, i as int, h, t as int, mode));
        entries.set(i, e);
        assert(forall|j: int| 0 <= j < n && j != i ==> entries@[j] == before[j]);
        assert(same_but_results(orig, entries@)) by {
            assert forall|j: int| 0 <= j < n implies #[trigger] entries@[j].pos == orig[j].pos
                && entries@[j].mv == orig[j].mv && entries@[j].score == orig[j].score
                && entries@[j].ply == orig[j].ply && entries@[j].tb_result == orig[j].tb_result by {
                if j != i {
                    assert(entries@[j] == before[j]);
                }
            }
        }
        proof {
            let ro = results_of(orig);
            let rn = results_of(entries@);
            lemma_count_changed_step(ro, rn, i as int);
            assert(ro.take(i as int) =~= results_of(orig).take(i as int));
            assert(rn.take(i as int) =~= results_of(before).take(i as int));
        }
        if new_result != old_result {
            changed = changed + 1;
        }
        i = i + 1;
    }
    proof {
        assert(results_of(orig).take(n as int) =~= results_of(orig));
        assert(results_of(entries@).take(n as int) =~= results_of(entries@));
        assert forall|hh: int| is_first_hit(tb_results_of(orig), hh) implies hh == h by {
            if hh < h {
                assert(tb_results_of(orig)[hh] is Some);
            }
            if h < hh {
                assert(tb_results_of(orig)[h] is Some);
            }
        }
    }
    changed
}

// ── Laws of result propagation ───────────────────────────────────────────────

/// The results after propagating `t` found at index `h`.
pub open spec fn patched_seq(old: Seq<i16>, h: int, t: int, mode: BackpropMode) -> Seq<i16> {
    Seq::new(old.len(), |i: int| patched_result(old[i] as int, i, h, t, mode) as i16)
}

/// The hit itself takes the tablebase value, and every later position the
/// value seen from its own side to move: the sign flips with every ply.
pub proof fn law_forward_propagation(old: int, i: int, h: int, t: int, mode: BackpropMode)
    requires
        h <= i,
    ensures
        patched_result(old, i, h, t, mode) == (if (i - h) % 2 == 0 { t } else { -t }),
        i == h ==> patched_result(old, i, h, t, mode) == t,
{
}

/// Without backward propagation every position before the hit keeps its result.
pub proof fn law_off_keeps_earlier_results(old: int, i: int, h: int, t: int)
    requires
        0 <= i < h,
    ensures
        patched_result(old, i, h, t, BackpropMode::Off) == old,
{
}

/// A limit of `n` plies patches exactly the `n` positions before the hit
/// (all of them when the hit is closer to the start) and keeps the rest.
pub proof fn law_limited_reach(old: int, i: int, h: int, t: int, n: u16)
    requires
        0 <= i < h,
    ensures
        h - i <= n ==> patched_result(old, i, h, t, BackpropMode::Limited(n)) == (if (h - i) % 2 == 0 {
            t
        } else {
            -t
        }),
        h - i > n ==> patched_result(old, i, h, t, BackpropMode::Limited(n)) == old,
{
}

/// Unlimited backward propagation is a limit that reaches the start of the game.
pub proof fn law_unlimited_is_large_limit(old: int, i: int, h: int, t: int, n: u16)
    requires
        0 <= h <= n,
    ensures
        patched_result(old, i, h, t, BackpropMode::Unlimited) == patched_result(
            old,
            i,
            h,
            t,
            BackpropMode::Limited(n),
        ),
{
}

/// Within the patched stretch of a game consecutive positions have opposite results.
pub proof fn law_results_alternate(a: int, b: int, i: int, h: int, t: int, mode: BackpropMode)
    requires
        h - backward_reach(mode, h) <= i,
        0 <= backward_reach(mode, h) <= h,
    ensures
        patched_result(b, i + 1, h, t, mode) == -patched_result(a, i, h, t, mode),
{
}

/// Propagation only ever writes win, draw or loss: a result in -1..=1
/// stays in -1..=1 when the tablebase value is in -1..=1.
pub proof fn law_patched_results_stay_in_range(old: int, i: int, h: int, t: int, mode: BackpropMode)
    requires
        -1 <= old <= 1,
        -1 <= t <= 1,
    ensures
        -1 <= patched_result(old, i, h, t, mode) <= 1,
{
}

/// Propagating the same hit a second time changes nothing more: the
/// results are those of the first pass, and no position counts as changed.
pub proof fn law_propagation_is_idempotent(old: Seq<i16>, h: int, t: int, mode: BackpropMode)
    requires
        0 <= h,
        0 <= backward_reach(mode, h) <= h,
        i16::MIN < t <= i16::MAX,
    ensures
        patched_seq(patched_seq(old, h, t, mode), h, t, mode) == patched_seq(old, h, t, mode),
        count_changed(patched_seq(old, h, t, mode), patched_seq(patched_seq(old, h, t, mode), h, t, mode))
            == 0,
{
    let once = patched_seq(old, h, t, mode);
    let twice = patched_seq(once, h, t, mode);
    assert(twice =~= once);
    lemma_count_changed_same(once);
}

proof fn lemma_patched_seq_drop_last(old: Seq<i16>, h: int, t: int, mode: BackpropMode)
    requires
        old.len() > 0,
    ensures
        patched_seq(old, h, t, mode).drop_last() =~= patched_seq(old.drop_last(), h, t, mode),
{
}

/// Propagating further back never corrects fewer positions: with a reach
/// of at least the reach of `m1`, `m2` changes every result `m1` changes.
pub proof fn law_corrections_grow_with_reach(old: Seq<i16>, h: int, t: int, m1: BackpropMode, m2: BackpropMode)
    requires
        0 <= h,
        backward_reach(m1, h) <= backward_reach(m2, h),
        0 <= backward_reach(m1, h),
    ensures
        count_changed(old, patched_seq(old, h, t, m1)) <= count_changed(old, patched_seq(old, h, t, m2)),
    decreases old.len(),
{
    if old.len() > 0 {
        lemma_patched_seq_drop_last(old, h, t, m1);
        lemma_patched_seq_drop_last(old, h, t, m2);
        law_corrections_grow_with_reach(old.drop_last(), h, t, m1, m2);
    }
}

/// Every result that is a win, a draw or a loss is counted exactly once.
pub proof fn law_tally_counts_each_result(s: Seq<i16>)
    requires
        forall|i: int| 0 <= i < s.len() ==> -1 <= #[trigger] s[i] <= 1,
    ensures
        count_result(s, 1) + count_result(s, 0) + count_result(s, -1) == s.len(),
    decreases s.len(),
{
    if s.len() > 0 {
        assert forall|i: int| 0 <= i < s.drop_last().len() implies -1 <= #[trigger] s.drop_last()[i] <= 1 by {
            assert(s.drop_last()[i] == s[i]);
        }
        law_tally_counts_each_result(s.drop_last());
    }
}

/// Mirroring a square or a UCI move twice gives it back.
pub proof fn law_mirror_involution(s: Seq<char>)
    ensures
        spec_mirror_square(s) matches Some(m) ==> spec_mirror_square(m) == Some(s),
        spec_mirror_uci_move(s) matches Some(m) ==> spec_mirror_uci_move(m) == Some(s),
{
    if spec_mirror_square(s) is Some {
        let m = spec_mirror_square(s)->0;
        assert(spec_mirror_square(m)->0 =~= s);
    }
    if spec_mirror_uci_move(s) is Some {
        let m = spec_mirror_uci_move(s)->0;
        let a = spec_mirror_square(s.subrange(0, 2))->0;
        let b = spec_mirror_square(s.subrange(2, 4))->0;
        assert(m.subrange(0, 2) =~= a);
        assert(m.subrange(2, 4) =~= b);
        assert(spec_mirror_square(a)->0 =~= s.subrange(0, 2));
        assert(spec_mirror_square(b)->0 =~= s.subrange(2, 4));
        assert(m.subrange(4, m.len() as int) =~= s.subrange(4, s.len() as int));
        assert(spec_mirror_uci_move(m)->0 =~= s);
    }
}

// ── Writer bookkeeping ───────────────────────────────────────────────────────

/// Buffers the converted records of one game at a time and keeps the
/// counters of a conversion run.  Records are buffered per game (one input
/// file is one game) so that a tablebase result can be propagated through
/// the game before its entries are written.  The entries of a finished
/// game are handed out by `flush_game`; the caller writes them to the
/// binpack stream and reports each with `entry_flushed`.
pub struct BinpackWriter {
    game_buf: Vec<BufferedEntry>,
    written: usize,
    skipped: usize,
    /// Games that produced a tablebase hit (at most one per game).
    tb_hits: usize,
    /// Positions whose result propagation changed.
    positions_corrected: usize,
    /// Results as lc0 recorded them, before any tablebase patch.
    wdl_original: WdlCounts,
    /// Results as written, after the tablebase patch.
    wdl_corrected: WdlCounts,
}

impl BinpackWriter {
    pub closed spec fn buffered(&self) -> Seq<BufferedEntry> {
        self.game_buf@
    }

    pub closed spec fn spec_wdl_original(&self) -> WdlCounts {
        self.wdl_original
    }

    pub closed spec fn spec_wdl_corrected(&self) -> WdlCounts {
        self.wdl_corrected
    }

    pub closed spec fn spec_written(&self) -> usize {
        self.written
    }

    pub closed spec fn spec_skipped(&self) -> usize {
        self.skipped
    }

    pub closed spec fn spec_tb_hits(&self) -> usize {
        self.tb_hits
    }

    pub closed spec fn spec_positions_corrected(&self) -> usize {
        self.positions_corrected
    }

    /// Every buffered tablebase result is +1, 0 or -1.
    /// Every buffered result and tablebase result is +1, 0 or -1.
    pub open spec fn wf(&self) -> bool {
        forall|i: int|
            0 <= i < self.buffered().len() ==> {
                &&& -1 <= #[trigger] self.buffered()[i].result <= 1
                &&& (self.buffered()[i].tb_result matches Some(v) ==> -1 <= v <= 1)
            }
    }

    /// An empty writer with all counters at zero.
    pub fn new() -> (r: Self)
        ensures
            r.wf(),
            r.buffered().len() == 0,
            r.spec_written() == 0,
            r.spec_skipped() == 0,
            r.spec_tb_hits() == 0,
            r.spec_positions_corrected() == 0,
            r.spec_wdl_original().total() == 0,
            r.spec_wdl_corrected().total() == 0,
    {
        BinpackWriter {
            game_buf: Vec::new(),
            written: 0,
            skipped: 0,
            tb_hits: 0,
            positions_corrected: 0,
            wdl_original: WdlCounts::default(),
            wdl_corrected: WdlCounts::default(),
        }
    }

    /// Buffer one record at game ply `ply`, with the `score` and `result`
    /// derived from its search values.  The tablebase is probed unless
    /// `tb_hit_found` says the game already had its hit.
    ///
    /// Returns `Ok((true, hit))` when the record was buffered, `hit` telling
    /// whether it produced the game's tablebase hit, and `Ok((false, false))`
    /// when it was skipped because it could not be converted.
    pub fn buffer_record(
        &mut self,
        rec: &V6Record,
        ply: u16,
        prober: &SyzygyProber,
        tb_hit_found: bool,
        score: i16,
        result: i16,
    ) -> (r: Result<(bool, bool), BinpackError>)
        requires
            rec.wf(),
            old(self).wf(),
            old(self).spec_skipped() < usize::MAX,
            old(self).spec_tb_hits() < usize::MAX,
            -1 <= result <= 1,
        ensures
            final(self).wf(),
            r is Ok,
            tb_hit_found == has_hit(old(self).buffered()) && at_most_one_hit(old(self).buffered())
                ==> at_most_one_hit(final(self).buffered()),
            final(self).spec_written() == old(self).spec_written(),
            final(self).spec_positions_corrected() == old(self).spec_positions_corrected(),
            final(self).spec_wdl_original() == old(self).spec_wdl_original(),
            final(self).spec_wdl_corrected() == old(self).spec_wdl_corrected(),
            (r matches Ok((buffered, _)) && buffered) == spec_convert(*rec) is Ok,
            r matches Ok((true, hit)) ==> {
                &&& final(self).buffered().len() == old(self).buffered().len() + 1
                &&& final(self).buffered().drop_last() == old(self).buffered()
                &&& spec_convert(*rec) == Ok::<MoveSpec, (ErrorKind, Seq<char>)>(final(self).buffered().last().mv)
                &&& final(self).buffered().last().pos@ == spec_fen(*rec)->Ok_0
                &&& final(self).buffered().last().score == score
                &&& final(self).buffered().last().ply == ply
                &&& final(self).buffered().last().result == result
                &&& hit == final(self).buffered().last().tb_result is Some
                &&& (hit ==> {
                    &&& !tb_hit_found
                    &&& prober.spec_loaded()
                    &&& shakmaty_piece_count(spec_fen(*rec)->Ok_0) <= MAX_PIECES
                })
                &&& final(self).spec_tb_hits() == old(self).spec_tb_hits() + (if hit { 1int } else { 0 })
                &&& final(self).spec_skipped() == old(self).spec_skipped()
            },
            r matches Ok((false, hit)) ==> {
                &&& !hit
                &&& final(self).buffered() == old(self).buffered()
                &&& final(self).spec_tb_hits() == old(self).spec_tb_hits()
                &&& final(self).spec_skipped() == old(self).spec_skipped() + 1
            },
    {
        let disabled = SyzygyProber::disabled();
        let effective_prober: &SyzygyProber = if tb_hit_found { &disabled } else { prober };
        match record_to_converted(rec, ply, effective_prober, score, result) {
            Ok(converted) => {
                let new_hit = converted.tb_result.is_some();
                if new_hit {
                    self.tb_hits = self.tb_hits + 1;
                }
                self.game_buf.push(converted);
                assert(self.game_buf@.drop_last() =~= old(self).game_buf@);
                assert forall|i: int| 0 <= i < self.game_buf@.len() implies {
                    &&& -1 <= #[trigger] self.game_buf@[i].result <= 1
                    &&& (self.game_buf@[i].tb_result matches Some(v) ==> -1 <= v <= 1)
                } by {
                    if i < old(self).game_buf@.len() {
                        assert(self.game_buf@[i] == old(self).game_buf@[i]);
                        assert(-1 <= old(self).buffered()[i].result <= 1);
                    }
                }
                assert(self.wf());
                Ok((true, new_hit))
            },
            Err(_) => {
                self.skipped = self.skipped + 1;
                assert(self.buffered() == old(self).buffered());
                assert(self.wf());
                Ok((false, false))
            },
        }
    }

    /// Finish the current game: tally the recorded results, propagate the
    /// game's tablebase result (forward always, backward per `mode`), count
    /// the positions that changed, and hand out the entries to write, in
    /// order.  The game buffer is empty afterwards.
    pub fn flush_game(&mut self, mode: BackpropMode) -> (entries: Vec<BufferedEntry>)
        requires
            old(self).wf(),
            old(self).spec_wdl_original().wins + count_result(results_of(old(self).buffered()), 1) <= usize::MAX,
            old(self).spec_wdl_original().draws + count_result(results_of(old(self).buffered()), 0) <= usize::MAX,
            old(self).spec_wdl_original().losses + count_result(results_of(old(self).buffered()), -1)
                <= usize::MAX,
            old(self).spec_positions_corrected() + old(self).buffered().len() <= usize::MAX,
        ensures
            final(self).wf(),
            final(self).buffered().len() == 0,
            same_but_results(old(self).buffered(), entries@),
            forall|i: int| 0 <= i < entries@.len() ==> -1 <= #[trigger] entries@[i].result <= 1,
            final(self).spec_wdl_original().total() == old(self).spec_wdl_original().total()
                + old(self).buffered().len(),
            (forall|j: int| 0 <= j < old(self).buffered().len() ==> old(self).buffered()[j].tb_result is None)
                ==> entries@ == old(self).buffered(),
            forall|h: int|
                is_first_hit(tb_results_of(old(self).buffered()), h) ==> forall|i: int|
                    0 <= i < entries@.len() ==> #[trigger] entries@[i].result == patched_result(
                        old(self).buffered()[i].result as int,
                        i,
                        h,
                        old(self).buffered()[h].tb_result->0 as int,
                        mode,
                    ),
            final(self).spec_positions_corrected() == old(self).spec_positions_corrected() + count_changed(
                results_of(old(self).buffered()),
                results_of(entries@),
            ),
            final(self).spec_wdl_original().wins == old(self).spec_wdl_original().wins + count_result(
                results_of(old(self).buffered()),
                1,
            ),
            final(self).spec_wdl_original().draws == old(self).spec_wdl_original().draws + count_result(
                results_of(old(self).buffered()),
                0,
            ),
            final(self).spec_wdl_original().losses == old(self).spec_wdl_original().losses + count_result(
                results_of(old(self).buffered()),
                -1,
            ),
            final(self).spec_wdl_corrected() == old(self).spec_wdl_corrected(),
            final(self).spec_written() == old(self).spec_written(),
            final(self).spec_skipped() == old(self).spec_skipped(),
            final(self).spec_tb_hits() == old(self).spec_tb_hits(),
    {
        let n = self.game_buf.len();
        let ghost orig = self.game_buf@;
        let mut i: usize = 0;
        while i < n
            invariant
                i <= n,
                n == self.game_buf@.len(),
                self.game_buf@ == orig,
                old(self).spec_wdl_original().wins + count_result(results_of(orig), 1) <= usize::MAX,
                old(self).spec_wdl_original().draws + count_result(results_of(orig), 0) <= usize::MAX,
                old(self).spec_wdl_original().losses + count_result(results_of(orig), -1) <= usize::MAX,
                self.wdl_original.wins == old(self).spec_wdl_original().wins + count_result(results_of(orig).take(i as int), 1),
                self.wdl_original.draws == old(self).spec_wdl_original().draws + count_result(results_of(orig).take(i as int), 0),
                self.wdl_original.losses == old(self).spec_wdl_original().losses + count_result(results_of(orig).take(i as int), -1),
                self.written == old(self).written,
                self.skipped == old(self).skipped,
                self.tb_hits == old(self).tb_hits,
                self.positions_corrected == old(self).positions_corrected,
                self.wdl_corrected == old(self).spec_wdl_corrected(),
            decreases n - i,
        {
            let result = self.game_buf[i].result;
            proof {
                lemma_count_result_prefix(results_of(orig), i as int, 1);
                lemma_count_result_prefix(results_of(orig), i as int, 0);
                lemma_count_result_prefix(results_of(orig), i as int, -1);
                assert(results_of(orig)[i as int] == result);
            }
            self.wdl_original.tally(result);
            proof {
                assert(results_of(orig).take(i + 1).drop_last() =~= results_of(orig).take(i as int));
            }
            i = i + 1;
        }
        proof {
            assert(results_of(orig).take(n as int) =~= results_of(orig));
        }
        let mut entries: Vec<BufferedEntry> = Vec::new();
        std::mem::swap(&mut entries, &mut self.game_buf);
        assert forall|k: int| 0 <= k < orig.len() implies (#[trigger] orig[k].tb_result matches Some(v) ==> -1 <= v <= 1)
            && -1 <= orig[k].result <= 1 by {
            assert(-1 <= old(self).buffered()[k].result <= 1);
        }
        let changed = propagate_tb_result(&mut entries, mode);
        proof {
            lemma_count_changed_le(results_of(orig), results_of(entries@));
            assert forall|i: int| 0 <= i < results_of(orig).len() implies -1 <= #[trigger] results_of(orig)[i] <= 1 by {
                assert(-1 <= orig[i].result <= 1);
            }
            law_tally_counts_each_result(results_of(orig));
            if exists|h: int| is_first_hit(tb_results_of(orig), h) {
                let h = choose|h: int| is_first_hit(tb_results_of(orig), h);
                assert(tb_results_of(orig)[h] is Some);
                assert forall|i: int| 0 <= i < entries@.len() implies -1 <= #[trigger] entries@[i].result <= 1 by {
                    assert(-1 <= orig[i].result <= 1);
                    law_patched_results_stay_in_range(orig[i].result as int, i, h, orig[h].tb_result->0 as int, mode);
                }
            } else {
                assert forall|j: int| 0 <= j < orig.len() implies orig[j].tb_result is None by {
                    if orig[j].tb_result is Some {
                        lemma_some_hit_has_first(tb_results_of(orig), j);
                    }
                }
            }
        }
        self.positions_corrected = self.positions_corrected + changed;
        entries
    }

    /// Record that one entry of a flushed game, with final result `result`,
    /// was handed to the binpack stream; `written` tells whether writing it
    /// succeeded.
    pub fn entry_flushed(&mut self, result: i16, written: bool)
        requires
            result == 1 ==> old(self).spec_wdl_corrected().wins < usize::MAX,
            result == 0 ==> old(self).spec_wdl_corrected().draws < usize::MAX,
            result == -1 ==> old(self).spec_wdl_corrected().losses < usize::MAX,
            written ==> old(self).spec_written() < usize::MAX,
        ensures
            final(self).spec_wdl_corrected().wins == old(self).spec_wdl_corrected().wins + (if result == 1 { 1int } else { 0 }),
            final(self).spec_wdl_corrected().draws == old(self).spec_wdl_corrected().draws + (if result == 0 { 1int } else { 0 }),
            final(self).spec_wdl_corrected().losses == old(self).spec_wdl_corrected().losses + (if result == -1 { 1int } else { 0 }),
            final(self).spec_written() == old(self).spec_written() + (if written { 1int } else { 0 }),
            final(self).buffered() == old(self).buffered(),
            final(self).spec_skipped() == old(self).spec_skipped(),
            final(self).spec_tb_hits() == old(self).spec_tb_hits(),
            final(self).spec_positions_corrected() == old(self).spec_positions_corrected(),
            final(self).spec_wdl_original() == old(self).spec_wdl_original(),
    {
        self.wdl_corrected.tally(result);
        if written {
            self.written = self.written + 1;
        }
    }

    /// Number of entries buffered for the current game.
    pub fn buffered_len(&self) -> (r: usize)
        ensures
            r == self.buffered().len(),
    {
        self.game_buf.len()
    }

    /// Results as lc0 recorded them, before any tablebase patch.
    pub fn wdl_original(&self) -> (r: WdlCounts)
        ensures
            r == self.spec_wdl_original(),
    {
        self.wdl_original
    }

    /// Results as written, after the tablebase patch.
    pub fn wdl_corrected(&self) -> (r: WdlCounts)
        ensures
            r == self.spec_wdl_corrected(),
    {
        self.wdl_corrected
    }

    /// Entries written so far.
    pub fn written(&self) -> (r: usize)
        ensures
            r == self.spec_written(),
    {
        self.written
    }

    /// Records skipped because they could not be converted.
    pub fn skipped(&self) -> (r: usize)
        ensures
            r == self.spec_skipped(),
    {
        self.skipped
    }

    /// Games with a tablebase hit.  Probing stops at a game's first hit, so
    /// this grows by at most one per game, whatever the backpropagation mode.
    pub fn tb_hits(&self) -> (r: usize)
        ensures
            r == self.spec_tb_hits(),
    {
        self.tb_hits
    }

    /// Positions whose result propagation changed; this grows with the
    /// reach of backward propagation.
    pub fn positions_corrected(&self) -> (r: usize)
        ensures
            r == self.spec_positions_corrected(),
    {
        self.positions_corrected
    }
}

} // verus!
