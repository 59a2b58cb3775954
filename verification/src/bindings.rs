//! Declarations of the outside types this library carries, and the trusted
//! wrappers through which it calls outside crates.  The contracts stated
//! here are taken on trust; each doc comment says what is claimed of the
//! outside function.

use vstd::prelude::*;
use sfbinpack::chess::position::Position;
use sfbinpack::chess::coords::Square;
use sfbinpack::chess::color::Color;
use sfbinpack::chess::piecetype::PieceType;
use sfbinpack::chess::castling_rights::{CastleType, CastlingTraits};
use shakmaty::{CastlingMode, Chess};
use shakmaty::fen::Fen;
use shakmaty::uci::UciMove;
use shakmaty_syzygy::{Tablebase, Wdl};

verus! {

// ── sfbinpack ────────────────────────────────────────────────────────────────

#[verifier::external_type_specification]
#[verifier::external_body]
pub struct ExSfPosition(Position);

/// Kind of the piece found on a square of an sfbinpack position.
#[derive(Clone, Copy, PartialEq, Eq, Structural, Debug)]
pub enum PieceKind {
    Pawn,
    Knight,
    Bishop,
    Rook,
    Queen,
    King,
    Empty,
}

/// A position of sfbinpack together with the FEN text it was read from
/// (its view).  Only `sf_position_from_fen` makes one.
#[derive(Clone, Copy)]
pub struct SfPosition {
    pos: Position,
    fen: Ghost<Seq<char>>,
}

impl View for SfPosition {
    type V = Seq<char>;

    closed spec fn view(&self) -> Seq<char> {
        self.fen@
    }
}

impl SfPosition {
    /// The sfbinpack position itself.
    pub fn position(&self) -> (r: Position) {
        self.pos
    }
}

/// `Position::from_fen` of sfbinpack on a FEN this library renders.  The
/// crate's parser fails only on an unknown piece letter, and a rendered
/// FEN holds none, so it succeeds; the error, were there one, is rendered
/// with its `Debug` form.  The requirement keeps out text on which the
/// parser panics (a missing field, an unparsable number or square).
#[verifier::external_body]
pub fn sf_position_from_fen(fen: &str) -> (r: Result<SfPosition, String>)
    requires
        crate::fen::is_rendered_fen(fen@),
    ensures
        r is Ok,
        r matches Ok(p) ==> p@ == fen@,
{
    match Position::from_fen(fen) {
        Ok(p) => Ok(SfPosition { pos: p, fen: Ghost(fen@) }),
        Err(e) => Err(format!("{e:?}")),
    }
}

/// Black is to move in the position sfbinpack reads from the FEN text.
pub uninterp spec fn sf_fen_black(fen: Seq<char>) -> bool;

/// `Position::side_to_move` of sfbinpack, as "Black is to move"; it
/// depends on the FEN the position was read from alone.
#[verifier::external_body]
pub fn sf_black_to_move(pos: &SfPosition) -> (r: bool)
    ensures
        r == sf_fen_black(pos@),
{
    match pos.pos.side_to_move() {
        Color::White => false,
        Color::Black => true,
    }
}

/// Kind of the piece that sfbinpack places on square `sq` (a1 = 0) when
/// it reads the FEN text.
pub uninterp spec fn sf_fen_piece_kind(fen: Seq<char>, sq: int) -> PieceKind;

/// `Position::piece_at` of sfbinpack, reduced to the piece's kind; it
/// depends on the FEN and the square alone.
#[verifier::external_body]
pub fn sf_piece_kind_at(pos: &SfPosition, sq: u8) -> (r: PieceKind)
    requires
        sq < 64,
    ensures
        r == sf_fen_piece_kind(pos@, sq as int),
{
    match pos.pos.piece_at(Square::new(sq as u32)).piece_type() {
        PieceType::Pawn => PieceKind::Pawn,
        PieceType::Knight => PieceKind::Knight,
        PieceType::Bishop => PieceKind::Bishop,
        PieceType::Rook => PieceKind::Rook,
        PieceType::Queen => PieceKind::Queen,
        PieceType::King => PieceKind::King,
        PieceType::None => PieceKind::Empty,
    }
}

/// The castling right of the given colour and side holds in the position
/// sfbinpack reads from the FEN text.
pub uninterp spec fn sf_fen_castling_right(fen: Seq<char>, black: bool, kingside: bool) -> bool;

/// `CastlingRights::contains` of sfbinpack, applied to the position's
/// `castling_rights()` and the right `CastlingTraits::castling_rights`
/// names for the given colour and side; it depends on the FEN, the colour
/// and the side alone.
#[verifier::external_body]
pub fn sf_has_castling_right(pos: &SfPosition, black: bool, kingside: bool) -> (r: bool)
    ensures
        r == sf_fen_castling_right(pos@, black, kingside),
{
    let color = if black { Color::Black } else { Color::White };
    let castle_type = if kingside { CastleType::Short } else { CastleType::Long };
    pos.pos.castling_rights().contains(CastlingTraits::castling_rights(color, castle_type))
}

/// Index of the en-passant square sfbinpack reads from the FEN text (64
/// when there is none).
pub uninterp spec fn sf_fen_ep_square(fen: Seq<char>) -> int;

/// `Position::ep_square` of sfbinpack as a square index; the crate's
/// `Square::NONE` has index 64, and a position read from a FEN holds
/// either that or a board square.
#[verifier::external_body]
pub fn sf_ep_square(pos: &SfPosition) -> (r: u8)
    ensures
        r <= 64,
        r as int == sf_fen_ep_square(pos@),
{
    pos.pos.ep_square().index() as u8
}

/// The text that the derived `Debug` of sfbinpack's `Square` gives for the
/// square with index `index`: the struct name and its one field.
pub open spec fn square_debug_text(index: nat) -> Seq<char> {
    "Square { index: "@ + crate::text::decimal(index) + " }"@
}

/// `Debug` formatting of the position's `ep_square()` in sfbinpack.
#[verifier::external_body]
pub fn sf_ep_square_debug(pos: &SfPosition) -> (r: String)
    ensures
        r@ == square_debug_text(sf_fen_ep_square(pos@) as nat),
{
    format!("{:?}", pos.pos.ep_square())
}

/// `Debug` formatting of sfbinpack's `Square::new(index)`.
#[verifier::external_body]
pub fn sf_square_debug(index: u8) -> (r: String)
    requires
        index < 64,
    ensures
        r@ == square_debug_text(index as nat),
{
    format!("{:?}", Square::new(index as u32))
}

// ── shakmaty ─────────────────────────────────────────────────────────────────

#[verifier::external_type_specification]
#[verifier::external_body]
pub struct ExChess(Chess);

#[verifier::external_type_specification]
#[verifier::external_body]
pub struct ExFen(Fen);

#[verifier::external_type_specification]
#[verifier::external_body]
pub struct ExUciMove(UciMove);

/// A parsed shakmaty FEN together with its text (its view).
pub struct SmFen {
    fen: Fen,
    text: Ghost<Seq<char>>,
}

impl View for SmFen {
    type V = Seq<char>;

    closed spec fn view(&self) -> Seq<char> {
        self.text@
    }
}

/// A shakmaty standard-chess position together with the FEN text it was
/// set up from (its view).
pub struct StandardPosition {
    pos: Chess,
    fen: Ghost<Seq<char>>,
}

impl View for StandardPosition {
    type V = Seq<char>;

    closed spec fn view(&self) -> Seq<char> {
        self.fen@
    }
}

/// A parsed shakmaty UCI move together with its text (its view).
pub struct SmUci {
    uci: UciMove,
    text: Ghost<Seq<char>>,
}

impl View for SmUci {
    type V = Seq<char>;

    closed spec fn view(&self) -> Seq<char> {
        self.text@
    }
}

/// Whether shakmaty's FEN parser accepts the text.
pub uninterp spec fn shakmaty_fen_parses(fen: Seq<char>) -> bool;

/// `Fen::from_ascii` of shakmaty on the bytes of `fen`: whether it
/// succeeds depends on the text alone.
#[verifier::external_body]
pub fn sm_parse_fen(fen: &str) -> (r: Option<SmFen>)
    ensures
        r is Some == shakmaty_fen_parses(fen@),
        r matches Some(f) ==> f@ == fen@,
{
    match Fen::from_ascii(fen.as_bytes()) {
        Ok(f) => Some(SmFen { fen: f, text: Ghost(fen@) }),
        Err(_) => None,
    }
}

/// Whether the setup of the FEN text is a legal standard-chess position
/// for shakmaty.
pub uninterp spec fn shakmaty_setup_is_standard(fen: Seq<char>) -> bool;

/// `Fen::into_position` of shakmaty in standard (non-960) castling mode:
/// whether it succeeds depends on the FEN text alone.
#[verifier::external_body]
pub fn sm_fen_into_chess(fen: SmFen) -> (r: Option<StandardPosition>)
    ensures
        r is Some == shakmaty_setup_is_standard(fen@),
        r matches Some(p) ==> p@ == fen@,
{
    let text = fen.text;
    match fen.fen.into_position::<Chess>(CastlingMode::Standard) {
        Ok(p) => Some(StandardPosition { pos: p, fen: text }),
        Err(_) => None,
    }
}

/// Whether shakmaty's UCI move parser accepts the text.
pub uninterp spec fn shakmaty_uci_parses(uci: Seq<char>) -> bool;

/// `UciMove::from_str` of shakmaty: whether it succeeds depends on the
/// text alone.
#[verifier::external_body]
pub fn sm_parse_uci(uci: &str) -> (r: Option<SmUci>)
    ensures
        r is Some == shakmaty_uci_parses(uci@),
        r matches Some(m) ==> m@ == uci@,
{
    match uci.parse::<UciMove>() {
        Ok(m) => Some(SmUci { uci: m, text: Ghost(uci@) }),
        Err(_) => None,
    }
}

/// Whether the UCI move text is a legal move in the standard-chess
/// position of the FEN text, for shakmaty.
pub uninterp spec fn shakmaty_uci_is_legal(fen: Seq<char>, uci: Seq<char>) -> bool;

/// `UciMove::to_move` of shakmaty: whether the move is legal in the
/// position depends on the two texts alone.
#[verifier::external_body]
pub fn sm_uci_is_legal(m: SmUci, pos: &StandardPosition) -> (r: bool)
    ensures
        r == shakmaty_uci_is_legal(pos@, m@),
{
    m.uci.to_move(&pos.pos).is_ok()
}

/// Number of occupied squares of the position of the FEN text, for shakmaty.
pub uninterp spec fn shakmaty_piece_count(fen: Seq<char>) -> int;

/// Number of occupied squares of a shakmaty position
/// (`board().occupied().count()`): at most 64, and a function of the FEN
/// text alone.
#[verifier::external_body]
pub fn sm_piece_count(pos: &StandardPosition) -> (r: usize)
    ensures
        r <= 64,
        r as int == shakmaty_piece_count(pos@),
{
    shakmaty::Position::board(&pos.pos).occupied().count()
}

impl StandardPosition {
    /// The standard-chess position of a FEN, when shakmaty parses the text
    /// and accepts its setup.
    pub fn from_fen(fen: &str) -> (r: Option<Self>)
        ensures
            r is Some == (shakmaty_fen_parses(fen@) && shakmaty_setup_is_standard(fen@)),
            r matches Some(p) ==> p@ == fen@,
    {
        match sm_parse_fen(fen) {
            Some(f) => sm_fen_into_chess(f),
            None => None,
        }
    }
}

// ── shakmaty-syzygy ──────────────────────────────────────────────────────────

/// A WDL value of the tablebase, from the side to move's point of view.
#[derive(Clone, Copy, PartialEq, Eq, Structural, Debug)]
pub enum WdlValue {
    Loss,
    BlessedLoss,
    Draw,
    CursedWin,
    Win,
}

/// The tables of a shakmaty-syzygy `Tablebase<Chess>`, a collection of
/// table files.  The generic tablebase type cannot be declared with its
/// trait bounds, so it is held here as an opaque field.
#[verifier::external_body]
pub struct SyzygyTables {
    tables: Tablebase<Chess>,
}

impl SyzygyTables {
    /// `Tablebase::new` of shakmaty-syzygy: a tablebase with no tables.
    #[verifier::external_body]
    pub fn new() -> (r: Self) {
        SyzygyTables { tables: Tablebase::new() }
    }

    /// `Tablebase::add_directory` of shakmaty-syzygy: adds the table files
    /// found in the directory and returns how many; an I/O error is given
    /// as its `Display` text.  The outcome depends on the file system, so
    /// nothing is stated of it.
    #[verifier::external_body]
    pub fn add_directory(&mut self, dir: &str) -> (r: Result<usize, String>) {
        self.tables.add_directory(std::path::Path::new(dir)).map_err(|e| format!("{e}"))
    }

    /// `Tablebase::max_pieces` of shakmaty-syzygy: the largest piece count
    /// among the tables added.
    #[verifier::external_body]
    pub fn max_pieces(&self) -> (r: usize) {
        self.tables.max_pieces()
    }

    /// `Tablebase::probe_wdl_after_zeroing` of shakmaty-syzygy, with a
    /// failed probe as `None`.  The answer depends on the table files, so
    /// nothing is stated of it.
    #[verifier::external_body]
    pub fn probe_wdl_after_zeroing(&self, pos: &StandardPosition) -> (r: Option<WdlValue>) {
        match self.tables.probe_wdl_after_zeroing(&pos.pos) {
            Ok(Wdl::Loss) => Some(WdlValue::Loss),
            Ok(Wdl::BlessedLoss) => Some(WdlValue::BlessedLoss),
            Ok(Wdl::Draw) => Some(WdlValue::Draw),
            Ok(Wdl::CursedWin) => Some(WdlValue::CursedWin),
            Ok(Wdl::Win) => Some(WdlValue::Win),
            Err(_) => None,
        }
    }
}

// ── std ──────────────────────────────────────────────────────────────────────

#[verifier::external_type_specification]
#[verifier::external_body]
pub struct ExIoError(std::io::Error);

#[verifier::external_type_specification]
#[verifier::external_body]
pub struct ExInstant(std::time::Instant);

/// `Instant::now`: the current time, whatever it is.
#[verifier::external_body]
pub fn instant_now() -> (r: std::time::Instant) {
    std::time::Instant::now()
}

/// `Display` formatting of a `std::io::Error`.
#[verifier::external_body]
pub fn io_error_text(e: &std::io::Error) -> (r: String) {
    format!("{e}")
}

} // verus!
