use lc0_binpack::binpack::{
    mirror_square, mirror_uci_move, propagate_tb_result, BackpropMode, BinpackError, BinpackWriter,
    BufferedEntry, MoveKind, MoveSpec, PromotionPiece, WdlCounts,
};
use lc0_binpack::record::{V6Record, RECORD_SIZE};
use lc0_binpack::syzygy::SyzygyProber;
use lc0_binpack::bindings::sf_position_from_fen;
use sfbinpack::chess::color::Color;
use sfbinpack::chess::coords::Square;
use sfbinpack::chess::piecetype::PieceType;

fn entry(result: i16, tb: Option<i16>) -> BufferedEntry {
    BufferedEntry {
        pos: sf_position_from_fen("4k3/8/8/8/8/8/8/4K3 w - - 0 1").unwrap(),
        mv: MoveSpec { from: 12, to: 28, kind: MoveKind::Normal },
        score: 0,
        ply: 0,
        result,
        tb_result: tb,
    }
}

fn results(v: &[BufferedEntry]) -> Vec<i16> {
    v.iter().map(|e| e.result).collect()
}

#[test]
fn backprop_mode_enabled() {
    assert!(!BackpropMode::Off.is_enabled());
    assert!(BackpropMode::Unlimited.is_enabled());
    assert!(BackpropMode::Limited(0).is_enabled());
    assert!(BackpropMode::Limited(30).is_enabled());
}

#[test]
fn no_hit_changes_nothing() {
    let mut v = vec![entry(1, None), entry(-1, None), entry(0, None)];
    assert_eq!(propagate_tb_result(&mut v, BackpropMode::Unlimited), 0);
    assert_eq!(results(&v), vec![1, -1, 0]);
}

#[test]
fn forward_only_propagation() {
    let mut v = vec![entry(0, None), entry(0, None), entry(0, Some(1)), entry(0, None), entry(0, Some(-1)), entry(0, None)];
    let changed = propagate_tb_result(&mut v, BackpropMode::Off);
    assert_eq!(results(&v), vec![0, 0, 1, -1, 1, -1]);
    assert_eq!(changed, 4);
}

#[test]
fn unlimited_backward_propagation() {
    let mut v = vec![entry(0, None), entry(0, None), entry(0, None), entry(0, Some(-1)), entry(0, None)];
    let changed = propagate_tb_result(&mut v, BackpropMode::Unlimited);
    assert_eq!(results(&v), vec![1, -1, 1, -1, 1]);
    assert_eq!(changed, 5);
}

#[test]
fn limited_backward_propagation() {
    let mut v = vec![entry(0, None), entry(0, None), entry(0, None), entry(0, None), entry(0, Some(1))];
    let changed = propagate_tb_result(&mut v, BackpropMode::Limited(2));
    assert_eq!(results(&v), vec![0, 0, 1, -1, 1]);
    assert_eq!(changed, 3);
    let mut w = vec![entry(0, None), entry(0, Some(1))];
    propagate_tb_result(&mut w, BackpropMode::Limited(30));
    assert_eq!(results(&w), vec![-1, 1]);
}

#[test]
fn changed_counts_only_real_changes() {
    let mut v = vec![entry(-1, None), entry(1, Some(1)), entry(1, None)];
    let changed = propagate_tb_result(&mut v, BackpropMode::Unlimited);
    assert_eq!(results(&v), vec![-1, 1, -1]);
    assert_eq!(changed, 1);
}

#[test]
fn draw_propagates_as_draw() {
    let mut v = vec![entry(1, None), entry(-1, Some(0)), entry(1, None)];
    assert_eq!(propagate_tb_result(&mut v, BackpropMode::Unlimited), 3);
    assert_eq!(results(&v), vec![0, 0, 0]);
}

#[test]
fn wdl_tally() {
    let mut w = WdlCounts::default();
    for r in [1, 0, -1, -1, 7] {
        w.tally(r);
    }
    assert_eq!((w.wins, w.draws, w.losses), (1, 1, 2));
}

#[test]
fn mirror_squares_and_moves() {
    assert_eq!(mirror_square("e2").unwrap(), "e7");
    assert_eq!(mirror_square("a8").unwrap(), "a1");
    assert!(mirror_square("i2").is_none());
    assert!(mirror_square("e9").is_none());
    assert!(mirror_square("e22").is_none());
    assert_eq!(mirror_uci_move("e2e4").unwrap(), "e7e5");
    assert_eq!(mirror_uci_move("a7a8q").unwrap(), "a2a1q");
    assert!(mirror_uci_move("e2e").is_none());
    assert!(mirror_uci_move("e2e4qq").is_none());
    assert!(mirror_uci_move("z2e4").is_none());
    assert_eq!(mirror_uci_move(&mirror_uci_move("g1f3").unwrap()).unwrap(), "g1f3");
}

#[test]
fn error_messages() {
    assert_eq!(BinpackError::Fen("x".to_string()).message(), "FEN error: x");
    assert_eq!(BinpackError::InvalidMove("m".to_string()).message(), "Invalid move: m");
    assert_eq!(BinpackError::FrcCastle("c".to_string()).message(), "FRC position (skipping): c");
    assert_eq!(BinpackError::InvalidPosition("p".to_string()).message(), "Invalid position: p");
    assert_eq!(BinpackError::Writer("w".to_string()).message(), "Writer error: w");
    let io = BinpackError::from(std::io::Error::new(std::io::ErrorKind::Other, "disk"));
    assert_eq!(io.message(), "IO error: disk");
}

fn plane(squares: &[u32]) -> u64 {
    squares.iter().map(|&sq| 1u64 << (sq / 8 * 8 + 7 - sq % 8)).fold(0, |a, b| a | b)
}

fn start_position() -> V6Record {
    let mut r = V6Record::from_bytes(&vec![0u8; RECORD_SIZE]).unwrap();
    r.version = 6;
    r.input_format = 1;
    r.planes[0] = plane(&(8..16).collect::<Vec<_>>());
    r.planes[1] = plane(&[1, 6]);
    r.planes[2] = plane(&[2, 5]);
    r.planes[3] = plane(&[0, 7]);
    r.planes[4] = plane(&[3]);
    r.planes[5] = plane(&[4]);
    r.planes[6] = plane(&(48..56).collect::<Vec<_>>());
    r.planes[7] = plane(&[57, 62]);
    r.planes[8] = plane(&[58, 61]);
    r.planes[9] = plane(&[56, 63]);
    r.planes[10] = plane(&[59]);
    r.planes[11] = plane(&[60]);
    r.castling_us_oo = 1;
    r.castling_us_ooo = 1;
    r.castling_them_oo = 1;
    r.castling_them_ooo = 1;
    r
}

/// Start position with Black to move (colours of the frame swapped).
fn start_position_black() -> V6Record {
    let mut r = start_position();
    r.side_to_move_or_enpassant = 1;
    r
}

#[test]
fn writer_buffers_and_flushes_a_game() {
    let prober = SyzygyProber::disabled();
    let mut w = BinpackWriter::new();
    let mut rec = start_position();
    rec.best_idx = 322;
    assert_eq!(w.buffer_record(&rec, 0, &prober, false, 35, 1).unwrap(), (true, false));
    let mut black = start_position_black();
    black.best_idx = 322;
    assert_eq!(w.buffer_record(&black, 1, &prober, false, -20, -1).unwrap(), (true, false));
    let mut bad = start_position();
    bad.planes[5] = 0;
    assert_eq!(w.buffer_record(&bad, 2, &prober, false, 0, 0).unwrap(), (false, false));
    let mut illegal = start_position();
    illegal.best_idx = 0;
    assert_eq!(w.buffer_record(&illegal, 3, &prober, false, 0, 0).unwrap(), (false, false));
    assert_eq!(w.skipped(), 2);
    let entries = w.flush_game(BackpropMode::Unlimited);
    assert_eq!(entries.len(), 2);
    assert_eq!(entries[0].mv, MoveSpec { from: 12, to: 28, kind: MoveKind::Normal });
    assert_eq!((entries[0].score, entries[0].ply, entries[0].result), (35, 0, 1));
    assert_eq!(entries[1].mv, MoveSpec { from: 52, to: 36, kind: MoveKind::Normal });
    assert_eq!((entries[1].score, entries[1].ply, entries[1].result), (-20, 1, -1));
    assert_eq!(w.wdl_original().wins, 1);
    assert_eq!(w.wdl_original().losses, 1);
    assert_eq!(w.positions_corrected(), 0);
    assert_eq!(w.tb_hits(), 0);
    for e in &entries {
        w.entry_flushed(e.result, true);
    }
    assert_eq!(w.written(), 2);
    assert_eq!(w.wdl_corrected().wins, 1);
    assert!(w.flush_game(BackpropMode::Off).is_empty());
}

#[test]
fn writer_rejects_out_of_range_policy_index() {
    let prober = SyzygyProber::disabled();
    let mut w = BinpackWriter::new();
    let mut rec = start_position();
    rec.best_idx = 1858;
    assert_eq!(w.buffer_record(&rec, 0, &prober, false, 0, 0).unwrap(), (false, false));
    assert_eq!(w.skipped(), 1);
}

#[test]
fn castling_move_is_king_takes_rook() {
    let prober = SyzygyProber::disabled();
    let mut w = BinpackWriter::new();
    let mut rec = start_position();
    rec.planes[1] = plane(&[1]);
    rec.planes[2] = plane(&[2]);
    // e1g1 is policy entry "e1g1"
    let idx = (0..1858u16).find(|&i| lc0_binpack::moves::idx_to_move(i).unwrap() == "e1g1").unwrap();
    rec.best_idx = idx;
    assert_eq!(w.buffer_record(&rec, 0, &prober, false, 0, 0).unwrap(), (true, false));
    let entries = w.flush_game(BackpropMode::Off);
    assert_eq!(entries[0].mv, MoveSpec { from: 4, to: 7, kind: MoveKind::Castle });
}

#[test]
fn unlimited_equals_a_limit_reaching_the_start() {
    let game = || vec![entry(0, None), entry(1, None), entry(0, None), entry(0, Some(1)), entry(0, None)];
    let mut a = game();
    let mut b = game();
    let ca = propagate_tb_result(&mut a, BackpropMode::Unlimited);
    let cb = propagate_tb_result(&mut b, BackpropMode::Limited(3));
    assert_eq!(results(&a), results(&b));
    assert_eq!(ca, cb);
}

#[test]
fn corrections_grow_with_reach() {
    let game = || vec![entry(0, None), entry(0, None), entry(0, None), entry(0, Some(1)), entry(0, None)];
    let mut counts = Vec::new();
    for mode in [BackpropMode::Off, BackpropMode::Limited(1), BackpropMode::Limited(2), BackpropMode::Unlimited] {
        let mut g = game();
        counts.push(propagate_tb_result(&mut g, mode));
    }
    assert_eq!(counts, vec![2, 3, 4, 5]);
}

#[test]
fn second_propagation_changes_nothing() {
    let mut v = vec![entry(1, None), entry(1, None), entry(0, Some(-1)), entry(0, None)];
    assert_eq!(propagate_tb_result(&mut v, BackpropMode::Limited(1)), 2);
    let once = results(&v);
    assert_eq!(once, vec![1, 1, -1, 1]);
    assert_eq!(propagate_tb_result(&mut v, BackpropMode::Limited(1)), 0);
    assert_eq!(results(&v), once);
}

#[test]
fn propagated_results_stay_win_draw_or_loss() {
    for t in [-1i16, 0, 1] {
        let mut v = vec![entry(1, None), entry(0, None), entry(-1, Some(t)), entry(1, None), entry(0, None)];
        propagate_tb_result(&mut v, BackpropMode::Unlimited);
        assert!(results(&v).iter().all(|r| (-1..=1).contains(r)));
    }
}

fn policy_index(text: &str) -> u16 {
    (0..1858u16).find(|&i| lc0_binpack::moves::idx_to_move(i).unwrap() == text).unwrap()
}

/// Kings on e1 / e8 (frame squares) and one pawn of the side to move on a7.
fn promotion_position(black: bool) -> V6Record {
    let mut r = V6Record::from_bytes(&vec![0u8; RECORD_SIZE]).unwrap();
    r.version = 6;
    r.input_format = 1;
    r.side_to_move_or_enpassant = if black { 1 } else { 0 };
    r.planes[0] = plane(&[48]);
    r.planes[5] = plane(&[4]);
    r.planes[11] = plane(&[60]);
    r
}

#[test]
fn promotion_takes_the_colour_of_the_side_to_move() {
    let prober = SyzygyProber::disabled();
    let mut w = BinpackWriter::new();
    let mut white = promotion_position(false);
    white.best_idx = policy_index("a7a8q");
    assert_eq!(w.buffer_record(&white, 0, &prober, false, 0, 1).unwrap(), (true, false));
    let mut black = promotion_position(true);
    black.best_idx = policy_index("a7a8r");
    assert_eq!(w.buffer_record(&black, 1, &prober, false, 0, -1).unwrap(), (true, false));
    let entries = w.flush_game(BackpropMode::Off);
    assert_eq!(
        entries[0].mv,
        MoveSpec { from: 48, to: 56, kind: MoveKind::Promotion { piece: PromotionPiece::Queen, black: false } }
    );
    // Black to move: the policy move is mirrored, a2a1r in standard squares.
    assert_eq!(
        entries[1].mv,
        MoveSpec { from: 8, to: 0, kind: MoveKind::Promotion { piece: PromotionPiece::Rook, black: true } }
    );
}

#[test]
fn en_passant_capture_lands_on_the_ep_square() {
    let prober = SyzygyProber::disabled();
    let mut w = BinpackWriter::new();
    let mut r = V6Record::from_bytes(&vec![0u8; RECORD_SIZE]).unwrap();
    r.version = 6;
    r.input_format = 1;
    // White pawn e5, black pawn d5 that has just moved two squares, kings e1 / e8.
    r.planes[0] = plane(&[36]);
    r.planes[5] = plane(&[4]);
    r.planes[6] = plane(&[35, 3]);
    r.planes[11] = plane(&[60]);
    r.best_idx = policy_index("e5d6");
    assert_eq!(w.buffer_record(&r, 0, &prober, false, 0, 0).unwrap(), (true, false));
    let entries = w.flush_game(BackpropMode::Off);
    assert_eq!(entries[0].mv, MoveSpec { from: 36, to: 43, kind: MoveKind::EnPassant });
}

#[test]
fn buffered_entries_carry_the_records_position() {
    let prober = SyzygyProber::disabled();
    let mut w = BinpackWriter::new();
    let mut white = start_position();
    white.best_idx = 322;
    let mut black = start_position_black();
    black.best_idx = 322;
    w.buffer_record(&white, 0, &prober, false, 0, 0).unwrap();
    w.buffer_record(&black, 1, &prober, false, 0, 0).unwrap();
    let entries = w.flush_game(BackpropMode::Off);
    let p0 = entries[0].pos.position();
    let p1 = entries[1].pos.position();
    assert_eq!(p0.side_to_move(), Color::White);
    assert_eq!(p1.side_to_move(), Color::Black);
    assert!(p0.piece_at(Square::new(4)).piece_type() == PieceType::King);
    assert!(p0.piece_at(Square::new(12)).piece_type() == PieceType::Pawn);
}

#[test]
fn a_later_extreme_tablebase_value_is_ignored() {
    let mut v = vec![entry(0, None), entry(0, Some(1)), entry(0, Some(i16::MIN))];
    assert_eq!(propagate_tb_result(&mut v, BackpropMode::Unlimited), 3);
    assert_eq!(results(&v), vec![-1, 1, -1]);
}
