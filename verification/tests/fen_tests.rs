use lc0_binpack::fen::{decode_plane, flip_vertical, record_to_fen, reverse_bits_in_bytes};
use lc0_binpack::record::{V6Record, RECORD_SIZE};

/// Stored form of a plane holding the given side-to-move-frame squares.
fn plane(squares: &[u32]) -> u64 {
    squares.iter().map(|&sq| 1u64 << (sq / 8 * 8 + 7 - sq % 8)).fold(0, |a, b| a | b)
}

fn blank() -> V6Record {
    let mut r = V6Record::from_bytes(&vec![0u8; RECORD_SIZE]).unwrap();
    r.input_format = 1;
    r
}

fn start_position_white() -> V6Record {
    let mut r = blank();
    r.planes[0] = plane(&(8..16).collect::<Vec<_>>());
    r.planes[1] = plane(&[1, 6]);
    r.planes[2] = plane(&[2, 5]);
    r.planes[3] = plane(&[0, 7]);
    r.planes[4] = plane(&[3]);
    r.planes[5] = plane(&[4]);
    r.planes[6] = plane(&(48..56).collect::<Vec<_>>());
    r.planes[7] = plane(&[57, 62]);
    r.planes[8] = plane(&[58, 61]);
    r.planes[9] = plane(&[56, 63]);
    r.planes[10] = plane(&[59]);
    r.planes[11] = plane(&[60]);
    r.castling_us_oo = 1;
    r.castling_us_ooo = 1;
    r.castling_them_oo = 1;
    r.castling_them_ooo = 1;
    r
}

/// The position after 1. e4, Black to move, with the en-passant phantom on e.
fn after_e4_black() -> V6Record {
    let mirror = |sq: u32| (7 - sq / 8) * 8 + sq % 8;
    let frame = |sqs: &[u32]| plane(&sqs.iter().map(|&s| mirror(s)).collect::<Vec<_>>());
    let mut r = blank();
    r.side_to_move_or_enpassant = 1;
    r.planes[0] = frame(&(48..56).collect::<Vec<_>>());
    r.planes[1] = frame(&[57, 62]);
    r.planes[2] = frame(&[58, 61]);
    r.planes[3] = frame(&[56, 63]);
    r.planes[4] = frame(&[59]);
    r.planes[5] = frame(&[60]);
    let mut white_pawns: Vec<u32> = (8..16).filter(|&s| s != 12).collect();
    white_pawns.push(28);
    r.planes[6] = frame(&white_pawns) | plane(&[4]);
    r.planes[7] = frame(&[1, 6]);
    r.planes[8] = frame(&[2, 5]);
    r.planes[9] = frame(&[0, 7]);
    r.planes[10] = frame(&[3]);
    r.planes[11] = frame(&[4]);
    r.castling_us_oo = 1;
    r.castling_us_ooo = 1;
    r.castling_them_oo = 1;
    r.castling_them_ooo = 1;
    r
}

#[test]
fn starting_position_fen() {
    let r = start_position_white();
    assert_eq!(
        record_to_fen(&r).unwrap(),
        "rnbqkbnr/pppppppp/8/8/8/8/PPPPPPPP/RNBQKBNR w KQkq - 0 1"
    );
}

#[test]
fn black_to_move_is_flipped_and_phantom_gives_ep() {
    let mut r = after_e4_black();
    r.rule50_count = 0;
    assert_eq!(
        record_to_fen(&r).unwrap(),
        "rnbqkbnr/pppppppp/8/8/4P3/8/PPPP1PPP/RNBQKBNR b KQkq e3 0 1"
    );
}

#[test]
fn halfmove_clock_is_written() {
    let mut r = start_position_white();
    r.rule50_count = 37;
    assert!(record_to_fen(&r).unwrap().ends_with(" - 37 1"));
}

#[test]
fn missing_kings_is_an_error() {
    let r = blank();
    assert_eq!(
        record_to_fen(&r).unwrap_err(),
        "Invalid position: 0 white kings, 0 black kings"
    );
    let mut two = start_position_white();
    two.planes[5] = plane(&[4, 20]);
    assert_eq!(
        record_to_fen(&two).unwrap_err(),
        "Invalid position: 2 white kings, 1 black kings"
    );
}

#[test]
fn castling_rights_without_rook_are_dropped() {
    let mut r = start_position_white();
    r.planes[3] = plane(&[0]);
    r.planes[9] = plane(&[63]);
    assert_eq!(
        record_to_fen(&r).unwrap(),
        "1nbqkbnr/pppppppp/8/8/8/8/PPPPPPPP/RNBQKBN1 w Qk - 0 1"
    );
}

#[test]
fn king_off_home_square_drops_rights() {
    let mut r = start_position_white();
    r.planes[5] = plane(&[5]);
    r.planes[2] = plane(&[2]);
    r.castling_them_oo = 0;
    r.castling_them_ooo = 0;
    assert_eq!(
        record_to_fen(&r).unwrap(),
        "rnbqkbnr/pppppppp/8/8/8/8/PPPPPPPP/RNBQ1KNR w - - 0 1"
    );
}

#[test]
fn canonical_format_reads_ep_from_mask() {
    let mut r = start_position_white();
    r.input_format = 3;
    r.castling_us_oo = 0;
    r.castling_us_ooo = 0;
    r.castling_them_oo = 0;
    r.castling_them_ooo = 0;
    r.side_to_move_or_enpassant = 1 << 3;
    assert!(record_to_fen(&r).unwrap().ends_with(" w - d6 0 1"));
    r.invariance_info = 0x01;
    assert!(record_to_fen(&r).unwrap().ends_with(" w - e6 0 1"));
}

#[test]
fn canonical_format_takes_side_from_invariance_bit() {
    let mut r = start_position_white();
    r.input_format = 3;
    r.invariance_info = 0x80;
    assert_eq!(
        record_to_fen(&r).unwrap(),
        "rnbqkbnr/pppppppp/8/8/8/8/PPPPPPPP/RNBQKBNR b KQkq - 0 1"
    );
}

#[test]
fn plane_transforms() {
    assert_eq!(reverse_bits_in_bytes(0x0102_0408_1020_4080), 0x8040_2010_0804_0201);
    assert_eq!(reverse_bits_in_bytes(0x0F), 0xF0);
    assert_eq!(decode_plane(0x80), 0x01);
    assert_eq!(flip_vertical(0x0102_0304_0506_0708), 0x0807_0605_0403_0201);
    assert_eq!(flip_vertical(flip_vertical(0x1234_5678_9ABC_DEF0)), 0x1234_5678_9ABC_DEF0);
    assert_eq!(reverse_bits_in_bytes(reverse_bits_in_bytes(0x1234_5678_9ABC_DEF0)), 0x1234_5678_9ABC_DEF0);
}
