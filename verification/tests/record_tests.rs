use lc0_binpack::record::{V6Record, RECORD_SIZE};

fn put_u32(b: &mut [u8], o: usize, v: u32) {
    b[o..o + 4].copy_from_slice(&v.to_le_bytes());
}

fn put_u16(b: &mut [u8], o: usize, v: u16) {
    b[o..o + 2].copy_from_slice(&v.to_le_bytes());
}

fn put_u64(b: &mut [u8], o: usize, v: u64) {
    b[o..o + 8].copy_from_slice(&v.to_le_bytes());
}

#[test]
fn from_bytes_rejects_short_input() {
    let b = vec![0u8; RECORD_SIZE - 1];
    assert!(V6Record::from_bytes(&b).is_none());
}

#[test]
fn from_bytes_reads_every_field_little_endian() {
    let mut b = vec![0u8; RECORD_SIZE + 5];
    put_u32(&mut b, 0, 6);
    put_u32(&mut b, 4, 1);
    put_u32(&mut b, 8, (-1.0f32).to_bits());
    put_u32(&mut b, 8 + 4 * 1857, 0.25f32.to_bits());
    put_u64(&mut b, 7440, 0x0102_0304_0506_0708);
    put_u64(&mut b, 7440 + 8 * 103, 0xFFEE_DDCC_BBAA_9988);
    b[8272] = 1;
    b[8273] = 2;
    b[8274] = 3;
    b[8275] = 4;
    b[8276] = 1;
    b[8277] = 42;
    b[8278] = 0xA5;
    b[8279] = 7;
    put_u32(&mut b, 8280, 0.5f32.to_bits());
    put_u32(&mut b, 8308, (-1.0f32).to_bits());
    put_u32(&mut b, 8340, 812);
    put_u16(&mut b, 8344, 322);
    put_u16(&mut b, 8346, 1857);
    put_u32(&mut b, 8352, 0xDEAD_BEEF);
    let r = V6Record::from_bytes(&b).unwrap();
    assert_eq!(r.version, 6);
    assert_eq!(r.input_format, 1);
    assert_eq!(r.probabilities.len(), 1858);
    assert_eq!(f32::from_bits(r.probabilities[0]), -1.0);
    assert_eq!(f32::from_bits(r.probabilities[1857]), 0.25);
    assert_eq!(r.planes.len(), 104);
    assert_eq!(r.planes[0], 0x0102_0304_0506_0708);
    assert_eq!(r.planes[103], 0xFFEE_DDCC_BBAA_9988);
    assert_eq!(r.castling_us_ooo, 1);
    assert_eq!(r.castling_us_oo, 2);
    assert_eq!(r.castling_them_ooo, 3);
    assert_eq!(r.castling_them_oo, 4);
    assert_eq!(r.side_to_move_or_enpassant, 1);
    assert_eq!(r.rule50_count, 42);
    assert_eq!(r.invariance_info, 0xA5);
    assert_eq!(r.dummy, 7);
    assert_eq!(f32::from_bits(r.root_q), 0.5);
    assert_eq!(f32::from_bits(r.result_q), -1.0);
    assert_eq!(r.visits, 812);
    assert_eq!(r.played_idx, 322);
    assert_eq!(r.best_idx, 1857);
    assert_eq!(r.reserved, 0xDEAD_BEEF);
}

#[test]
fn decoding_ignores_bytes_after_the_record() {
    let mut a = vec![0u8; RECORD_SIZE];
    a[8277] = 9;
    let mut b = a.clone();
    b.extend_from_slice(&[1, 2, 3]);
    let ra = V6Record::from_bytes(&a).unwrap();
    let rb = V6Record::from_bytes(&b).unwrap();
    assert_eq!(ra.rule50_count, rb.rule50_count);
    assert_eq!(ra.planes, rb.planes);
}

fn blank() -> V6Record {
    V6Record::from_bytes(&vec![0u8; RECORD_SIZE]).unwrap()
}

#[test]
fn invariance_flags() {
    let mut r = blank();
    r.invariance_info = 0b1010_0101;
    assert!(r.canonical_side_to_move());
    assert!(!r.marked_for_deletion());
    assert!(r.game_adjudicated());
    assert!(!r.max_game_length_exceeded());
    assert!(!r.best_q_is_proven());
    assert!(r.transform_transpose());
    assert!(!r.transform_mirror());
    assert!(r.transform_flip());
    r.invariance_info = 0b0101_1010;
    assert!(!r.canonical_side_to_move());
    assert!(r.marked_for_deletion());
    assert!(!r.game_adjudicated());
    assert!(r.max_game_length_exceeded());
    assert!(r.best_q_is_proven());
    assert!(!r.transform_transpose());
    assert!(r.transform_mirror());
    assert!(!r.transform_flip());
}

#[test]
fn side_and_castling_text() {
    let mut r = blank();
    assert_eq!(r.side_to_move_str(), "White");
    assert_eq!(r.castling_str(), "-");
    r.side_to_move_or_enpassant = 1;
    r.castling_us_oo = 1;
    r.castling_them_ooo = 1;
    assert_eq!(r.side_to_move_str(), "Black");
    assert_eq!(r.castling_str(), "Kq");
    r.castling_us_ooo = 1;
    r.castling_them_oo = 1;
    assert_eq!(r.castling_str(), "KQkq");
}
