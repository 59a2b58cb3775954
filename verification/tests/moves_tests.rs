use lc0_binpack::moves::{idx_to_move, policy_table_len};

#[test]
fn policy_table_has_1858_entries() {
    assert_eq!(policy_table_len(), 1858);
    assert!(idx_to_move(1857).is_some());
    assert!(idx_to_move(1858).is_none());
    assert!(idx_to_move(u16::MAX).is_none());
}

#[test]
fn policy_table_known_entries() {
    assert_eq!(idx_to_move(0).unwrap(), "a1b1");
    assert_eq!(idx_to_move(6).unwrap(), "a1h1");
    assert_eq!(idx_to_move(7).unwrap(), "a1a2");
    assert_eq!(idx_to_move(9).unwrap(), "a1c2");
    assert_eq!(idx_to_move(22).unwrap(), "a1h8");
    assert_eq!(idx_to_move(23).unwrap(), "b1a1");
    assert_eq!(idx_to_move(159).unwrap(), "g1f3");
    assert_eq!(idx_to_move(293).unwrap(), "d2d4");
    assert_eq!(idx_to_move(322).unwrap(), "e2e4");
    assert_eq!(idx_to_move(1791).unwrap(), "h8g8");
    assert_eq!(idx_to_move(1792).unwrap(), "a7a8q");
    assert_eq!(idx_to_move(1793).unwrap(), "a7a8r");
    assert_eq!(idx_to_move(1794).unwrap(), "a7a8b");
    assert_eq!(idx_to_move(1795).unwrap(), "a7b8q");
    assert_eq!(idx_to_move(1857).unwrap(), "h7h8b");
}

#[test]
fn policy_table_entries_are_distinct() {
    let mut all: Vec<String> = (0..1858u16).map(|i| idx_to_move(i).unwrap()).collect();
    all.sort();
    all.dedup();
    assert_eq!(all.len(), 1858);
}
