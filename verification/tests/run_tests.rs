use lc0_binpack::progress::Progress;
use lc0_binpack::record::{V6Record, RECORD_SIZE};
use lc0_binpack::scan::{classify_chunk, ChunkStep, GameScan, RecordStep, RunCounters};
use lc0_binpack::stats::StatsCounts;
use lc0_binpack::syzygy::{split_paths, table_inventory, wdl_signum, SyzygyProber, TableInventory};
use lc0_binpack::bindings::{StandardPosition, WdlValue};

#[test]
fn progress_keeps_counts() {
    let mut p = Progress::new();
    assert_eq!((p.processed(), p.written(), p.skipped()), (0, 0, 0));
    assert_eq!(p.current_file(), "");
    p.set_file("training.1.gz");
    p.update(1000, 990, 4, 6);
    assert_eq!((p.processed(), p.written(), p.skipped()), (1000, 990, 10));
    assert_eq!(p.current_file(), "training.1.gz");
}

#[test]
fn chunk_classification() {
    assert_eq!(classify_chunk(0), ChunkStep::End);
    assert_eq!(classify_chunk(100), ChunkStep::Trailing);
    assert_eq!(classify_chunk(RECORD_SIZE), ChunkStep::Record);
}

#[test]
fn record_steps_advance_index_and_ply() {
    let mut run = RunCounters::new();
    let mut stats = StatsCounts::new();
    let mut game = GameScan::new();
    assert_eq!(game.next_record(&mut run, &mut stats, Some(1), 0), RecordStep::Process { index: 0, ply: 0 });
    assert_eq!(game.next_record(&mut run, &mut stats, Some(2), 0), RecordStep::Variant);
    assert_eq!(game.next_record(&mut run, &mut stats, None, 0), RecordStep::Unparsed);
    assert_eq!(game.next_record(&mut run, &mut stats, Some(1), 0), RecordStep::Process { index: 3, ply: 3 });
    assert_eq!(game.next_record(&mut run, &mut stats, Some(1), 10), RecordStep::BeforeSkip);
    let mut next_game = GameScan::new();
    assert_eq!(next_game.next_record(&mut run, &mut stats, Some(1), 0), RecordStep::Process { index: 5, ply: 0 });
    next_game.note_buffered(false);
    assert!(!next_game.tb_hit_found);
    next_game.note_buffered(true);
    next_game.note_buffered(false);
    assert!(next_game.tb_hit_found);
}

#[test]
fn ply_saturates() {
    let mut run = RunCounters::new();
    let mut stats = StatsCounts::new();
    let mut game = GameScan { ply: u16::MAX, tb_hit_found: false };
    assert_eq!(game.next_record(&mut run, &mut stats, Some(1), 0), RecordStep::Process { index: 0, ply: u16::MAX });
    assert_eq!(game.ply, u16::MAX);
}

#[test]
fn limit_and_progress_interval() {
    let mut run = RunCounters::new();
    assert!(!run.limit_reached(None));
    assert!(run.limit_reached(Some(0)));
    let mut due = 0;
    for _ in 0..2500 {
        if run.record_shown() {
            due += 1;
        }
    }
    assert_eq!(due, 2);
    assert!(run.limit_reached(Some(2500)));
    assert!(!run.limit_reached(Some(2501)));
}

#[test]
fn stats_count_versions_and_flags() {
    let mut s = StatsCounts::new();
    let mut r = V6Record::from_bytes(&vec![0u8; RECORD_SIZE]).unwrap();
    r.version = 6;
    r.input_format = 1;
    r.visits = 800;
    r.invariance_info = 0x20;
    s.update(&r);
    r.version = 5;
    r.invariance_info = 0x08;
    s.update(&r);
    s.update(&r);
    assert_eq!(s.total_records, 3);
    assert_eq!(s.total_visits, 2400);
    assert_eq!(s.adjudicated, 1);
    assert_eq!(s.proven_best, 2);
    assert_eq!(s.version_counts.get(&6), Some(&1));
    assert_eq!(s.version_counts.get(&5), Some(&2));
    assert_eq!(s.format_counts.get(&1), Some(&3));
}

#[test]
fn syzygy_helpers() {
    assert_eq!(split_paths("/a:/b::c", ':'), vec!["/a", "/b", "", "c"]);
    assert_eq!(split_paths("", ':'), vec![""]);
    assert_eq!(wdl_signum(WdlValue::Loss), -1);
    assert_eq!(wdl_signum(WdlValue::BlessedLoss), -1);
    assert_eq!(wdl_signum(WdlValue::Draw), 0);
    assert_eq!(wdl_signum(WdlValue::CursedWin), 1);
    assert_eq!(wdl_signum(WdlValue::Win), 1);
    let d = TableInventory::default();
    assert_eq!((d.file_count, d.max_pieces), (0, 0));
}

#[test]
fn disabled_prober_never_answers() {
    let p = SyzygyProber::disabled();
    assert!(!p.is_loaded());
    assert_eq!(p.inventory().file_count, 0);
    let pos = StandardPosition::from_fen("8/8/8/8/8/8/8/K6k w - - 0 1").unwrap();
    assert_eq!(p.probe("8/8/8/8/8/8/8/K6k w - - 0 1", &pos), None);
}

#[test]
fn standard_positions_need_a_legal_setup() {
    assert!(StandardPosition::from_fen("rnbqkbnr/pppppppp/8/8/8/8/PPPPPPPP/RNBQKBNR w KQkq - 0 1").is_some());
    assert!(StandardPosition::from_fen("not a fen").is_none());
    assert!(StandardPosition::from_fen("8/8/8/8/8/8/8/K6K w - - 0 1").is_none());
}

#[test]
fn table_inventory_sums_counts_and_caps() {
    let inv = table_inventory(&vec![3, 4, 0], 6);
    assert_eq!((inv.file_count, inv.max_pieces), (7, 6));
    let capped = table_inventory(&vec![usize::MAX - 1, 5], 7);
    assert_eq!(capped.file_count, usize::MAX);
    assert_eq!(table_inventory(&vec![], 0).file_count, 0);
}

#[test]
fn loading_a_missing_directory_names_it() {
    match SyzygyProber::load("/nonexistent/tables/dir", ':') {
        Err(m) => assert!(m.starts_with("syzygy: failed to load /nonexistent/tables/dir: "), "{m}"),
        Ok(_) => panic!("missing directory loaded"),
    }
}

#[test]
fn loading_an_empty_directory_finds_no_tables() {
    let p = SyzygyProber::load("/tmp", ':').ok().unwrap();
    assert!(p.is_loaded());
    assert_eq!(p.inventory().max_pieces, 0);
}
