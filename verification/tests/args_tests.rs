use lc0_binpack::args::{parse_args, parse_unsigned_exec, resolve_backprop_mode, ArgsError};
use lc0_binpack::binpack::BackpropMode;
use lc0_binpack::printer::Verbosity;

fn argv(a: &[&str]) -> Vec<String> {
    let mut v = vec!["prog".to_string()];
    v.extend(a.iter().map(|s| s.to_string()));
    v
}

#[test]
fn backprop_precedence() {
    assert_eq!(resolve_backprop_mode(false, None), BackpropMode::Off);
    assert_eq!(resolve_backprop_mode(true, None), BackpropMode::Unlimited);
    assert_eq!(resolve_backprop_mode(false, Some(30)), BackpropMode::Limited(30));
    assert_eq!(resolve_backprop_mode(true, Some(30)), BackpropMode::Limited(30));
}

#[test]
fn parses_a_full_command_line() {
    let a = parse_args(&argv(&[
        "-d", "/data", "-o", "out.binpack", "--syzygy-path", "/tb", "--backpropagate",
        "--backpropagate-limit", "30", "-n", "-l", "10", "-s", "+5", "--summary", "x.gz", "y.gz",
    ]))
    .ok()
    .unwrap();
    assert_eq!(a.files, vec!["x.gz".to_string(), "y.gz".to_string()]);
    assert_eq!(a.input_dir.as_deref(), Some("/data"));
    assert_eq!(a.output.as_deref(), Some("out.binpack"));
    assert_eq!(a.syzygy_path.as_deref(), Some("/tb"));
    assert_eq!(a.backprop_mode, BackpropMode::Limited(30));
    assert_eq!(a.verbosity, Some(Verbosity::Normal));
    assert_eq!(a.limit, Some(10));
    assert_eq!(a.skip, 5);
    assert!(a.summary);
}

#[test]
fn defaults_and_last_verbosity_wins() {
    let a = parse_args(&argv(&["-b", "--full", "g.gz"])).ok().unwrap();
    assert_eq!(a.verbosity, Some(Verbosity::Full));
    assert_eq!(a.backprop_mode, BackpropMode::Off);
    assert_eq!(a.limit, None);
    assert_eq!(a.skip, 0);
    assert!(!a.summary);
    let b = parse_args(&argv(&["--backpropagate"])).ok().unwrap();
    assert_eq!(b.backprop_mode, BackpropMode::Unlimited);
    assert!(b.files.is_empty());
}

#[test]
fn rejects_bad_values() {
    match parse_args(&argv(&["--limit", "ten"])) {
        Err(ArgsError::BadValue(m)) => assert_eq!(m, "--limit needs an integer"),
        _ => panic!("expected a bad value"),
    }
    match parse_args(&argv(&["--backpropagate-limit", "70000"])) {
        Err(ArgsError::BadValue(m)) => assert_eq!(m, "--backpropagate-limit needs an integer (plies)"),
        _ => panic!("expected a bad value"),
    }
    match parse_args(&argv(&["-o"])) {
        Err(ArgsError::BadValue(m)) => assert_eq!(m, "--output needs a filename"),
        _ => panic!("expected a bad value"),
    }
    match parse_args(&argv(&["-s", "-1"])) {
        Err(ArgsError::BadValue(m)) => assert_eq!(m, "--skip needs an integer"),
        _ => panic!("expected a bad value"),
    }
    match parse_args(&argv(&["--frobnicate"])) {
        Err(ArgsError::UnknownOption(m)) => assert_eq!(m, "--frobnicate"),
        _ => panic!("expected an unknown option"),
    }
    assert!(matches!(parse_args(&argv(&["a.gz", "-h"])), Err(ArgsError::Help)));
}

#[test]
fn unsigned_parsing_follows_str_parse() {
    for s in ["0", "7", "+12", "65535", "0065535", "18446744073709551615", "", "+", "-1", "1a", " 1", "18446744073709551616"] {
        assert_eq!(parse_unsigned_exec(s, u64::MAX), s.parse::<u64>().ok(), "{s}");
        assert_eq!(parse_unsigned_exec(s, u16::MAX as u64), s.parse::<u16>().ok().map(|v| v as u64), "{s}");
    }
    assert_eq!(parse_unsigned_exec("65536", u16::MAX as u64), None);
}
