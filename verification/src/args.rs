//! Command-line options.

use vstd::prelude::*;
use crate::binpack::BackpropMode;
use crate::printer::Verbosity;

verus! {

/// Resolve `--backpropagate` and `--backpropagate-limit` into one mode: a
/// limit always wins (it is more specific than "unlimited") and enables
/// backward propagation on its own; `--backpropagate` alone is unlimited;
/// neither flag is forward-only.
pub fn resolve_backprop_mode(backpropagate: bool, limit: Option<u16>) -> (r: BackpropMode)
    ensures
        limit matches Some(n) ==> r == BackpropMode::Limited(n),
        limit is None && backpropagate ==> r == BackpropMode::Unlimited,
        limit is None && !backpropagate ==> r == BackpropMode::Off,
{
    match limit {
        Some(n) => BackpropMode::Limited(n),
        None => if backpropagate {
            BackpropMode::Unlimited
        } else {
            BackpropMode::Off
        },
    }
}

// ── Unsigned integers ────────────────────────────────────────────────────────

pub open spec fn is_digit(c: char) -> bool {
    '0' <= c <= '9'
}

/// The value of a string of decimal digits.
pub open spec fn digits_value(s: Seq<char>) -> nat
    decreases s.len(),
{
    if s.len() == 0 {
        0
    } else {
        digits_value(s.drop_last()) * 10 + (s.last() as nat - 48) as nat
    }
}

/// An unsigned integer as Rust's `str::parse` reads it: an optional '+',
/// then one or more decimal digits, with a value of at most `max`.
pub open spec fn parse_unsigned(s: Seq<char>, max: nat) -> Option<nat> {
    let d = unsigned_digits(s);
    if d.len() > 0 && all_digits(d) && digits_value(d) <= max {
        Some(digits_value(d))
    } else {
        None
    }
}

/// `s` without a leading '+'.
pub open spec fn unsigned_digits(s: Seq<char>) -> Seq<char> {
    if s.len() > 0 && s[0] == '+' { s.drop_first() } else { s }
}

pub open spec fn all_digits(d: Seq<char>) -> bool {
    forall|i: int| 0 <= i < d.len() ==> is_digit(#[trigger] d[i])
}

/// Parse an unsigned integer of at most `max`.
pub fn parse_unsigned_exec(s: &str, max: u64) -> (r: Option<u64>)
    ensures
        match (r, parse_unsigned(s@, max as nat)) {
            (Some(a), Some(b)) => a == b,
            (None, None) => true,
            _ => false,
        },
{
    let n = s.unicode_len();
    let start: usize = if n > 0 && s.get_char(0) == '+' { 1 } else { 0 };
    let ghost d = if s@.len() > 0 && s@[0] == '+' { s@.drop_first() } else { s@ };
    assert(d =~= s@.subrange(start as int, n as int));
    if start == n {
        return None;
    }
    let mut value: u64 = 0;
    let mut i: usize = start;
    while i < n
        invariant
            start <= i <= n,
            n == s@.len(),
            d == s@.subrange(start as int, n as int),
            d == unsigned_digits(s@),
            value as nat == digits_value(d.take(i - start)),
            value <= max,
            forall|j: int| 0 <= j < i - start ==> is_digit(#[trigger] d[j]),
        decreases n - i,
    {
        let c = s.get_char(i);
        assert(d[i - start] == c);
        if !('0' <= c && c <= '9') {
            assert(!is_digit(d[i - start]));
            assert(parse_unsigned(s@, max as nat) is None);
            return None;
        }
        let digit = (c as u32 - 48) as u64;
        proof {
            assert(d.take(i - start + 1).drop_last() =~= d.take(i - start));
        }
        let too_big = if value > max / 10 {
            true
        } else {
            assert(value * 10 <= max) by (nonlinear_arith)
                requires
                    value <= max / 10,
            ;
            digit > max - value * 10
        };
        if too_big {
            proof {
                assert(digits_value(d.take(i - start + 1)) == value * 10 + digit);
                assert(value * 10 + digit > max) by (nonlinear_arith)
                    requires
                        value > max / 10 || (value * 10 <= max && digit > max - value * 10),
                        digit >= 0,
                ;
                if all_digits(d) {
                    lemma_digits_value_prefix_bound(d, i - start + 1, max as nat);
                }
                assert(parse_unsigned(s@, max as nat) is None);
            }
            return None;
        }
        value = value * 10 + digit;
        i = i + 1;
    }
    assert(d.take(n - start) =~= d);
    Some(value)
}

proof fn lemma_digits_value_prefix_bound(d: Seq<char>, k: int, max: nat)
    requires
        0 <= k <= d.len(),
        all_digits(d),
        digits_value(d.take(k)) > max,
    ensures
        digits_value(d) > max,
    decreases d.len() - k,
{
    if k < d.len() {
        assert(d.take(k + 1).drop_last() =~= d.take(k));
        assert(digits_value(d.take(k + 1)) >= digits_value(d.take(k))) by (nonlinear_arith)
            requires
                digits_value(d.take(k + 1)) == digits_value(d.take(k)) * 10 + (d.take(k + 1).last() as nat - 48) as nat,
        ;
        lemma_digits_value_prefix_bound(d, k + 1, max);
    } else {
        assert(d.take(k) =~= d);
    }
}

// ── Option parsing ───────────────────────────────────────────────────────────

/// The options of a run.
pub struct Args {
    /// Input files named on the command line, in order.
    pub files: Vec<String>,
    pub verbosity: Option<Verbosity>,
    pub limit: Option<usize>,
    pub skip: usize,
    pub summary: bool,
    pub output: Option<String>,
    pub syzygy_path: Option<String>,
    /// Resolved from `--backpropagate` and `--backpropagate-limit`.
    pub backprop_mode: BackpropMode,
    pub input_dir: Option<String>,
}

/// Why the command line was not accepted.
pub enum ArgsError {
    /// `-h` / `--help`: show the usage text.
    Help,
    /// An option lacks its value or has a bad one; the message says which.
    BadValue(String),
    /// An unknown option.
    UnknownOption(String),
}

/// The options as plain values.
pub struct ArgsView {
    pub files: Seq<Seq<char>>,
    pub verbosity: Option<Verbosity>,
    pub limit: Option<nat>,
    pub skip: nat,
    pub summary: bool,
    pub output: Option<Seq<char>>,
    pub syzygy_path: Option<Seq<char>>,
    pub backpropagate: bool,
    pub backprop_limit: Option<u16>,
    pub input_dir: Option<Seq<char>>,
}

pub enum ArgsErrorView {
    Help,
    BadValue(Seq<char>),
    UnknownOption(Seq<char>),
}

/// Options before any argument is read.
pub open spec fn initial_args_view() -> ArgsView {
    ArgsView {
        files: seq![],
        verbosity: None,
        limit: None,
        skip: 0,
        summary: false,
        output: None,
        syzygy_path: None,
        backpropagate: false,
        backprop_limit: None,
        input_dir: None,
    }
}

/// The value following the option at index `i`, if any.
pub open spec fn next_arg(raw: Seq<Seq<char>>, i: int) -> Option<Seq<char>> {
    if i + 1 < raw.len() { Some(raw[i + 1]) } else { None }
}

/// The options given by `raw[i..]`, starting from `st`.
pub open spec fn parse_from(raw: Seq<Seq<char>>, i: int, st: ArgsView) -> Result<ArgsView, ArgsErrorView>
    decreases raw.len() - i,
{
    if i < 0 || i >= raw.len() {
        Ok(st)
    } else {
        let a = raw[i];
        if a == "-h"@ || a == "--help"@ {
            Err(ArgsErrorView::Help)
        } else if a == "-b"@ || a == "--brief"@ {
            parse_from(raw, i + 1, ArgsView { verbosity: Some(Verbosity::Brief), ..st })
        } else if a == "-n"@ || a == "--normal"@ {
            parse_from(raw, i + 1, ArgsView { verbosity: Some(Verbosity::Normal), ..st })
        } else if a == "-f"@ || a == "--full"@ {
            parse_from(raw, i + 1, ArgsView { verbosity: Some(Verbosity::Full), ..st })
        } else if a == "--summary"@ {
            parse_from(raw, i + 1, ArgsView { summary: true, ..st })
        } else if a == "--backpropagate"@ {
            parse_from(raw, i + 1, ArgsView { backpropagate: true, ..st })
        } else if a == "--backpropagate-limit"@ {
            match next_arg(raw, i) {
                Some(v) if parse_unsigned(v, u16::MAX as nat) is Some => parse_from(
                    raw,
                    i + 2,
                    ArgsView { backprop_limit: Some(parse_unsigned(v, u16::MAX as nat)->0 as u16), ..st },
                ),
                _ => Err(ArgsErrorView::BadValue("--backpropagate-limit needs an integer (plies)"@)),
            }
        } else if a == "-l"@ || a == "--limit"@ {
            match next_arg(raw, i) {
                Some(v) if parse_unsigned(v, usize::MAX as nat) is Some => parse_from(
                    raw,
                    i + 2,
                    ArgsView { limit: Some(parse_unsigned(v, usize::MAX as nat)->0), ..st },
                ),
                _ => Err(ArgsErrorView::BadValue("--limit needs an integer"@)),
            }
        } else if a == "-s"@ || a == "--skip"@ {
            match next_arg(raw, i) {
                Some(v) if parse_unsigned(v, usize::MAX as nat) is Some => parse_from(
                    raw,
                    i + 2,
                    ArgsView { skip: parse_unsigned(v, usize::MAX as nat)->0, ..st },
                ),
                _ => Err(ArgsErrorView::BadValue("--skip needs an integer"@)),
            }
        } else if a == "-o"@ || a == "--output"@ {
            match next_arg(raw, i) {
                Some(v) => parse_from(raw, i + 2, ArgsView { output: Some(v), ..st }),
                None => Err(ArgsErrorView::BadValue("--output needs a filename"@)),
            }
        } else if a == "--syzygy-path"@ {
            match next_arg(raw, i) {
                Some(v) => parse_from(raw, i + 2, ArgsView { syzygy_path: Some(v), ..st }),
                None => Err(ArgsErrorView::BadValue("--syzygy-path needs a directory"@)),
            }
        } else if a == "-d"@ || a == "--input-dir"@ {
            match next_arg(raw, i) {
                Some(v) => parse_from(raw, i + 2, ArgsView { input_dir: Some(v), ..st }),
                None => Err(ArgsErrorView::BadValue("--input-dir needs a directory"@)),
            }
        } else if a.len() > 0 && a[0] == '-' {
            Err(ArgsErrorView::UnknownOption(a))
        } else {
            parse_from(raw, i + 1, ArgsView { files: st.files.push(a), ..st })
        }
    }
}

/// The options of the command line `raw` (`raw[0]` is the program name).
pub open spec fn spec_parse_args(raw: Seq<Seq<char>>) -> Result<ArgsView, ArgsErrorView> {
    parse_from(raw, 1, initial_args_view())
}

impl Args {
    /// The options as plain values; `backprop_mode` stands for the flags.
    pub open spec fn matches_view(&self, v: ArgsView) -> bool {
        &&& self.files@.len() == v.files.len()
        &&& forall|i: int| 0 <= i < v.files.len() ==> #[trigger] self.files@[i]@ == v.files[i]
        &&& self.verbosity == v.verbosity
        &&& (match (self.limit, v.limit) {
            (Some(a), Some(b)) => a == b,
            (None, None) => true,
            _ => false,
        })
        &&& self.skip == v.skip
        &&& self.summary == v.summary
        &&& opt_text(self.output) == v.output
        &&& opt_text(self.syzygy_path) == v.syzygy_path
        &&& opt_text(self.input_dir) == v.input_dir
        &&& (match v.backprop_limit {
            Some(n) => self.backprop_mode == BackpropMode::Limited(n),
            None => self.backprop_mode == if v.backpropagate {
                BackpropMode::Unlimited
            } else {
                BackpropMode::Off
            },
        })
    }
}

pub open spec fn opt_text(o: Option<String>) -> Option<Seq<char>> {
    match o {
        Some(s) => Some(s@),
        None => None,
    }
}

/// `a` and `b` hold the same characters.
pub fn str_eq(a: &str, b: &str) -> (r: bool)
    ensures
        r == (a@ == b@),
{
    let n = a.unicode_len();
    if n != b.unicode_len() {
        return false;
    }
    let mut i: usize = 0;
    while i < n
        invariant
            i <= n,
            n == a@.len(),
            n == b@.len(),
            forall|j: int| 0 <= j < i ==> a@[j] == b@[j],
        decreases n - i,
    {
        if a.get_char(i) != b.get_char(i) {
            return false;
        }
        i = i + 1;
    }
    assert(a@ =~= b@);
    true
}

/// Parse the command line `raw` (`raw[0]` is the program name).
pub fn parse_args(raw: &Vec<String>) -> (r: Result<Args, ArgsError>)
    ensures
        match (r, spec_parse_args(raw@.map_values(|s: String| s@))) {
            (Ok(a), Ok(v)) => a.matches_view(v),
            (Err(ArgsError::Help), Err(ArgsErrorView::Help)) => true,
            (Err(ArgsError::BadValue(m)), Err(ArgsErrorView::BadValue(t))) => m@ == t,
            (Err(ArgsError::UnknownOption(m)), Err(ArgsErrorView::UnknownOption(t))) => m@ == t,
            _ => false,
        },
{
    let ghost rv = raw@.map_values(|s: String| s@);
    let mut files: Vec<String> = Vec::new();
    let mut verbosity: Option<Verbosity> = None;
    let mut limit: Option<usize> = None;
    let mut skip: usize = 0;
    let mut summary = false;
    let mut output: Option<String> = None;
    let mut syzygy_path: Option<String> = None;
    let mut backpropagate = false;
    let mut backpropagate_lim: Option<u16> = None;
    let mut input_dir: Option<String> = None;
    let mut i: usize = 1;
    assert(files@.map_values(|s: String| s@) =~= Seq::<Seq<char>>::empty());
    while i < raw.len()
        invariant
            1 <= i,
            rv == raw@.map_values(|s: String| s@),
            spec_parse_args(rv) == parse_from(rv, i as int, ArgsView {
                files: files@.map_values(|s: String| s@),
                verbosity,
                limit: match limit { Some(l) => Some(l as nat), None => None },
                skip: skip as nat,
                summary,
                output: opt_text(output),
                syzygy_path: opt_text(syzygy_path),
                backpropagate,
                backprop_limit: backpropagate_lim,
                input_dir: opt_text(input_dir),
            }),
        decreases raw@.len() - i,
    {
        let a = raw[i].as_str();
        assert(rv[i as int] == a@);
        if str_eq(a, "-h") || str_eq(a, "--help") {
            return Err(ArgsError::Help);
        } else if str_eq(a, "-b") || str_eq(a, "--brief") {
            verbosity = Some(Verbosity::Brief);
            i = i + 1;
        } else if str_eq(a, "-n") || str_eq(a, "--normal") {
            verbosity = Some(Verbosity::Normal);
            i = i + 1;
        } else if str_eq(a, "-f") || str_eq(a, "--full") {
            verbosity = Some(Verbosity::Full);
            i = i + 1;
        } else if str_eq(a, "--summary") {
            summary = true;
            i = i + 1;
        } else if str_eq(a, "--backpropagate") {
            backpropagate = true;
            i = i + 1;
        } else if str_eq(a, "--backpropagate-limit") {
            let v = if i + 1 < raw.len() { parse_unsigned_exec(raw[i + 1].as_str(), 0xFFFF) } else { None };
            match v {
                Some(n) => {
                    backpropagate_lim = Some(n as u16);
                    i = i + 2;
                },
                None => {
                    return Err(ArgsError::BadValue("--backpropagate-limit needs an integer (plies)".to_owned()));
                },
            }
        } else if str_eq(a, "-l") || str_eq(a, "--limit") {
            let v = if i + 1 < raw.len() { parse_unsigned_exec(raw[i + 1].as_str(), usize::MAX as u64) } else { None };
            match v {
                Some(n) => {
                    limit = Some(n as usize);
                    i = i + 2;
                },
                None => {
                    return Err(ArgsError::BadValue("--limit needs an integer".to_owned()));
                },
            }
        } else if str_eq(a, "-s") || str_eq(a, "--skip") {
            let v = if i + 1 < raw.len() { parse_unsigned_exec(raw[i + 1].as_str(), usize::MAX as u64) } else { None };
            match v {
                Some(n) => {
                    skip = n as usize;
                    i = i + 2;
                },
                None => {
                    return Err(ArgsError::BadValue("--skip needs an integer".to_owned()));
                },
            }
        } else if str_eq(a, "-o") || str_eq(a, "--output") {
            if i + 1 < raw.len() {
                output = Some(raw[i + 1].clone());
                i = i + 2;
            } else {
                return Err(ArgsError::BadValue("--output needs a filename".to_owned()));
            }
        } else if str_eq(a, "--syzygy-path") {
            if i + 1 < raw.len() {
                syzygy_path = Some(raw[i + 1].clone());
                i = i + 2;
            } else {
                return Err(ArgsError::BadValue("--syzygy-path needs a directory".to_owned()));
            }
        } else if str_eq(a, "-d") || str_eq(a, "--input-dir") {
            if i + 1 < raw.len() {
                input_dir = Some(raw[i + 1].clone());
                i = i + 2;
            } else {
                return Err(ArgsError::BadValue("--input-dir needs a directory".to_owned()));
            }
        } else if a.unicode_len() > 0 && a.get_char(0) == '-' {
            return Err(ArgsError::UnknownOption(a.to_owned()));
        } else {
            let ghost before = files@;
            files.push(a.to_owned());
            assert(files@.map_values(|s: String| s@) =~= before.map_values(|s: String| s@).push(a@));
            i = i + 1;
        }
    }
    let backprop_mode = resolve_backprop_mode(backpropagate, backpropagate_lim);
    Ok(Args { files, verbosity, limit, skip, summary, output, syzygy_path, backprop_mode, input_dir })
}

} // verus!
