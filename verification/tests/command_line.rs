use fastcount::args::{
    exit_code, long_flag, parse_args_from, set_value, short_flag, take_inline_value, Command, Flag,
};
use fastcount::options::{
    default_threads, parse_color_when, parse_positive_int, parse_unit, use_color, ColorWhen,
    Options, Unit, VERSION,
};
use fastcount::text::{decimal_text, same_text};

fn parse(args: &[&str]) -> Result<Command, String> {
    let raw: Vec<String> = args.iter().map(|a| a.to_string()).collect();
    parse_args_from(&raw, 4)
}

fn defaults() -> Options {
    Options::with_threads(4)
}

fn runs(args: &[&str], opts: Options) {
    assert_eq!(parse(args), Ok(Command::Run(opts)));
}

fn fails(args: &[&str], message: &str) {
    assert_eq!(parse(args), Err(message.to_string()));
}

#[test]
fn no_arguments_give_the_defaults() {
    runs(
        &[],
        Options {
            count_to: 1,
            threads: 4,
            repeat: 1,
            quiet: false,
            json: false,
            unit: Unit::Ns,
            color: ColorWhen::Auto,
        },
    );
}

#[test]
fn long_options() {
    runs(&["--count-to", "100000000"], Options { count_to: 100_000_000, ..defaults() });
    runs(&["--count-to=5"], Options { count_to: 5, ..defaults() });
    runs(&["--threads", "8"], Options { threads: 8, ..defaults() });
    runs(&["--repeat=3", "--json"], Options { repeat: 3, json: true, ..defaults() });
    runs(&["--quiet"], Options { quiet: true, ..defaults() });
    runs(&["--unit", "us"], Options { unit: Unit::Us, ..defaults() });
    runs(&["--color=always"], Options { color: ColorWhen::Always, ..defaults() });
}

#[test]
fn short_options() {
    runs(&["-c", "100000000", "-t", "1"], Options { count_to: 100_000_000, threads: 1, ..defaults() });
    runs(&["-c1000", "-r500"], Options { count_to: 1000, repeat: 500, ..defaults() });
    runs(&["-r", "1000", "-j"], Options { repeat: 1000, json: true, ..defaults() });
    runs(&["-u", "ms"], Options { unit: Unit::Ms, ..defaults() });
    runs(&["-ucycles"], Options { unit: Unit::Cycles, ..defaults() });
    runs(&["-L", "never"], Options { color: ColorWhen::Never, ..defaults() });
}

#[test]
fn letters_share_a_dash() {
    let both = Options { quiet: true, json: true, ..defaults() };
    runs(&["-qj"], both);
    runs(&["-q", "-j"], both);
    runs(&["-qjc", "7"], Options { count_to: 7, ..both });
    runs(&["-qjc7"], Options { count_to: 7, ..both });
    runs(&["-qj", "-c7"], Options { count_to: 7, ..both });
}

#[test]
fn forms_of_a_value_agree() {
    let opts = Options { repeat: 12, ..defaults() };
    runs(&["--repeat", "12"], opts);
    runs(&["--repeat=12"], opts);
    runs(&["-r", "12"], opts);
    runs(&["-r12"], opts);
}

#[test]
fn given_threads_hide_the_machine() {
    let raw = vec!["-t".to_string(), "3".to_string()];
    assert_eq!(parse_args_from(&raw, 1), parse_args_from(&raw, 64));
    assert_ne!(parse_args_from(&[], 1), parse_args_from(&[], 64));
}

#[test]
fn reading_goes_on_from_a_run() {
    runs(&["-q", "-c", "3"], Options { quiet: true, count_to: 3, ..defaults() });
    runs(
        &["-q", "-c", "3", "-r2", "-c4"],
        Options { quiet: true, count_to: 4, repeat: 2, ..defaults() },
    );
    fails(&["-q", "-c", "3", "--nope"], "unknown option: --nope");
}

#[test]
fn last_value_counts() {
    runs(&["-c", "3", "-c", "4"], Options { count_to: 4, ..defaults() });
    runs(&["--unit=ns", "--unit=ms"], Options { unit: Unit::Ms, ..defaults() });
}

#[test]
fn value_of_a_switch_is_ignored() {
    runs(&["--quiet=no"], Options { quiet: true, ..defaults() });
    assert_eq!(parse(&["--help=x"]), Ok(Command::Help(ColorWhen::Auto)));
}

#[test]
fn value_goes_up_to_the_end() {
    fails(&["--unit=a=b"], "unknown unit: 'a=b' (expected ns, us, ms, or cycles)");
    fails(&["-c=5"], "--count-to expects an integer, got '=5'");
    fails(&["-c", "-5"], "--count-to must be a positive integer (>= 1)");
}

#[test]
fn help_and_version_are_answered_at_once() {
    assert_eq!(parse(&["--help", "--nonsense"]), Ok(Command::Help(ColorWhen::Auto)));
    assert_eq!(parse(&["-h"]), Ok(Command::Help(ColorWhen::Auto)));
    assert_eq!(parse(&["-qh", "nonsense"]), Ok(Command::Help(ColorWhen::Auto)));
    assert_eq!(parse(&["--version", "nonsense"]), Ok(Command::Version));
    assert_eq!(parse(&["-v"]), Ok(Command::Version));
    assert_eq!(parse(&["-vz"]), Ok(Command::Version));
    assert_eq!(VERSION, "2.0.0");
}

#[test]
fn help_keeps_the_colour_mode() {
    assert_eq!(parse(&["--color=always", "--help"]), Ok(Command::Help(ColorWhen::Always)));
    assert_eq!(parse(&["-Lnever", "-h"]), Ok(Command::Help(ColorWhen::Never)));
}

#[test]
fn errors_come_before_help() {
    fails(&["--nonsense", "--help"], "unknown option: --nonsense");
}

#[test]
fn unknown_options() {
    fails(&["--nope"], "unknown option: --nope");
    fails(&["--nope=3"], "unknown option: --nope");
    fails(&["--"], "unknown option: --");
    fails(&["--Quiet"], "unknown option: --Quiet");
    fails(&["-x"], "unknown option: -x");
    fails(&["-qx"], "unknown option: -x");
    fails(&["-q-"], "unknown option: --");
}

#[test]
fn unknown_letter_outside_ascii_shows_its_first_byte() {
    fails(&["-\u{e9}"], "unknown option: -\u{c3}");
    fails(&["-q\u{20ac}"], "unknown option: -\u{e2}");
    fails(&["-\u{1f600}"], "unknown option: -\u{f0}");
    fails(&["--\u{e9}t\u{e9}=1"], "unknown option: --\u{e9}t\u{e9}");
}

#[test]
fn unexpected_arguments() {
    fails(&["7"], "unexpected argument: 7");
    fails(&["-"], "unexpected argument: -");
    fails(&[""], "unexpected argument: ");
    fails(&["\u{e9}"], "unexpected argument: \u{e9}");
    fails(&["-q", "x"], "unexpected argument: x");
}

#[test]
fn missing_values() {
    fails(&["--count-to"], "--count-to expects an integer, got ''");
    fails(&["-t"], "--threads expects an integer, got ''");
    fails(&["--repeat="], "--repeat expects an integer, got ''");
    fails(&["-u"], "unknown unit: '' (expected ns, us, ms, or cycles)");
    fails(&["-qL"], "unknown color mode: '' (expected auto, always, or never)");
}

#[test]
fn bad_values() {
    fails(&["-c", "zero"], "--count-to expects an integer, got 'zero'");
    fails(&["-t0"], "--threads must be a positive integer (>= 1)");
    fails(&["--repeat=-1"], "--repeat must be a positive integer (>= 1)");
    fails(&["--unit", "s"], "unknown unit: 's' (expected ns, us, ms, or cycles)");
    fails(&["--unit", "\u{b5}s"], "unknown unit: '\u{b5}s' (expected ns, us, ms, or cycles)");
    fails(&["--color", "Auto"], "unknown color mode: 'Auto' (expected auto, always, or never)");
    fails(&["-c\u{663}"], "--count-to expects an integer, got '\u{663}'");
}

#[test]
fn next_argument_is_taken_whatever_it_is() {
    fails(&["-c", "--help"], "--count-to expects an integer, got '--help'");
    runs(&["--count-to", " 9 "], Options { count_to: 9, ..defaults() });
}

#[test]
fn exit_codes() {
    assert_eq!(exit_code(&parse(&[])), 0);
    assert_eq!(exit_code(&parse(&["-h"])), 0);
    assert_eq!(exit_code(&parse(&["-v"])), 0);
    assert_eq!(exit_code(&parse(&["-c", "x"])), 2);
}

#[test]
fn positive_integers() {
    let read = |v: &str| parse_positive_int("--n", v);
    assert_eq!(read("1"), Ok(1));
    assert_eq!(read("+7"), Ok(7));
    assert_eq!(read("007"), Ok(7));
    assert_eq!(read("9223372036854775807"), Ok(9223372036854775807));
    assert_eq!(read("\t 12\u{a0}\u{3000}\u{85}\n"), Ok(12));
    for v in [
        "", "+", "-", "1 2", "1_000", "0x10", "1.0", "--1", "+-1", "9223372036854775808",
        "-9223372036854775809", "\u{200b}1", "1e3", "99999999999999999999999999",
    ] {
        assert_eq!(read(v), Err(format!("--n expects an integer, got '{v}'")));
    }
    for v in ["0", "-0", "-1", " -9223372036854775808 "] {
        assert_eq!(read(v), Err("--n must be a positive integer (>= 1)".to_string()));
    }
}

#[test]
fn white_space_is_trimmed() {
    let white = [
        '\u{9}', '\u{a}', '\u{b}', '\u{c}', '\u{d}', '\u{20}', '\u{85}', '\u{a0}', '\u{1680}',
        '\u{2000}', '\u{2001}', '\u{2002}', '\u{2003}', '\u{2004}', '\u{2005}', '\u{2006}',
        '\u{2007}', '\u{2008}', '\u{2009}', '\u{200a}', '\u{2028}', '\u{2029}', '\u{202f}',
        '\u{205f}', '\u{3000}',
    ];
    for code in 0..0x11_0000u32 {
        if let Some(c) = char::from_u32(code) {
            let read = parse_positive_int("--n", &format!("{c}5{c}"));
            assert_eq!(read == Ok(5), white.contains(&c), "{code:x}");
        }
    }
}

#[test]
fn decimals_are_read_back() {
    for n in [1u64, 9, 10, 99, 100, 4096, 1_000_000, i64::MAX as u64] {
        assert_eq!(parse_positive_int("--n", &decimal_text(n)), Ok(n));
        assert_eq!(decimal_text(n), format!("{n}"));
    }
    assert_eq!(decimal_text(0), "0");
    assert_eq!(decimal_text(u64::MAX), "18446744073709551615");
}

#[test]
fn units() {
    for u in [Unit::Ns, Unit::Us, Unit::Ms, Unit::Cycles] {
        assert_eq!(parse_unit(u.label()), Ok(u));
    }
    assert_eq!(Unit::Us.label(), "us");
    assert_eq!(
        parse_unit("NS"),
        Err("unknown unit: 'NS' (expected ns, us, ms, or cycles)".to_string())
    );
    assert_eq!(Unit::Ns.ns_per_unit(), Some(1));
    assert_eq!(Unit::Us.ns_per_unit(), Some(1_000));
    assert_eq!(Unit::Ms.ns_per_unit(), Some(1_000_000));
    assert_eq!(Unit::Cycles.ns_per_unit(), None);
}

#[test]
fn color_modes() {
    assert_eq!(parse_color_when("auto"), Ok(ColorWhen::Auto));
    assert_eq!(parse_color_when("always"), Ok(ColorWhen::Always));
    assert_eq!(parse_color_when("never"), Ok(ColorWhen::Never));
    assert_eq!(
        parse_color_when("sometimes"),
        Err("unknown color mode: 'sometimes' (expected auto, always, or never)".to_string())
    );
}

#[test]
fn colour_follows_mode_and_terminal() {
    assert!(use_color(ColorWhen::Always, false));
    assert!(use_color(ColorWhen::Always, true));
    assert!(!use_color(ColorWhen::Never, true));
    assert!(!use_color(ColorWhen::Never, false));
    assert!(use_color(ColorWhen::Auto, true));
    assert!(!use_color(ColorWhen::Auto, false));
}

#[test]
fn inline_value_is_the_rest_of_the_argument() {
    let raw = vec!["-qc12".to_string(), "next".to_string()];
    let (mut i, mut j) = (0usize, 1usize);
    let v = take_inline_value("-qc12", b"qc12", &mut j, &raw, &mut i);
    assert_eq!((v.as_str(), i, j), ("12", 0, 4));
}

#[test]
fn inline_value_may_be_outside_ascii() {
    let raw = vec!["-u\u{b5}s".to_string()];
    let (mut i, mut j) = (0usize, 0usize);
    let v = take_inline_value("-u\u{b5}s", "u\u{b5}s".as_bytes(), &mut j, &raw, &mut i);
    assert_eq!((v.as_str(), i, j), ("\u{b5}s", 0, 4));
}

#[test]
fn inline_value_falls_back_to_the_next_argument() {
    let raw = vec!["-qc".to_string(), "next".to_string()];
    let (mut i, mut j) = (0usize, 1usize);
    let v = take_inline_value("-qc", b"qc", &mut j, &raw, &mut i);
    assert_eq!((v.as_str(), i, j), ("next", 1, 1));
    let (mut i, mut j) = (1usize, 1usize);
    let v = take_inline_value("-qc", b"qc", &mut j, &raw, &mut i);
    assert_eq!((v.as_str(), i, j), ("", 2, 1));
}

#[test]
fn flags_are_found() {
    let all = [
        (Flag::Help, "help", b'h', false),
        (Flag::Version, "version", b'v', false),
        (Flag::CountTo, "count-to", b'c', true),
        (Flag::Threads, "threads", b't', true),
        (Flag::Repeat, "repeat", b'r', true),
        (Flag::Quiet, "quiet", b'q', false),
        (Flag::Json, "json", b'j', false),
        (Flag::Unit, "unit", b'u', true),
        (Flag::Color, "color", b'L', true),
    ];
    for (flag, word, letter, value) in all {
        assert_eq!(long_flag(word), Some(flag));
        assert_eq!(short_flag(letter), Some(flag));
        assert_eq!(flag.takes_value(), value);
    }
    assert_eq!(long_flag("colour"), None);
    assert_eq!(long_flag(""), None);
    assert_eq!((0..=255u8).filter(|b| short_flag(*b).is_some()).count(), 9);
}

#[test]
fn refused_values_change_nothing() {
    let mut opts = defaults();
    assert!(set_value(&mut opts, Flag::Repeat, "none").is_err());
    assert_eq!(opts, defaults());
    assert_eq!(set_value(&mut opts, Flag::Repeat, "2"), Ok(()));
    assert_eq!(opts.repeat, 2);
    assert_eq!(set_value(&mut opts, Flag::Quiet, "2"), Ok(()));
    assert_eq!(opts, Options { repeat: 2, ..defaults() });
}

#[test]
fn texts_are_compared() {
    assert!(same_text("", ""));
    assert!(same_text("\u{e9}t\u{e9}", "\u{e9}t\u{e9}"));
    assert!(!same_text("ab", "ac"));
    assert!(!same_text("ab", "abc"));
}

#[test]
fn threads_default_to_what_the_machine_reports() {
    assert_eq!(default_threads(Some(8)), 8);
    assert_eq!(default_threads(Some(1)), 1);
    assert_eq!(default_threads(None), 1);
}

#[test]
fn errors_rest_on_the_arguments() {
    fails(&["--unit", "s"], "unknown unit: 's' (expected ns, us, ms, or cycles)");
    fails(
        &["-qj", "-c5", "-t3", "--unit", "s"],
        "unknown unit: 's' (expected ns, us, ms, or cycles)",
    );
    fails(&["-qx"], "unknown option: -x");
    fails(&["-t3", "-uus", "-qx"], "unknown option: -x");
}

#[test]
fn threads_fit_in_an_i64() {
    let most = usize::try_from(i64::MAX).unwrap();
    runs(&["-t", "9223372036854775807"], Options { threads: most, ..defaults() });
    fails(
        &["-t", "9223372036854775808"],
        "--threads expects an integer, got '9223372036854775808'",
    );
}
