use fastcount::help::{
    benchmarking_rows, counting_rows, help_page, misc_rows, output_rows, parallelism_rows, row,
    row_val, sections,
};
use fastcount::options::{Options, Unit};
use fastcount::report::{
    append_line, json_escape, report_repeated, report_single, trial_line, Clock, Summary, Trial,
    TrialLog,
};

const HELP: &str = "fastcount 2.0.0 - an incredibly fast, incredibly useless counter

Usage:
  fastcount [options]

Counts from 0 up to a target number as fast as physically possible,
in parallel, with SIMD, then stops, having accomplished nothing of
consequence considerably faster than it needed to.

COUNTING
  By default, fastcount counts to 1. Go on, live a little.

  -c, --count-to <N>          count to N instead of 1 (must be an integer)

PARALLELISM
  Range is chunked across threads; each chunk counted with AVX2/SSE4.1/scalar.

  -t, --threads <N>           threads for parallel counting (default: all cores)

BENCHMARKING
  Repeated trials share one warm-up phase, then are timed independently.

  -r, --repeat <N>            run N trials, report min/mean/median/max (default: 1)

OUTPUT
  -q, --quiet                 print only the raw number(s), script-friendly
  -j, --json                  machine-readable JSON output
  -u, --unit <UNIT>           ns | us | ms | cycles  (default: ns)
  -L, --color <WHEN>          auto | always | never  (default: auto)

MISC
  -h, --help                  show this help
  -v, --version               show version

EXIT CODES: 0 = counted successfully  2 = invalid option value
";

#[test]
fn help_page_in_full() {
    assert_eq!(help_page(false), HELP);
}

#[test]
fn coloured_help_page_differs_by_codes_alone() {
    let page = help_page(true);
    assert!(page.contains("\x1b[1;32mUsage:\x1b[0m\n"));
    assert!(page.contains("\x1b[1;36m-u\x1b[0m, \x1b[1;36m--unit\x1b[0m \x1b[36m<UNIT>\x1b[0m"));
    let mut plain = page;
    for code in ["\x1b[1;32m", "\x1b[1;36m", "\x1b[36m", "\x1b[0m"] {
        plain = plain.replace(code, "");
    }
    assert_eq!(plain, HELP);
}

#[test]
fn help_sections() {
    let titles: Vec<&str> = sections().iter().map(|s| s.title).collect();
    assert_eq!(titles, ["COUNTING", "PARALLELISM", "BENCHMARKING", "OUTPUT", "MISC"]);
    let notes: Vec<bool> = sections().iter().map(|s| s.note.is_some()).collect();
    assert_eq!(notes, [true, true, true, false, false]);
    let sizes: Vec<usize> = sections().iter().map(|s| s.rows.len()).collect();
    assert_eq!(sizes, [1, 1, 1, 4, 2]);
}

#[test]
fn help_rows() {
    let r = row("-h", "--help", "show this help");
    assert_eq!((r.short, r.long, r.placeholder, r.desc), ("-h", "--help", None, "show this help"));
    let r = row_val("-c", "--count-to", "<N>", "count");
    assert_eq!((r.short, r.long, r.placeholder, r.desc), ("-c", "--count-to", Some("<N>"), "count"));
    assert_eq!(counting_rows()[0].short, "-c");
    assert_eq!(parallelism_rows()[0].short, "-t");
    assert_eq!(benchmarking_rows()[0].short, "-r");
    assert_eq!(output_rows()[2].desc, "ns | us | ms | cycles  (default: ns)");
    assert_eq!(misc_rows()[1].long, "--version");
}

#[test]
fn json_escapes() {
    assert_eq!(json_escape("ns"), "ns");
    assert_eq!(json_escape("a\"b"), "a\\\"b");
    assert_eq!(json_escape("a\\b"), "a\\\\b");
    assert_eq!(json_escape("\\\""), "\\\\\\\"");
    assert_eq!(json_escape("\u{e9}\n"), "\u{e9}\n");
    assert_eq!(json_escape(""), "");
}

#[test]
fn escaping_loses_nothing() {
    for s in ["", "plain", "\"", "\\", "\\\\\"\"", "a\\\"b\u{e9}"] {
        let mut back = String::new();
        let escaped = json_escape(s);
        let mut chars = escaped.chars();
        while let Some(c) = chars.next() {
            assert_ne!(c, '"');
            back.push(if c == '\\' { chars.next().unwrap() } else { c });
        }
        assert_eq!(back, s);
    }
}

fn options() -> Options {
    Options::with_threads(4)
}

fn trial(result: u64, cycles: u64, ns: &str, value: &str) -> Trial {
    Trial { result, cycles, ns: ns.to_string(), value: value.to_string() }
}

fn clock() -> Clock {
    Clock { ghz3: "2.713".to_string(), ghz4: "2.7124".to_string() }
}

#[test]
fn single_report_in_words() {
    assert_eq!(
        report_single(&options(), &trial(1, 17125, "6313.19", "6313.1878"), &clock(), false),
        "Counted to 1 using 4 threads.\n\
         Time elapsed: 17125 cycles (~6313.1878 ns)\n\
         Calibrated clock: ~2.713 GHz\n\
         Efficiency rating: 1 integer / 6313.1878 ns = blazingly fast"
    );
    let opts = Options { threads: 1, unit: Unit::Ms, ..options() };
    assert_eq!(
        report_single(&opts, &trial(1000000, 886512, "1", "0.3268"), &clock(), false),
        "Counted to 1000000 using 1 thread.\n\
         Time elapsed: 886512 cycles (~0.3268 ms)\n\
         Calibrated clock: ~2.713 GHz\n\
         Efficiency rating: 1000000 integers / 0.3268 ms = blazingly fast"
    );
}

#[test]
fn single_report_in_colour() {
    let report =
        report_single(&options(), &trial(1, 17125, "6313.19", "6313.1878"), &clock(), true);
    assert_eq!(
        report,
        "Counted to \x1b[1;36m1\x1b[0m using \x1b[1;36m4\x1b[0m threads.\n\
         Time elapsed: \x1b[1;36m17125\x1b[0m cycles (~\x1b[1;36m6313.1878\x1b[0m ns)\n\
         Calibrated clock: ~2.713 GHz\n\
         Efficiency rating: 1 integer / 6313.1878 ns = blazingly fast"
    );
}

#[test]
fn single_report_as_json() {
    let opts = Options { json: true, quiet: true, ..options() };
    let t = trial(1, 17125, "6313.19", "6313.1878");
    let json = "{\"target\":1,\"result\":1,\"threads\":4,\"cycles\":17125,\"ns\":6313.19,\
                \"unit\":\"ns\",\"value\":6313.1878,\"ghz\":2.7124}";
    assert_eq!(report_single(&opts, &t, &clock(), false), json);
    assert_eq!(report_single(&opts, &t, &clock(), true), json);
}

#[test]
fn single_report_as_bare_numbers() {
    let opts = Options { quiet: true, ..options() };
    let t = trial(1, 17125, "6313.19", "6313.1878");
    assert_eq!(report_single(&opts, &t, &clock(), true), "1 6313.1878ns");
}

fn three_trials() -> Vec<Trial> {
    vec![
        trial(1, 184890, "68164.73", "68164.7303"),
        trial(1, 25438, "9378.41", "9378.4110"),
        trial(1, 19714, "7268.10", "7268.1026"),
    ]
}

fn log() -> TrialLog {
    let mut log = TrialLog::new();
    for t in three_trials() {
        log.record(&t);
    }
    log
}

fn summary() -> Summary {
    Summary {
        min: "7268.1026".to_string(),
        mean: "28270.4146".to_string(),
        median: "9378.4110".to_string(),
        max: "68164.7303".to_string(),
    }
}

#[test]
fn repeated_report_as_json() {
    let opts = Options { repeat: 3, json: true, ..options() };
    let mut streamed = String::new();
    for (k, t) in three_trials().iter().enumerate() {
        append_line(&mut streamed, &trial_line(opts.unit, k as u64, t));
    }
    let report = report_repeated(&opts, &streamed, &log(), &summary(), &clock(), true);
    assert_eq!(
        report,
        "{\"trial\":0,\"result\":1,\"cycles\":184890,\"ns\":68164.73,\"unit\":\"ns\",\"value\":68164.7303}\n\
         {\"trial\":1,\"result\":1,\"cycles\":25438,\"ns\":9378.41,\"unit\":\"ns\",\"value\":9378.4110}\n\
         {\"trial\":2,\"result\":1,\"cycles\":19714,\"ns\":7268.10,\"unit\":\"ns\",\"value\":7268.1026}\n\
         {\"target\":1,\"result\":1,\"threads\":4,\"trials\":3,\"unit\":\"ns\",\"ghz\":2.7124,\
         \"min\":7268.1026,\"mean\":28270.4146,\"median\":9378.4110,\"max\":68164.7303,\
         \"samples\":[68164.7303,9378.4110,7268.1026]}\n"
    );
    assert_eq!(report.lines().count(), 4);
    assert!(!report.contains('\x1b'));
}

#[test]
fn repeated_report_as_bare_numbers() {
    let opts = Options { repeat: 3, quiet: true, ..options() };
    assert_eq!(
        report_repeated(&opts, "", &log(), &summary(), &clock(), true),
        "7268.1026 28270.4146 9378.4110 68164.7303\n"
    );
}

#[test]
fn repeated_report_in_words() {
    let opts = Options { repeat: 3, ..options() };
    assert_eq!(
        report_repeated(&opts, "", &log(), &summary(), &clock(), false),
        "Counted to 1 across 3 trials using 4 threads.\n  min:    7268.1026 ns\n  \
         mean:   28270.4146 ns\n  median: 9378.4110 ns\n  max:    68164.7303 ns\n\
         Calibrated clock: ~2.713 GHz\n"
    );
    let coloured = report_repeated(&opts, "", &log(), &summary(), &clock(), true);
    assert!(coloured.starts_with(
        "Counted to \x1b[1;36m1\x1b[0m across \x1b[1;36m3\x1b[0m trials using \
         \x1b[1;36m4\x1b[0m threads.\n  min:    \x1b[1;36m7268.1026\x1b[0m ns\n"
    ));
}

#[test]
fn log_keeps_the_trials_in_turn() {
    let l = TrialLog::new();
    assert_eq!((l.result, l.cycles.len(), l.values.len()), (0, 0, 0));
    let mut l = log();
    assert_eq!(l.cycles, [184890, 25438, 19714]);
    assert_eq!(l.values, ["68164.7303", "9378.4110", "7268.1026"]);
    l.record(&trial(9, 1, "0.37", "0.3687"));
    assert_eq!(l.result, 9);
    assert_eq!(l.cycles.len(), 4);
}

#[test]
fn lines_are_ended() {
    let mut buf = String::new();
    append_line(&mut buf, "a");
    append_line(&mut buf, "");
    assert_eq!(buf, "a\n\n");
}

#[test]
fn escaping_goes_piece_by_piece() {
    for (a, b) in [("a\\", "\"b"), ("", "\\\\"), ("\"", ""), ("n", "s")] {
        let whole = json_escape(&format!("{a}{b}"));
        assert_eq!(whole, format!("{}{}", json_escape(a), json_escape(b)));
    }
    assert_eq!(json_escape("a\\\"b"), "a\\\\\\\"b");
}
