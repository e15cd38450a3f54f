use fastcount::options::Options;
use fastcount::report::{append_line, Clock, Summary, Trial};
use fastcount::session::{Action, Session};

fn trial(cycles: u64, value: &str) -> Trial {
    Trial { result: 9000, cycles, ns: "1.00".to_string(), value: value.to_string() }
}

fn clock() -> Clock {
    Clock { ghz3: "2.713".to_string(), ghz4: "2.7124".to_string() }
}

fn summary() -> Summary {
    Summary {
        min: "1.0000".to_string(),
        mean: "2.0000".to_string(),
        median: "2.0000".to_string(),
        max: "3.0000".to_string(),
    }
}

fn options(repeat: u64) -> Options {
    Options { count_to: 9000, repeat, ..Options::with_threads(2) }
}

fn warmed_up(opts: Options) -> Session {
    let mut s = Session::new(opts);
    let mut rounds = 0;
    while let Action::WarmUp(target) = s.next() {
        assert_eq!(target, 4096);
        s.warmed_up();
        rounds += 1;
    }
    assert_eq!(rounds, 1000);
    s
}

#[test]
fn warm_up_counts_no_further_than_the_target() {
    let s = Session::new(Options::with_threads(1));
    assert_eq!(s.next(), Action::WarmUp(1));
}

#[test]
fn one_trial_then_the_report() {
    for repeat in [0, 1] {
        let mut s = warmed_up(options(repeat));
        assert_eq!(s.next(), Action::Measure(9000));
        assert_eq!(s.measured(trial(50, "18.4000")), None);
        assert_eq!(s.next(), Action::Report);
        assert_eq!(
            s.report("", &summary(), &clock(), false),
            "Counted to 9000 using 2 threads.\nTime elapsed: 50 cycles (~18.4000 ns)\n\
             Calibrated clock: ~2.713 GHz\n\
             Efficiency rating: 9000 integers / 18.4000 ns = blazingly fast\n"
        );
    }
}

#[test]
fn one_trial_streams_no_line() {
    let mut s = warmed_up(Options { json: true, ..options(1) });
    assert_eq!(s.measured(trial(50, "18.4000")), None);
    assert_eq!(
        s.report("", &summary(), &clock(), true),
        "{\"target\":9000,\"result\":9000,\"threads\":2,\"cycles\":50,\"ns\":1.00,\
         \"unit\":\"ns\",\"value\":18.4000,\"ghz\":2.7124}\n"
    );
}

#[test]
fn several_trials_stream_their_lines() {
    let mut s = warmed_up(Options { json: true, ..options(3) });
    let mut streamed = String::new();
    for (k, value) in ["1.0000", "3.0000", "2.0000"].iter().enumerate() {
        assert_eq!(s.next(), Action::Measure(9000));
        let line = s.measured(trial(k as u64, value)).unwrap();
        append_line(&mut streamed, &line);
    }
    assert_eq!(s.next(), Action::Report);
    assert_eq!(
        s.report(&streamed, &summary(), &clock(), true),
        "{\"trial\":0,\"result\":9000,\"cycles\":0,\"ns\":1.00,\"unit\":\"ns\",\"value\":1.0000}\n\
         {\"trial\":1,\"result\":9000,\"cycles\":1,\"ns\":1.00,\"unit\":\"ns\",\"value\":3.0000}\n\
         {\"trial\":2,\"result\":9000,\"cycles\":2,\"ns\":1.00,\"unit\":\"ns\",\"value\":2.0000}\n\
         {\"target\":9000,\"result\":9000,\"threads\":2,\"trials\":3,\"unit\":\"ns\",\
         \"ghz\":2.7124,\"min\":1.0000,\"mean\":2.0000,\"median\":2.0000,\"max\":3.0000,\
         \"samples\":[1.0000,3.0000,2.0000]}\n"
    );
}

#[test]
fn several_trials_without_json_stream_nothing() {
    let mut s = warmed_up(Options { quiet: true, ..options(2) });
    assert_eq!(s.measured(trial(1, "1.0000")), None);
    assert_eq!(s.measured(trial(2, "3.0000")), None);
    assert_eq!(s.next(), Action::Report);
    assert_eq!(s.report("", &summary(), &clock(), true), "1.0000 2.0000 2.0000 3.0000\n");
}

#[test]
fn only_several_trials_repeat() {
    assert!(!Session::new(options(0)).repeats());
    assert!(!Session::new(options(1)).repeats());
    assert!(Session::new(options(2)).repeats());
}
