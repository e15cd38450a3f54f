//! What is written of the trials.
//!
//! Times and clock rates come in as texts: how many decimals a number is
//! shown with is settled where it is measured.

use vstd::prelude::*;
use vstd::string::*;

use crate::options::{Options, Unit};
use crate::text::decimal_text;

verus! {

/// What `c` becomes inside a JSON string.
pub open spec fn escaped_char(c: char) -> Seq<char> {
    if c == '\\' || c == '"' {
        seq!['\\', c]
    } else {
        seq![c]
    }
}

/// `s` with a backslash put before every backslash and every quotation mark.
pub open spec fn escaped(s: Seq<char>) -> Seq<char>
    decreases s.len(),
{
    if s.len() == 0 {
        seq![]
    } else {
        escaped(s.drop_last()) + escaped_char(s.last())
    }
}

/// Puts a backslash before every backslash and every quotation mark.
pub fn json_escape(s: &str) -> (r: String)
    ensures
        r@ == escaped(s@),
{
    let mut r = String::new();
    for c in it: s.chars()
        invariant
            r@ == escaped(s@.take(it.index())),
            it.seq() == s@,
    {
        proof {
            assert(s@.take(it.index() + 1).drop_last() =~= s@.take(it.index()));
        }
        if c == '\\' || c == '"' {
            r.push('\\');
        }
        r.push(c);
        assert(r@ =~= escaped(s@.take(it.index() + 1)));
    }
    assert(s@.take(s@.len() as int) =~= s@);
    r
}

/// `s` in the colour `code` where colour is on.
pub open spec fn painted(code: Seq<char>, s: Seq<char>, on: bool) -> Seq<char> {
    if on {
        code + s + "\x1b[0m"@
    } else {
        s
    }
}

/// `clihelp::paint`: where colour is on, the text stands between the given
/// escape code and the code that ends it; where it is off, the text is left
/// as it is.
#[verifier::external_body]
fn paint(code: &str, s: &str, on: bool) -> (r: String)
    ensures
        r@ == painted(code@, s@, on),
{
    clihelp::paint(code, s, on)
}

/// `clihelp::Theme::default`: the default palette shows flags in bold cyan.
#[verifier::external_body]
fn flag_color() -> (r: &'static str)
    ensures
        r@ == "\x1b[1;36m"@,
{
    clihelp::Theme::default().flag
}

/// A number as it is shown: bold cyan where colour is on.
pub open spec fn number(s: Seq<char>, on: bool) -> Seq<char> {
    painted("\x1b[1;36m"@, s, on)
}

/// Shows a number.
fn paint_number(s: &str, on: bool) -> (r: String)
    ensures
        r@ == number(s@, on),
{
    paint(flag_color(), s, on)
}

/// The ending of a noun behind the number `n`.
pub open spec fn plural(n: nat) -> Seq<char> {
    if n == 1 {
        ""@
    } else {
        "s"@
    }
}

fn plural_text(n: u64) -> (r: &'static str)
    ensures
        r@ == plural(n as nat),
{
    if n == 1 {
        ""
    } else {
        "s"
    }
}

/// A trial: what was counted, in how many cycles, and the time as it is
/// shown, in nanoseconds and in the unit asked for.
pub struct Trial {
    pub result: u64,
    pub cycles: u64,
    pub ns: String,
    pub value: String,
}

/// The clock rate as it is shown, with three decimals and with four.
pub struct Clock {
    pub ghz3: String,
    pub ghz4: String,
}

/// The spread of repeated trials, as it is shown.
pub struct Summary {
    pub min: String,
    pub mean: String,
    pub median: String,
    pub max: String,
}

/// The report on a single trial as JSON.
pub open spec fn single_json(opts: Options, t: Trial, clock: Clock) -> Seq<char> {
    "{\"target\":"@ + crate::text::decimal(opts.count_to as nat) + ",\"result\":"@
        + crate::text::decimal(t.result as nat) + ",\"threads\":"@
        + crate::text::decimal(opts.threads as nat) + ",\"cycles\":"@
        + crate::text::decimal(t.cycles as nat) + ",\"ns\":"@ + t.ns@ + ",\"unit\":\""@
        + escaped(opts.unit.name()) + "\",\"value\":"@ + t.value@ + ",\"ghz\":"@ + clock.ghz4@
        + "}"@
}

/// The report on a single trial as bare numbers.
pub open spec fn single_quiet(opts: Options, t: Trial) -> Seq<char> {
    crate::text::decimal(t.result as nat) + " "@ + t.value@ + opts.unit.name()
}

/// The report on a single trial in words.
pub open spec fn single_prose(opts: Options, t: Trial, clock: Clock, on: bool) -> Seq<char> {
    "Counted to "@ + number(crate::text::decimal(t.result as nat), on) + " using "@
        + number(crate::text::decimal(opts.threads as nat), on) + " thread"@
        + plural(opts.threads as nat) + ".\nTime elapsed: "@
        + number(crate::text::decimal(t.cycles as nat), on) + " cycles (~"@
        + number(t.value@, on) + " "@ + opts.unit.name() + ")\nCalibrated clock: ~"@
        + clock.ghz3@ + " GHz\nEfficiency rating: "@ + crate::text::decimal(t.result as nat)
        + " integer"@ + plural(t.result as nat) + " / "@ + t.value@ + " "@ + opts.unit.name()
        + " = blazingly fast"@
}

/// The report on a single trial. JSON goes before bare numbers.
pub open spec fn single(opts: Options, t: Trial, clock: Clock, on: bool) -> Seq<char> {
    if opts.json {
        single_json(opts, t, clock)
    } else if opts.quiet {
        single_quiet(opts, t)
    } else {
        single_prose(opts, t, clock, on)
    }
}

/// Reports on a single trial, without the end of the last line.
pub fn report_single(opts: &Options, t: &Trial, clock: &Clock, on: bool) -> (r: String)
    ensures
        r@ == single(*opts, *t, *clock, on),
{
    let unit = opts.unit.label();
    let mut out = String::new();
    if opts.json {
        out.append("{\"target\":");
        out.append(decimal_text(opts.count_to).as_str());
        out.append(",\"result\":");
        out.append(decimal_text(t.result).as_str());
        out.append(",\"threads\":");
        out.append(decimal_text(opts.threads as u64).as_str());
        out.append(",\"cycles\":");
        out.append(decimal_text(t.cycles).as_str());
        out.append(",\"ns\":");
        out.append(t.ns.as_str());
        out.append(",\"unit\":\"");
        out.append(json_escape(unit).as_str());
        out.append("\",\"value\":");
        out.append(t.value.as_str());
        out.append(",\"ghz\":");
        out.append(clock.ghz4.as_str());
        out.append("}");
    } else if opts.quiet {
        out.append(decimal_text(t.result).as_str());
        out.append(" ");
        out.append(t.value.as_str());
        out.append(unit);
    } else {
        out.append("Counted to ");
        out.append(paint_number(decimal_text(t.result).as_str(), on).as_str());
        out.append(" using ");
        out.append(paint_number(decimal_text(opts.threads as u64).as_str(), on).as_str());
        out.append(" thread");
        out.append(plural_text(opts.threads as u64));
        out.append(".\nTime elapsed: ");
        out.append(paint_number(decimal_text(t.cycles).as_str(), on).as_str());
        out.append(" cycles (~");
        out.append(paint_number(t.value.as_str(), on).as_str());
        out.append(" ");
        out.append(unit);
        out.append(")\nCalibrated clock: ~");
        out.append(clock.ghz3.as_str());
        out.append(" GHz\nEfficiency rating: ");
        out.append(decimal_text(t.result).as_str());
        out.append(" integer");
        out.append(plural_text(t.result));
        out.append(" / ");
        out.append(t.value.as_str());
        out.append(" ");
        out.append(unit);
        out.append(" = blazingly fast");
    }
    out
}

/// The line on one of several trials as JSON.
pub open spec fn trial_json(unit: Unit, index: u64, t: Trial) -> Seq<char> {
    "{\"trial\":"@ + crate::text::decimal(index as nat) + ",\"result\":"@
        + crate::text::decimal(t.result as nat) + ",\"cycles\":"@
        + crate::text::decimal(t.cycles as nat) + ",\"ns\":"@ + t.ns@ + ",\"unit\":\""@
        + escaped(unit.name()) + "\",\"value\":"@ + t.value@ + "}"@
}

/// Reports on one of several trials as JSON.
pub fn trial_line(unit: Unit, index: u64, t: &Trial) -> (r: String)
    ensures
        r@ == trial_json(unit, index, *t),
{
    let mut out = String::new();
    out.append("{\"trial\":");
    out.append(decimal_text(index).as_str());
    out.append(",\"result\":");
    out.append(decimal_text(t.result).as_str());
    out.append(",\"cycles\":");
    out.append(decimal_text(t.cycles).as_str());
    out.append(",\"ns\":");
    out.append(t.ns.as_str());
    out.append(",\"unit\":\"");
    out.append(json_escape(unit.label()).as_str());
    out.append("\",\"value\":");
    out.append(t.value.as_str());
    out.append("}");
    out
}

/// The texts with commas between them.
pub open spec fn comma_joined(s: Seq<Seq<char>>) -> Seq<char>
    decreases s.len(),
{
    if s.len() == 0 {
        seq![]
    } else if s.len() == 1 {
        s[0]
    } else {
        comma_joined(s.drop_last()) + ","@ + s.last()
    }
}

/// Puts commas between the texts.
fn join_commas(s: &[String]) -> (r: String)
    ensures
        r@ == comma_joined(crate::text::texts(s@)),
{
    let ghost all = crate::text::texts(s@);
    let mut r = String::new();
    let mut k: usize = 0;
    while k < s.len()
        invariant
            k <= s.len(),
            all == crate::text::texts(s@),
            r@ == comma_joined(all.take(k as int)),
        decreases s.len() - k,
    {
        if k > 0 {
            r.append(",");
        }
        r.append(s[k].as_str());
        proof {
            assert(all.take(k + 1).drop_last() =~= all.take(k as int));
            assert(r@ =~= comma_joined(all.take(k + 1)));
        }
        k += 1;
    }
    assert(all.take(k as int) =~= all);
    r
}

/// The last line of the report on several trials as JSON.
pub open spec fn summary_json(
    opts: Options,
    result: u64,
    samples: Seq<Seq<char>>,
    sum: Summary,
    clock: Clock,
) -> Seq<char> {
    "{\"target\":"@ + crate::text::decimal(opts.count_to as nat) + ",\"result\":"@
        + crate::text::decimal(result as nat) + ",\"threads\":"@
        + crate::text::decimal(opts.threads as nat) + ",\"trials\":"@
        + crate::text::decimal(opts.repeat as nat) + ",\"unit\":\""@ + escaped(opts.unit.name())
        + "\",\"ghz\":"@ + clock.ghz4@ + ",\"min\":"@ + sum.min@ + ",\"mean\":"@ + sum.mean@
        + ",\"median\":"@ + sum.median@ + ",\"max\":"@ + sum.max@ + ",\"samples\":["@
        + comma_joined(samples) + "]}"@
}

/// The report on several trials as bare numbers.
pub open spec fn summary_quiet(sum: Summary) -> Seq<char> {
    sum.min@ + " "@ + sum.mean@ + " "@ + sum.median@ + " "@ + sum.max@
}

/// The report on several trials in words.
pub open spec fn summary_prose(
    opts: Options,
    result: u64,
    sum: Summary,
    clock: Clock,
    on: bool,
) -> Seq<char> {
    "Counted to "@ + number(crate::text::decimal(result as nat), on) + " across "@
        + number(crate::text::decimal(opts.repeat as nat), on) + " trials using "@
        + number(crate::text::decimal(opts.threads as nat), on) + " thread"@
        + plural(opts.threads as nat) + ".\n  min:    "@ + number(sum.min@, on) + " "@
        + opts.unit.name() + "\n  mean:   "@ + number(sum.mean@, on) + " "@ + opts.unit.name()
        + "\n  median: "@ + number(sum.median@, on) + " "@ + opts.unit.name() + "\n  max:    "@
        + number(sum.max@, on) + " "@ + opts.unit.name() + "\nCalibrated clock: ~"@
        + clock.ghz3@ + " GHz"@
}

/// The end of the report on several trials, without the end of its last line.
pub open spec fn summary(
    opts: Options,
    result: u64,
    samples: Seq<Seq<char>>,
    sum: Summary,
    clock: Clock,
    on: bool,
) -> Seq<char> {
    if opts.json {
        summary_json(opts, result, samples, sum, clock)
    } else if opts.quiet {
        summary_quiet(sum)
    } else {
        summary_prose(opts, result, sum, clock, on)
    }
}

/// The times of several trials.
pub open spec fn trial_values(trials: Seq<Trial>) -> Seq<Seq<char>> {
    Seq::new(trials.len(), |k: int| trials[k].value@)
}

/// What is kept of several trials: what the last one counted, and the cycles
/// and the times of all of them in turn.
pub struct TrialLog {
    pub result: u64,
    pub cycles: Vec<u64>,
    pub values: Vec<String>,
}

impl TrialLog {
    /// The log is that of the trials.
    pub open spec fn holds(self, trials: Seq<Trial>) -> bool {
        &&& self.result == if trials.len() == 0 {
            0
        } else {
            trials.last().result
        }
        &&& self.cycles@ == Seq::new(trials.len(), |k: int| trials[k].cycles)
        &&& crate::text::texts(self.values@) == trial_values(trials)
    }

    /// The log before the first trial.
    pub fn new() -> (r: TrialLog)
        ensures
            r.holds(seq![]),
    {
        let r = TrialLog { result: 0, cycles: Vec::new(), values: Vec::new() };
        assert(crate::text::texts(r.values@) =~= trial_values(seq![]));
        assert(r.cycles@ =~= Seq::new(0, |k: int| Seq::<Trial>::empty()[k].cycles));
        r
    }

    /// Adds a trial to the log.
    pub fn record(&mut self, t: &Trial)
        ensures
            final(self).result == t.result,
            final(self).cycles@ == old(self).cycles@.push(t.cycles),
            crate::text::texts(final(self).values@) == crate::text::texts(old(self).values@).push(
                t.value@,
            ),
            forall|trials: Seq<Trial>| #[trigger]
                old(self).holds(trials) ==> final(self).holds(trials.push(*t)),
    {
        self.result = t.result;
        self.cycles.push(t.cycles);
        self.values.push(t.value.clone());
        proof {
            assert(crate::text::texts(self.values@) =~= crate::text::texts(old(self).values@).push(
                t.value@,
            ));
            assert forall|trials: Seq<Trial>| #[trigger] old(self).holds(trials) implies self.holds(
                trials.push(*t),
            ) by {
                assert(trial_values(trials.push(*t)) =~= trial_values(trials).push(t.value@));
                assert(self.cycles@ =~= Seq::new(
                    trials.push(*t).len(),
                    |k: int| trials.push(*t)[k].cycles,
                ));
            }
        }
    }
}

/// Reports on several trials. `streamed` are the lines on the single ones.
pub fn report_repeated(
    opts: &Options,
    streamed: &str,
    log: &TrialLog,
    sum: &Summary,
    clock: &Clock,
    on: bool,
) -> (r: String)
    ensures
        r@ == streamed@ + summary(
            *opts,
            log.result,
            crate::text::texts(log.values@),
            *sum,
            *clock,
            on,
        ) + "\n"@,
{
    let unit = opts.unit.label();
    let mut out = String::new();
    if opts.json {
        out.append("{\"target\":");
        out.append(decimal_text(opts.count_to).as_str());
        out.append(",\"result\":");
        out.append(decimal_text(log.result).as_str());
        out.append(",\"threads\":");
        out.append(decimal_text(opts.threads as u64).as_str());
        out.append(",\"trials\":");
        out.append(decimal_text(opts.repeat).as_str());
        out.append(",\"unit\":\"");
        out.append(json_escape(unit).as_str());
        out.append("\",\"ghz\":");
        out.append(clock.ghz4.as_str());
        out.append(",\"min\":");
        out.append(sum.min.as_str());
        out.append(",\"mean\":");
        out.append(sum.mean.as_str());
        out.append(",\"median\":");
        out.append(sum.median.as_str());
        out.append(",\"max\":");
        out.append(sum.max.as_str());
        out.append(",\"samples\":[");
        out.append(join_commas(log.values.as_slice()).as_str());
        out.append("]}");
    } else if opts.quiet {
        out.append(sum.min.as_str());
        out.append(" ");
        out.append(sum.mean.as_str());
        out.append(" ");
        out.append(sum.median.as_str());
        out.append(" ");
        out.append(sum.max.as_str());
    } else {
        out.append("Counted to ");
        out.append(paint_number(decimal_text(log.result).as_str(), on).as_str());
        out.append(" across ");
        out.append(paint_number(decimal_text(opts.repeat).as_str(), on).as_str());
        out.append(" trials using ");
        out.append(paint_number(decimal_text(opts.threads as u64).as_str(), on).as_str());
        out.append(" thread");
        out.append(plural_text(opts.threads as u64));
        out.append(".\n  min:    ");
        out.append(paint_number(sum.min.as_str(), on).as_str());
        out.append(" ");
        out.append(unit);
        out.append("\n  mean:   ");
        out.append(paint_number(sum.mean.as_str(), on).as_str());
        out.append(" ");
        out.append(unit);
        out.append("\n  median: ");
        out.append(paint_number(sum.median.as_str(), on).as_str());
        out.append(" ");
        out.append(unit);
        out.append("\n  max:    ");
        out.append(paint_number(sum.max.as_str(), on).as_str());
        out.append(" ");
        out.append(unit);
        out.append("\nCalibrated clock: ~");
        out.append(clock.ghz3.as_str());
        out.append(" GHz");
    }
    let mut r = streamed.to_owned();
    append_line(&mut r, out.as_str());
    r
}

/// The lines, each of them ended.
pub open spec fn lines_text(lines: Seq<Seq<char>>) -> Seq<char>
    decreases lines.len(),
{
    if lines.len() == 0 {
        seq![]
    } else {
        lines_text(lines.drop_last()) + lines.last() + "\n"@
    }
}

/// Adds a line to a text and ends it.
pub fn append_line(buf: &mut String, line: &str)
    ensures
        final(buf)@ == old(buf)@ + line@ + "\n"@,
        forall|lines: Seq<Seq<char>>|
            old(buf)@ == #[trigger] lines_text(lines) ==> final(buf)@ == lines_text(
                lines.push(line@),
            ),
{
    buf.append(line);
    buf.append("\n");
    assert forall|lines: Seq<Seq<char>>| old(buf)@ == #[trigger] lines_text(lines) implies buf@
        == lines_text(lines.push(line@)) by {
        assert(lines.push(line@).drop_last() =~= lines);
    }
}

/// What `s` stands for inside a JSON string: a backslash is left out, and the
/// character behind it is taken as it is.
pub open spec fn unescaped(s: Seq<char>) -> Seq<char>
    decreases s.len(),
{
    if s.len() == 0 {
        seq![]
    } else if s[0] == '\\' && s.len() > 1 {
        seq![s[1]] + unescaped(s.skip(2))
    } else {
        seq![s[0]] + unescaped(s.skip(1))
    }
}

/// Where the JSON string ends whose inside `s` begins with: at the first
/// quotation mark that is not behind a backslash.
pub open spec fn string_end(s: Seq<char>) -> int
    decreases s.len(),
{
    if s.len() == 0 || s[0] == '"' {
        0
    } else if s[0] == '\\' && s.len() > 1 {
        2 + string_end(s.skip(2))
    } else {
        1 + string_end(s.skip(1))
    }
}

proof fn lemma_escaped_first(s: Seq<char>)
    requires
        s.len() > 0,
    ensures
        escaped(s) == escaped_char(s[0]) + escaped(s.drop_first()),
    decreases s.len(),
{
    if s.len() == 1 {
        assert(s.drop_last() =~= seq![]);
        assert(s.drop_first() =~= seq![]);
        assert(escaped(s) =~= escaped_char(s[0]) + escaped(s.drop_first()));
    } else {
        lemma_escaped_first(s.drop_last());
        assert(s.drop_last().drop_first() =~= s.drop_first().drop_last());
        assert(escaped(s) =~= escaped_char(s[0]) + escaped(s.drop_first()));
    }
}

/// Escaping goes piece by piece: a text in two pieces is escaped by escaping
/// each of them.
pub proof fn law_escape_goes_piece_by_piece(a: Seq<char>, b: Seq<char>)
    ensures
        escaped(a + b) == escaped(a) + escaped(b),
    decreases b.len(),
{
    if b.len() == 0 {
        assert(a + b =~= a);
        assert(escaped(a) + escaped(b) =~= escaped(a));
    } else {
        law_escape_goes_piece_by_piece(a, b.drop_last());
        assert((a + b).drop_last() =~= a + b.drop_last());
        assert(escaped(a + b) =~= escaped(a) + escaped(b));
    }
}

/// Escaping loses nothing: what the escaped text stands for inside a JSON
/// string is the text.
pub proof fn law_escape_round_trip(s: Seq<char>)
    ensures
        unescaped(escaped(s)) == s,
    decreases s.len(),
{
    if s.len() > 0 {
        lemma_escaped_first(s);
        law_escape_round_trip(s.drop_first());
        let rest = escaped(s.drop_first());
        let first = escaped_char(s[0]);
        if first.len() == 2 {
            assert((first + rest).skip(2) =~= rest);
        } else {
            assert((first + rest).skip(1) =~= rest);
        }
        assert(seq![s[0]] + s.drop_first() =~= s);
    }
}

/// An escaped text does not end the JSON string that it stands in: the string
/// ends with the quotation mark behind it.
pub proof fn law_escaped_text_stays_inside(s: Seq<char>, rest: Seq<char>)
    ensures
        string_end(escaped(s) + seq!['"'] + rest) == escaped(s).len(),
    decreases s.len(),
{
    let tail = seq!['"'] + rest;
    assert(escaped(s) + seq!['"'] + rest =~= escaped(s) + tail);
    if s.len() == 0 {
        assert(escaped(s) + tail =~= tail);
    } else {
        lemma_escaped_first(s);
        law_escaped_text_stays_inside(s.drop_first(), rest);
        let inner = escaped(s.drop_first());
        assert(inner + seq!['"'] + rest =~= inner + tail);
        let first = escaped_char(s[0]);
        let all = escaped(s) + tail;
        if first.len() == 2 {
            assert(all.skip(2) =~= inner + tail);
        } else {
            assert(all.skip(1) =~= inner + tail);
        }
    }
}

/// A text without backslashes and quotation marks is left as it is.
pub proof fn lemma_escaped_plain(s: Seq<char>)
    requires
        crate::text::free_of(s, '\\'),
        crate::text::free_of(s, '"'),
    ensures
        escaped(s) == s,
    decreases s.len(),
{
    reveal(crate::text::free_of);
    if s.len() > 0 {
        lemma_escaped_plain(s.drop_last());
        assert(escaped(s) =~= s);
    }
}

/// The names of the units stand in JSON as they are.
pub proof fn law_unit_names_need_no_escape(unit: Unit)
    ensures
        escaped(unit.name()) == unit.name(),
{
    reveal(crate::text::free_of);
    reveal_strlit("ns");
    reveal_strlit("us");
    reveal_strlit("ms");
    reveal_strlit("cycles");
    lemma_escaped_plain(unit.name());
}

/// The names of the units hold letters alone.
proof fn lemma_unit_name_free_of(unit: Unit, c: char)
    requires
        c == '\n' || c == '\x1b',
    ensures
        crate::text::free_of(unit.name(), c),
        crate::text::free_of(escaped(unit.name()), c),
{
    reveal(crate::text::free_of);
    law_unit_names_need_no_escape(unit);
    reveal_strlit("ns");
    reveal_strlit("us");
    reveal_strlit("ms");
    reveal_strlit("cycles");
}

/// What stands between the values of a JSON report fits on one line and holds
/// no escape code.
proof fn lemma_json_labels_free_of(c: char)
    requires
        c == '\n' || c == '\x1b',
    ensures
        crate::text::free_of("{\"trial\":"@, c),
        crate::text::free_of(",\"result\":"@, c),
        crate::text::free_of(",\"cycles\":"@, c),
        crate::text::free_of(",\"ns\":"@, c),
        crate::text::free_of(",\"unit\":\""@, c),
        crate::text::free_of("\",\"value\":"@, c),
        crate::text::free_of("}"@, c),
        crate::text::free_of("{\"target\":"@, c),
        crate::text::free_of(",\"threads\":"@, c),
        crate::text::free_of(",\"ghz\":"@, c),
        crate::text::free_of(",\"trials\":"@, c),
        crate::text::free_of("\",\"ghz\":"@, c),
        crate::text::free_of(",\"min\":"@, c),
        crate::text::free_of(",\"mean\":"@, c),
        crate::text::free_of(",\"median\":"@, c),
        crate::text::free_of(",\"max\":"@, c),
        crate::text::free_of(",\"samples\":["@, c),
        crate::text::free_of("]}"@, c),
{
    reveal(crate::text::free_of);
    reveal_strlit("{\"trial\":");
    reveal_strlit(",\"result\":");
    reveal_strlit(",\"cycles\":");
    reveal_strlit(",\"ns\":");
    reveal_strlit(",\"unit\":\"");
    reveal_strlit("\",\"value\":");
    reveal_strlit("}");
    reveal_strlit("{\"target\":");
    reveal_strlit(",\"threads\":");
    reveal_strlit(",\"ghz\":");
    reveal_strlit(",\"trials\":");
    reveal_strlit("\",\"ghz\":");
    reveal_strlit(",\"min\":");
    reveal_strlit(",\"mean\":");
    reveal_strlit(",\"median\":");
    reveal_strlit(",\"max\":");
    reveal_strlit(",\"samples\":[");
    reveal_strlit("]}");
}

/// What stands between the values of a report in words or in bare numbers
/// holds no escape code.
proof fn lemma_prose_labels_plain()
    ensures
        crate::text::free_of(" "@, '\x1b'),
        crate::text::free_of("Counted to "@, '\x1b'),
        crate::text::free_of(" using "@, '\x1b'),
        crate::text::free_of(" thread"@, '\x1b'),
        crate::text::free_of(".\nTime elapsed: "@, '\x1b'),
        crate::text::free_of(" cycles (~"@, '\x1b'),
        crate::text::free_of(")\nCalibrated clock: ~"@, '\x1b'),
        crate::text::free_of(" GHz\nEfficiency rating: "@, '\x1b'),
        crate::text::free_of(" integer"@, '\x1b'),
        crate::text::free_of(" / "@, '\x1b'),
        crate::text::free_of(" = blazingly fast"@, '\x1b'),
        crate::text::free_of(""@, '\x1b'),
        crate::text::free_of("s"@, '\x1b'),
        crate::text::free_of(" across "@, '\x1b'),
        crate::text::free_of(" trials using "@, '\x1b'),
        crate::text::free_of(".\n  min:    "@, '\x1b'),
        crate::text::free_of("\n  mean:   "@, '\x1b'),
        crate::text::free_of("\n  median: "@, '\x1b'),
        crate::text::free_of("\n  max:    "@, '\x1b'),
        crate::text::free_of("\nCalibrated clock: ~"@, '\x1b'),
        crate::text::free_of(" GHz"@, '\x1b'),
{
    reveal(crate::text::free_of);
    reveal_strlit(" ");
    reveal_strlit("Counted to ");
    reveal_strlit(" using ");
    reveal_strlit(" thread");
    reveal_strlit(".\nTime elapsed: ");
    reveal_strlit(" cycles (~");
    reveal_strlit(")\nCalibrated clock: ~");
    reveal_strlit(" GHz\nEfficiency rating: ");
    reveal_strlit(" integer");
    reveal_strlit(" / ");
    reveal_strlit(" = blazingly fast");
    reveal_strlit("");
    reveal_strlit("s");
    reveal_strlit(" across ");
    reveal_strlit(" trials using ");
    reveal_strlit(".\n  min:    ");
    reveal_strlit("\n  mean:   ");
    reveal_strlit("\n  median: ");
    reveal_strlit("\n  max:    ");
    reveal_strlit("\nCalibrated clock: ~");
    reveal_strlit(" GHz");
}

proof fn lemma_trial_json_free_of(unit: Unit, index: u64, t: Trial, c: char)
    requires
        c == '\n' || c == '\x1b',
        crate::text::free_of(t.ns@, c),
        crate::text::free_of(t.value@, c),
    ensures
        crate::text::free_of(trial_json(unit, index, t), c),
{
    broadcast use {crate::text::lemma_free_of_concat, crate::text::lemma_free_of_decimal};

    lemma_unit_name_free_of(unit, c);
    lemma_json_labels_free_of(c);
}

proof fn lemma_single_json_free_of(opts: Options, t: Trial, clock: Clock, c: char)
    requires
        c == '\n' || c == '\x1b',
        crate::text::free_of(t.ns@, c),
        crate::text::free_of(t.value@, c),
        crate::text::free_of(clock.ghz4@, c),
    ensures
        crate::text::free_of(single_json(opts, t, clock), c),
{
    broadcast use {crate::text::lemma_free_of_concat, crate::text::lemma_free_of_decimal};

    lemma_unit_name_free_of(opts.unit, c);
    lemma_json_labels_free_of(c);
}

proof fn lemma_summary_json_free_of(
    opts: Options,
    result: u64,
    samples: Seq<Seq<char>>,
    sum: Summary,
    clock: Clock,
    c: char,
)
    requires
        c == '\n' || c == '\x1b',
        crate::text::free_of(clock.ghz4@, c),
        crate::text::free_of(sum.min@, c),
        crate::text::free_of(sum.mean@, c),
        crate::text::free_of(sum.median@, c),
        crate::text::free_of(sum.max@, c),
        crate::text::free_of(comma_joined(samples), c),
    ensures
        crate::text::free_of(summary_json(opts, result, samples, sum, clock), c),
{
    broadcast use {crate::text::lemma_free_of_concat, crate::text::lemma_free_of_decimal};

    lemma_unit_name_free_of(opts.unit, c);
    lemma_json_labels_free_of(c);
}

proof fn lemma_single_quiet_plain(opts: Options, t: Trial)
    requires
        crate::text::free_of(t.value@, '\x1b'),
    ensures
        crate::text::free_of(single_quiet(opts, t), '\x1b'),
{
    broadcast use {crate::text::lemma_free_of_concat, crate::text::lemma_free_of_decimal};

    lemma_unit_name_free_of(opts.unit, '\x1b');
    lemma_prose_labels_plain();
}

proof fn lemma_single_prose_plain(opts: Options, t: Trial, clock: Clock)
    requires
        crate::text::free_of(t.value@, '\x1b'),
        crate::text::free_of(clock.ghz3@, '\x1b'),
    ensures
        crate::text::free_of(single_prose(opts, t, clock, false), '\x1b'),
{
    broadcast use {crate::text::lemma_free_of_concat, crate::text::lemma_free_of_decimal};

    lemma_unit_name_free_of(opts.unit, '\x1b');
    lemma_prose_labels_plain();
}

proof fn lemma_summary_quiet_plain(sum: Summary)
    requires
        crate::text::free_of(sum.min@, '\x1b'),
        crate::text::free_of(sum.mean@, '\x1b'),
        crate::text::free_of(sum.median@, '\x1b'),
        crate::text::free_of(sum.max@, '\x1b'),
    ensures
        crate::text::free_of(summary_quiet(sum), '\x1b'),
{
    broadcast use {crate::text::lemma_free_of_concat, crate::text::lemma_free_of_decimal};

    lemma_prose_labels_plain();
}

proof fn lemma_summary_prose_plain(opts: Options, result: u64, sum: Summary, clock: Clock)
    requires
        crate::text::free_of(clock.ghz3@, '\x1b'),
        crate::text::free_of(sum.min@, '\x1b'),
        crate::text::free_of(sum.mean@, '\x1b'),
        crate::text::free_of(sum.median@, '\x1b'),
        crate::text::free_of(sum.max@, '\x1b'),
    ensures
        crate::text::free_of(summary_prose(opts, result, sum, clock, false), '\x1b'),
{
    broadcast use {crate::text::lemma_free_of_concat, crate::text::lemma_free_of_decimal};

    lemma_unit_name_free_of(opts.unit, '\x1b');
    lemma_prose_labels_plain();
}

proof fn lemma_comma_joined_free_of(samples: Seq<Seq<char>>, c: char)
    requires
        c == '\n' || c == '\x1b',
        forall|k: int| 0 <= k < samples.len() ==> crate::text::free_of(#[trigger] samples[k], c),
    ensures
        crate::text::free_of(comma_joined(samples), c),
    decreases samples.len(),
{
    broadcast use crate::text::lemma_free_of_concat;

    assert(crate::text::free_of(","@, c) && crate::text::free_of(seq![], c)) by {
        reveal(crate::text::free_of);
        reveal_strlit(",");
    }
    if samples.len() > 1 {
        lemma_comma_joined_free_of(samples.drop_last(), c);
    }
}

/// The texts of the trial do not hold `c`.
pub open spec fn trial_free_of(t: Trial, c: char) -> bool {
    crate::text::free_of(t.ns@, c) && crate::text::free_of(t.value@, c)
}

/// The texts of the clock rate do not hold `c`.
pub open spec fn clock_free_of(clock: Clock, c: char) -> bool {
    crate::text::free_of(clock.ghz3@, c) && crate::text::free_of(clock.ghz4@, c)
}

/// The texts of the spread do not hold `c`.
pub open spec fn summary_free_of(sum: Summary, c: char) -> bool {
    &&& crate::text::free_of(sum.min@, c)
    &&& crate::text::free_of(sum.mean@, c)
    &&& crate::text::free_of(sum.median@, c)
    &&& crate::text::free_of(sum.max@, c)
}

/// Where colour is off, and in JSON and bare numbers in any case, the report
/// on a single trial holds no escape code.
pub proof fn law_single_report_is_plain(opts: Options, t: Trial, clock: Clock, on: bool)
    requires
        !on || opts.json || opts.quiet,
        trial_free_of(t, '\x1b'),
        clock_free_of(clock, '\x1b'),
    ensures
        crate::text::free_of(single(opts, t, clock, on), '\x1b'),
{
    lemma_single_json_free_of(opts, t, clock, '\x1b');
    lemma_single_quiet_plain(opts, t);
    lemma_single_prose_plain(opts, t, clock);
}

/// Where colour is off, and in JSON and bare numbers in any case, the end of
/// the report on several trials holds no escape code.
pub proof fn law_summary_is_plain(
    opts: Options,
    result: u64,
    samples: Seq<Seq<char>>,
    sum: Summary,
    clock: Clock,
    on: bool,
)
    requires
        !on || opts.json || opts.quiet,
        forall|k: int|
            0 <= k < samples.len() ==> crate::text::free_of(#[trigger] samples[k], '\x1b'),
        summary_free_of(sum, '\x1b'),
        clock_free_of(clock, '\x1b'),
    ensures
        crate::text::free_of(summary(opts, result, samples, sum, clock, on), '\x1b'),
{
    lemma_comma_joined_free_of(samples, '\x1b');
    lemma_summary_json_free_of(opts, result, samples, sum, clock, '\x1b');
    lemma_summary_quiet_plain(sum);
    lemma_summary_prose_plain(opts, result, sum, clock);
}

/// The lines on several trials as JSON.
pub open spec fn trial_lines(unit: Unit, trials: Seq<Trial>) -> Seq<Seq<char>> {
    Seq::new(trials.len(), |k: int| trial_json(unit, k as u64, trials[k]))
}

/// The JSON report on several trials is one line for each trial and one line
/// at the end: no line end stands inside a line.
pub proof fn law_json_report_is_a_line_per_trial(
    opts: Options,
    trials: Seq<Trial>,
    result: u64,
    sum: Summary,
    clock: Clock,
    on: bool,
) -> (lines: Seq<Seq<char>>)
    requires
        opts.json,
        forall|k: int| 0 <= k < trials.len() ==> trial_free_of(#[trigger] trials[k], '\n'),
        summary_free_of(sum, '\n'),
        clock_free_of(clock, '\n'),
    ensures
        lines == trial_lines(opts.unit, trials).push(
            summary_json(opts, result, trial_values(trials), sum, clock),
        ),
        lines_text(trial_lines(opts.unit, trials)) + summary(
            opts,
            result,
            trial_values(trials),
            sum,
            clock,
            on,
        ) + "\n"@ == lines_text(lines),
        forall|k: int| 0 <= k < lines.len() ==> crate::text::free_of(#[trigger] lines[k], '\n'),
{
    let samples = trial_values(trials);
    let last = summary_json(opts, result, samples, sum, clock);
    let lines = trial_lines(opts.unit, trials).push(last);
    assert(lines.drop_last() =~= trial_lines(opts.unit, trials));
    assert forall|k: int| 0 <= k < samples.len() implies crate::text::free_of(
        #[trigger] samples[k],
        '\n',
    ) by {
        assert(trial_free_of(trials[k], '\n'));
    }
    lemma_comma_joined_free_of(samples, '\n');
    lemma_summary_json_free_of(opts, result, samples, sum, clock, '\n');
    assert forall|k: int| 0 <= k < lines.len() implies crate::text::free_of(
        #[trigger] lines[k],
        '\n',
    ) by {
        if k < trials.len() {
            assert(trial_free_of(trials[k], '\n'));
            lemma_trial_json_free_of(opts.unit, k as u64, trials[k], '\n');
        }
    }
    lines
}

/// A member of a JSON object that is a number.
pub open spec fn number_member(name: Seq<char>, n: Seq<char>) -> crate::reading::Member {
    crate::reading::Member { name, value: crate::reading::Value::Number(n) }
}

/// A member of a JSON object that is a string.
pub open spec fn text_member(name: Seq<char>, s: Seq<char>) -> crate::reading::Member {
    crate::reading::Member { name, value: crate::reading::Value::Text(s) }
}

/// A member of a JSON object that is a list of numbers.
pub open spec fn list_member(name: Seq<char>, items: Seq<Seq<char>>) -> crate::reading::Member {
    crate::reading::Member { name, value: crate::reading::Value::List(items) }
}

/// The decimal text of a number can stand in JSON.
proof fn lemma_decimal_is_bare(n: nat)
    ensures
        crate::reading::is_bare(crate::text::decimal(n)),
{
    crate::text::law_decimal_writes_its_number(n);
}

/// The label names the member `name`, behind a comma.
spec fn is_label(label: Seq<char>, name: Seq<char>) -> bool {
    &&& label == seq![',', '"'] + name + seq!['"', ':']
    &&& crate::text::free_of(name, '\\')
    &&& crate::text::free_of(name, '"')
}

/// The labels of the numbers in a JSON report.
proof fn lemma_number_labels()
    ensures
        is_label(",\"result\":"@, "result"@),
        is_label(",\"cycles\":"@, "cycles"@),
        is_label(",\"ns\":"@, "ns"@),
        is_label(",\"value\":"@, "value"@),
        is_label(",\"threads\":"@, "threads"@),
        is_label(",\"ghz\":"@, "ghz"@),
        is_label(",\"trials\":"@, "trials"@),
        is_label(",\"min\":"@, "min"@),
        is_label(",\"mean\":"@, "mean"@),
        is_label(",\"median\":"@, "median"@),
        is_label(",\"max\":"@, "max"@),
{
    reveal(crate::text::free_of);
    assert(is_label(",\"result\":"@, "result"@)) by {
        reveal_strlit(",\"result\":");
        reveal_strlit("result");
        assert(",\"result\":"@ =~= seq![',', '"'] + "result"@ + seq!['"', ':']);
    }
    assert(is_label(",\"cycles\":"@, "cycles"@)) by {
        reveal_strlit(",\"cycles\":");
        reveal_strlit("cycles");
        assert(",\"cycles\":"@ =~= seq![',', '"'] + "cycles"@ + seq!['"', ':']);
    }
    assert(is_label(",\"ns\":"@, "ns"@)) by {
        reveal_strlit(",\"ns\":");
        reveal_strlit("ns");
        assert(",\"ns\":"@ =~= seq![',', '"'] + "ns"@ + seq!['"', ':']);
    }
    assert(is_label(",\"value\":"@, "value"@)) by {
        reveal_strlit(",\"value\":");
        reveal_strlit("value");
        assert(",\"value\":"@ =~= seq![',', '"'] + "value"@ + seq!['"', ':']);
    }
    assert(is_label(",\"threads\":"@, "threads"@)) by {
        reveal_strlit(",\"threads\":");
        reveal_strlit("threads");
        assert(",\"threads\":"@ =~= seq![',', '"'] + "threads"@ + seq!['"', ':']);
    }
    assert(is_label(",\"ghz\":"@, "ghz"@)) by {
        reveal_strlit(",\"ghz\":");
        reveal_strlit("ghz");
        assert(",\"ghz\":"@ =~= seq![',', '"'] + "ghz"@ + seq!['"', ':']);
    }
    assert(is_label(",\"trials\":"@, "trials"@)) by {
        reveal_strlit(",\"trials\":");
        reveal_strlit("trials");
        assert(",\"trials\":"@ =~= seq![',', '"'] + "trials"@ + seq!['"', ':']);
    }
    assert(is_label(",\"min\":"@, "min"@)) by {
        reveal_strlit(",\"min\":");
        reveal_strlit("min");
        assert(",\"min\":"@ =~= seq![',', '"'] + "min"@ + seq!['"', ':']);
    }
    assert(is_label(",\"mean\":"@, "mean"@)) by {
        reveal_strlit(",\"mean\":");
        reveal_strlit("mean");
        assert(",\"mean\":"@ =~= seq![',', '"'] + "mean"@ + seq!['"', ':']);
    }
    assert(is_label(",\"median\":"@, "median"@)) by {
        reveal_strlit(",\"median\":");
        reveal_strlit("median");
        assert(",\"median\":"@ =~= seq![',', '"'] + "median"@ + seq!['"', ':']);
    }
    assert(is_label(",\"max\":"@, "max"@)) by {
        reveal_strlit(",\"max\":");
        reveal_strlit("max");
        assert(",\"max\":"@ =~= seq![',', '"'] + "max"@ + seq!['"', ':']);
    }
}

/// The labels at the begin of a JSON report, and of the strings and lists in
/// it.
proof fn lemma_other_labels()
    ensures
        "{\"target\":"@ == seq!['{', '"'] + "target"@ + seq!['"', ':'],
        crate::text::free_of("target"@, '\\') && crate::text::free_of("target"@, '"'),
        "{\"trial\":"@ == seq!['{', '"'] + "trial"@ + seq!['"', ':'],
        crate::text::free_of("trial"@, '\\') && crate::text::free_of("trial"@, '"'),
        ",\"unit\":\""@ == seq![',', '"'] + "unit"@ + seq!['"', ':', '"'],
        crate::text::free_of("unit"@, '\\') && crate::text::free_of("unit"@, '"'),
        ",\"samples\":["@ == seq![',', '"'] + "samples"@ + seq!['"', ':', '['],
        crate::text::free_of("samples"@, '\\') && crate::text::free_of("samples"@, '"'),
        "\",\"value\":"@ == seq!['"'] + ",\"value\":"@,
        "\",\"ghz\":"@ == seq!['"'] + ",\"ghz\":"@,
        "}"@ == seq!['}'],
        "]}"@ == seq![']'] + seq!['}'],
{
    reveal(crate::text::free_of);
    assert("{\"target\":"@ =~= seq!['{', '"'] + "target"@ + seq!['"', ':']) by {
        reveal_strlit("{\"target\":");
        reveal_strlit("target");
    }
    assert(crate::text::free_of("target"@, '\\') && crate::text::free_of("target"@, '"')) by {
        reveal_strlit("target");
    }
    assert("{\"trial\":"@ =~= seq!['{', '"'] + "trial"@ + seq!['"', ':']) by {
        reveal_strlit("{\"trial\":");
        reveal_strlit("trial");
    }
    assert(crate::text::free_of("trial"@, '\\') && crate::text::free_of("trial"@, '"')) by {
        reveal_strlit("trial");
    }
    assert(",\"unit\":\""@ =~= seq![',', '"'] + "unit"@ + seq!['"', ':', '"']) by {
        reveal_strlit(",\"unit\":\"");
        reveal_strlit("unit");
    }
    assert(crate::text::free_of("unit"@, '\\') && crate::text::free_of("unit"@, '"')) by {
        reveal_strlit("unit");
    }
    assert(",\"samples\":["@ =~= seq![',', '"'] + "samples"@ + seq!['"', ':', '[']) by {
        reveal_strlit(",\"samples\":[");
        reveal_strlit("samples");
    }
    assert(crate::text::free_of("samples"@, '\\') && crate::text::free_of("samples"@, '"')) by {
        reveal_strlit("samples");
    }
    assert("\",\"value\":"@ =~= seq!['"'] + ",\"value\":"@) by {
        reveal_strlit("\",\"value\":");
        reveal_strlit(",\"value\":");
    }
    assert("\",\"ghz\":"@ =~= seq!['"'] + ",\"ghz\":"@) by {
        reveal_strlit("\",\"ghz\":");
        reveal_strlit(",\"ghz\":");
    }
    assert("}"@ =~= seq!['}']) by {
        reveal_strlit("}");
    }
    assert("]}"@ =~= seq![']'] + seq!['}']) by {
        reveal_strlit("]}");
    }
}

/// Reading the JSON report on a single trial back gives what went in: the
/// target, the threads and the unit of the options, what was counted and in
/// how many cycles, the times and the clock rate as they are shown, each under
/// its name and nothing else.
pub proof fn law_single_json_reads_back(opts: Options, t: Trial, clock: Clock, on: bool)
    requires
        opts.json,
        crate::reading::is_bare(t.ns@),
        crate::reading::is_bare(t.value@),
        crate::reading::is_bare(clock.ghz4@),
    ensures
        crate::reading::object_members(single(opts, t, clock, on)) == Some(
            seq![
                number_member("target"@, crate::text::decimal(opts.count_to as nat)),
                number_member("result"@, crate::text::decimal(t.result as nat)),
                number_member("threads"@, crate::text::decimal(opts.threads as nat)),
                number_member("cycles"@, crate::text::decimal(t.cycles as nat)),
                number_member("ns"@, t.ns@),
                text_member("unit"@, opts.unit.name()),
                number_member("value"@, t.value@),
                number_member("ghz"@, clock.ghz4@),
            ],
        ),
{
    lemma_number_labels();
    lemma_other_labels();
    let m1 = seq![number_member("target"@, crate::text::decimal(opts.count_to as nat))];
    crate::reading::lemma_first_member("target"@, crate::text::decimal(opts.count_to as nat));
    let m2 = m1.push(number_member("result"@, crate::text::decimal(t.result as nat)));
    crate::reading::lemma_next_number(m1, "result"@, crate::text::decimal(t.result as nat));
    let m3 = m2.push(number_member("threads"@, crate::text::decimal(opts.threads as nat)));
    crate::reading::lemma_next_number(m2, "threads"@, crate::text::decimal(opts.threads as nat));
    let m4 = m3.push(number_member("cycles"@, crate::text::decimal(t.cycles as nat)));
    crate::reading::lemma_next_number(m3, "cycles"@, crate::text::decimal(t.cycles as nat));
    let m5 = m4.push(number_member("ns"@, t.ns@));
    crate::reading::lemma_next_number(m4, "ns"@, t.ns@);
    let m6 = m5.push(text_member("unit"@, opts.unit.name()));
    crate::reading::lemma_next_text(m5, "unit"@, opts.unit.name(), ",\"value\":"@);
    let m7 = m6.push(number_member("value"@, t.value@));
    crate::reading::lemma_next_number(m6, "value"@, t.value@);
    let m8 = m7.push(number_member("ghz"@, clock.ghz4@));
    crate::reading::lemma_next_number(m7, "ghz"@, clock.ghz4@);
    lemma_decimal_is_bare(opts.count_to as nat);
    lemma_decimal_is_bare(t.result as nat);
    lemma_decimal_is_bare(opts.threads as nat);
    lemma_decimal_is_bare(t.cycles as nat);
    crate::reading::lemma_object(m8);
    assert(m8 =~= seq![
        number_member("target"@, crate::text::decimal(opts.count_to as nat)),
        number_member("result"@, crate::text::decimal(t.result as nat)),
        number_member("threads"@, crate::text::decimal(opts.threads as nat)),
        number_member("cycles"@, crate::text::decimal(t.cycles as nat)),
        number_member("ns"@, t.ns@),
        text_member("unit"@, opts.unit.name()),
        number_member("value"@, t.value@),
        number_member("ghz"@, clock.ghz4@),
    ]);
}

/// Reading the JSON line on one of several trials back gives what went in: the
/// number of the trial, what was counted and in how many cycles, the times as
/// they are shown and the unit, each under its name and nothing else.
pub proof fn law_trial_json_reads_back(unit: Unit, index: u64, t: Trial)
    requires
        crate::reading::is_bare(t.ns@),
        crate::reading::is_bare(t.value@),
    ensures
        crate::reading::object_members(trial_json(unit, index, t)) == Some(
            seq![
                number_member("trial"@, crate::text::decimal(index as nat)),
                number_member("result"@, crate::text::decimal(t.result as nat)),
                number_member("cycles"@, crate::text::decimal(t.cycles as nat)),
                number_member("ns"@, t.ns@),
                text_member("unit"@, unit.name()),
                number_member("value"@, t.value@),
            ],
        ),
{
    lemma_number_labels();
    lemma_other_labels();
    let m1 = seq![number_member("trial"@, crate::text::decimal(index as nat))];
    crate::reading::lemma_first_member("trial"@, crate::text::decimal(index as nat));
    let m2 = m1.push(number_member("result"@, crate::text::decimal(t.result as nat)));
    crate::reading::lemma_next_number(m1, "result"@, crate::text::decimal(t.result as nat));
    let m3 = m2.push(number_member("cycles"@, crate::text::decimal(t.cycles as nat)));
    crate::reading::lemma_next_number(m2, "cycles"@, crate::text::decimal(t.cycles as nat));
    let m4 = m3.push(number_member("ns"@, t.ns@));
    crate::reading::lemma_next_number(m3, "ns"@, t.ns@);
    let m5 = m4.push(text_member("unit"@, unit.name()));
    crate::reading::lemma_next_text(m4, "unit"@, unit.name(), ",\"value\":"@);
    let m6 = m5.push(number_member("value"@, t.value@));
    crate::reading::lemma_next_number(m5, "value"@, t.value@);
    lemma_decimal_is_bare(index as nat);
    lemma_decimal_is_bare(t.result as nat);
    lemma_decimal_is_bare(t.cycles as nat);
    crate::reading::lemma_object(m6);
    assert(m6 =~= seq![
        number_member("trial"@, crate::text::decimal(index as nat)),
        number_member("result"@, crate::text::decimal(t.result as nat)),
        number_member("cycles"@, crate::text::decimal(t.cycles as nat)),
        number_member("ns"@, t.ns@),
        text_member("unit"@, unit.name()),
        number_member("value"@, t.value@),
    ]);
}

/// Reading the last JSON line on several trials back gives what went in: the
/// target, the threads, the number of trials and the unit of the options, what
/// was counted, the clock rate, the spread and all the samples in turn, each
/// under its name and nothing else.
pub proof fn law_summary_json_reads_back(
    opts: Options,
    result: u64,
    samples: Seq<Seq<char>>,
    sum: Summary,
    clock: Clock,
    on: bool,
)
    requires
        opts.json,
        crate::reading::is_bare(clock.ghz4@),
        crate::reading::is_bare(sum.min@),
        crate::reading::is_bare(sum.mean@),
        crate::reading::is_bare(sum.median@),
        crate::reading::is_bare(sum.max@),
        forall|k: int| 0 <= k < samples.len() ==> crate::reading::is_bare(#[trigger] samples[k]),
    ensures
        crate::reading::object_members(summary(opts, result, samples, sum, clock, on)) == Some(
            seq![
                number_member("target"@, crate::text::decimal(opts.count_to as nat)),
                number_member("result"@, crate::text::decimal(result as nat)),
                number_member("threads"@, crate::text::decimal(opts.threads as nat)),
                number_member("trials"@, crate::text::decimal(opts.repeat as nat)),
                text_member("unit"@, opts.unit.name()),
                number_member("ghz"@, clock.ghz4@),
                number_member("min"@, sum.min@),
                number_member("mean"@, sum.mean@),
                number_member("median"@, sum.median@),
                number_member("max"@, sum.max@),
                list_member("samples"@, samples),
            ],
        ),
{
    lemma_number_labels();
    lemma_other_labels();
    let m1 = seq![number_member("target"@, crate::text::decimal(opts.count_to as nat))];
    crate::reading::lemma_first_member("target"@, crate::text::decimal(opts.count_to as nat));
    let m2 = m1.push(number_member("result"@, crate::text::decimal(result as nat)));
    crate::reading::lemma_next_number(m1, "result"@, crate::text::decimal(result as nat));
    let m3 = m2.push(number_member("threads"@, crate::text::decimal(opts.threads as nat)));
    crate::reading::lemma_next_number(m2, "threads"@, crate::text::decimal(opts.threads as nat));
    let m4 = m3.push(number_member("trials"@, crate::text::decimal(opts.repeat as nat)));
    crate::reading::lemma_next_number(m3, "trials"@, crate::text::decimal(opts.repeat as nat));
    let m5 = m4.push(text_member("unit"@, opts.unit.name()));
    crate::reading::lemma_next_text(m4, "unit"@, opts.unit.name(), ",\"ghz\":"@);
    let m6 = m5.push(number_member("ghz"@, clock.ghz4@));
    crate::reading::lemma_next_number(m5, "ghz"@, clock.ghz4@);
    let m7 = m6.push(number_member("min"@, sum.min@));
    crate::reading::lemma_next_number(m6, "min"@, sum.min@);
    let m8 = m7.push(number_member("mean"@, sum.mean@));
    crate::reading::lemma_next_number(m7, "mean"@, sum.mean@);
    let m9 = m8.push(number_member("median"@, sum.median@));
    crate::reading::lemma_next_number(m8, "median"@, sum.median@);
    let m10 = m9.push(number_member("max"@, sum.max@));
    crate::reading::lemma_next_number(m9, "max"@, sum.max@);
    let m11 = m10.push(list_member("samples"@, samples));
    crate::reading::lemma_next_list(m10, "samples"@, samples, seq!['}']);
    lemma_decimal_is_bare(opts.count_to as nat);
    lemma_decimal_is_bare(result as nat);
    lemma_decimal_is_bare(opts.threads as nat);
    lemma_decimal_is_bare(opts.repeat as nat);
    crate::reading::lemma_object(m11);
    assert(m11 =~= seq![
        number_member("target"@, crate::text::decimal(opts.count_to as nat)),
        number_member("result"@, crate::text::decimal(result as nat)),
        number_member("threads"@, crate::text::decimal(opts.threads as nat)),
        number_member("trials"@, crate::text::decimal(opts.repeat as nat)),
        text_member("unit"@, opts.unit.name()),
        number_member("ghz"@, clock.ghz4@),
        number_member("min"@, sum.min@),
        number_member("mean"@, sum.mean@),
        number_member("median"@, sum.median@),
        number_member("max"@, sum.max@),
        list_member("samples"@, samples),
    ]);
}

/// Where colour is on, a number stands in bold cyan, and where it is off it is
/// left as it is.
pub proof fn law_numbers_are_highlighted(s: Seq<char>)
    ensures
        number(s, true) == "\x1b[1;36m"@ + s + "\x1b[0m"@,
        number(s, false) == s,
{
}

proof fn lemma_number_is_word(s: Seq<char>, on: bool)
    requires
        crate::reading::is_word(s),
    ensures
        crate::reading::is_word(number(s, on)),
{
    reveal(crate::reading::is_word);
    reveal_strlit("\x1b[1;36m");
    reveal_strlit("\x1b[0m");
    let code = "\x1b[1;36m"@;
    let all = number(s, on);
    if on {
        assert forall|k: int| 0 <= k < all.len() implies #[trigger] all[k] != ' ' && all[k]
            != '\n' by {
            if code.len() <= k < code.len() + s.len() {
                assert(all[k] == s[k - code.len()]);
            }
        }
    }
}

proof fn lemma_decimal_is_word(n: nat)
    ensures
        crate::reading::is_word(crate::text::decimal(n)),
{
    reveal(crate::reading::is_word);
    crate::text::law_decimal_writes_its_number(n);
}

proof fn lemma_unit_name_is_word(unit: Unit)
    ensures
        crate::reading::is_word(unit.name()),
{
    reveal(crate::reading::is_word);
    reveal_strlit("ns");
    reveal_strlit("us");
    reveal_strlit("ms");
    reveal_strlit("cycles");
}

proof fn lemma_plural_is_word(n: nat)
    ensures
        crate::reading::is_word(plural(n)),
{
    reveal(crate::reading::is_word);
    reveal_strlit("");
    reveal_strlit("s");
}

proof fn lemma_words_counted(x: Seq<char>)
    requires
        crate::reading::is_word(x),
    ensures
        crate::reading::words("Counted to "@ + x) == seq!["Counted"@, "to"@, x],
{
    reveal(crate::reading::is_word);
    reveal_strlit("Counted to ");
    reveal_strlit("Counted");
    reveal_strlit("to");
    let c0 = "Counted"@;
    crate::reading::lemma_one_word(c0);
    let c1 = crate::reading::spaced(c0, "to"@);
    crate::reading::lemma_spaced(c0, "to"@);
    let c2 = crate::reading::spaced(c1, x);
    crate::reading::lemma_spaced(c1, x);
    assert("Counted to "@ + x =~= c2);
}

proof fn lemma_words_using(p: Seq<char>, x: Seq<char>)
    requires
        crate::reading::is_word(x),
    ensures
        crate::reading::words(p + " using "@ + x)
            == crate::reading::words(p).push("using"@).push(x),
{
    reveal(crate::reading::is_word);
    reveal_strlit(" using ");
    reveal_strlit("using");
    let c1 = crate::reading::spaced(p, "using"@);
    crate::reading::lemma_spaced(p, "using"@);
    let c2 = crate::reading::spaced(c1, x);
    crate::reading::lemma_spaced(c1, x);
    assert(p + " using "@ + x =~= c2);
}

proof fn lemma_words_elapsed(p: Seq<char>, x0: Seq<char>, x1: Seq<char>)
    requires
        crate::reading::is_word(x0),
        crate::reading::is_word(x1),
    ensures
        crate::reading::words(p + " thread"@ + x0 + ".\nTime elapsed: "@ + x1)
            == crate::reading::words(p).push("thread"@ + x0 + "."@).push(seq!['\n']).push("Time"@)
            .push("elapsed:"@).push(x1),
{
    reveal(crate::reading::is_word);
    reveal_strlit(" thread");
    reveal_strlit(".\nTime elapsed: ");
    reveal_strlit("thread");
    reveal_strlit(".");
    reveal_strlit("Time");
    reveal_strlit("elapsed:");
    let w1 = "thread"@ + x0 + "."@;
    let c1 = crate::reading::spaced(p, w1);
    crate::reading::lemma_spaced(p, w1);
    let c2 = crate::reading::lined(c1, "Time"@);
    crate::reading::lemma_lined(c1, "Time"@);
    let c3 = crate::reading::spaced(c2, "elapsed:"@);
    crate::reading::lemma_spaced(c2, "elapsed:"@);
    let c4 = crate::reading::spaced(c3, x1);
    crate::reading::lemma_spaced(c3, x1);
    assert(p + " thread"@ + x0 + ".\nTime elapsed: "@ + x1 =~= c4);
}

proof fn lemma_words_cycles(p: Seq<char>, x: Seq<char>)
    requires
        crate::reading::is_word(x),
    ensures
        crate::reading::words(p + " cycles (~"@ + x)
            == crate::reading::words(p).push("cycles"@).push("(~"@ + x),
{
    reveal(crate::reading::is_word);
    reveal_strlit(" cycles (~");
    reveal_strlit("cycles");
    reveal_strlit("(~");
    let c1 = crate::reading::spaced(p, "cycles"@);
    crate::reading::lemma_spaced(p, "cycles"@);
    let w2 = "(~"@ + x;
    let c2 = crate::reading::spaced(c1, w2);
    crate::reading::lemma_spaced(c1, w2);
    assert(p + " cycles (~"@ + x =~= c2);
}

proof fn lemma_words_clock(p: Seq<char>, x0: Seq<char>, x1: Seq<char>)
    requires
        crate::reading::is_word(x0),
        crate::reading::is_word(x1),
    ensures
        crate::reading::words(p + " "@ + x0 + ")\nCalibrated clock: ~"@ + x1)
            == crate::reading::words(p).push(x0 + ")"@).push(seq!['\n']).push("Calibrated"@)
            .push("clock:"@).push("~"@ + x1),
{
    reveal(crate::reading::is_word);
    reveal_strlit(" ");
    reveal_strlit(")\nCalibrated clock: ~");
    reveal_strlit(")");
    reveal_strlit("Calibrated");
    reveal_strlit("clock:");
    reveal_strlit("~");
    let w1 = x0 + ")"@;
    let c1 = crate::reading::spaced(p, w1);
    crate::reading::lemma_spaced(p, w1);
    let c2 = crate::reading::lined(c1, "Calibrated"@);
    crate::reading::lemma_lined(c1, "Calibrated"@);
    let c3 = crate::reading::spaced(c2, "clock:"@);
    crate::reading::lemma_spaced(c2, "clock:"@);
    let w4 = "~"@ + x1;
    let c4 = crate::reading::spaced(c3, w4);
    crate::reading::lemma_spaced(c3, w4);
    assert(p + " "@ + x0 + ")\nCalibrated clock: ~"@ + x1 =~= c4);
}

proof fn lemma_words_efficiency(p: Seq<char>, x: Seq<char>)
    requires
        crate::reading::is_word(x),
    ensures
        crate::reading::words(p + " GHz\nEfficiency rating: "@ + x)
            == crate::reading::words(p).push("GHz"@).push(seq!['\n']).push("Efficiency"@)
            .push("rating:"@).push(x),
{
    reveal(crate::reading::is_word);
    reveal_strlit(" GHz\nEfficiency rating: ");
    reveal_strlit("GHz");
    reveal_strlit("Efficiency");
    reveal_strlit("rating:");
    let c1 = crate::reading::spaced(p, "GHz"@);
    crate::reading::lemma_spaced(p, "GHz"@);
    let c2 = crate::reading::lined(c1, "Efficiency"@);
    crate::reading::lemma_lined(c1, "Efficiency"@);
    let c3 = crate::reading::spaced(c2, "rating:"@);
    crate::reading::lemma_spaced(c2, "rating:"@);
    let c4 = crate::reading::spaced(c3, x);
    crate::reading::lemma_spaced(c3, x);
    assert(p + " GHz\nEfficiency rating: "@ + x =~= c4);
}

proof fn lemma_words_integers(p: Seq<char>, x: Seq<char>)
    requires
        crate::reading::is_word(x),
    ensures
        crate::reading::words(p + " integer"@ + x) == crate::reading::words(p).push("integer"@ + x),
{
    reveal(crate::reading::is_word);
    reveal_strlit(" integer");
    reveal_strlit("integer");
    let w1 = "integer"@ + x;
    let c1 = crate::reading::spaced(p, w1);
    crate::reading::lemma_spaced(p, w1);
    assert(p + " integer"@ + x =~= c1);
}

proof fn lemma_words_over(p: Seq<char>, x: Seq<char>)
    requires
        crate::reading::is_word(x),
    ensures
        crate::reading::words(p + " / "@ + x) == crate::reading::words(p).push("/"@).push(x),
{
    reveal(crate::reading::is_word);
    reveal_strlit(" / ");
    reveal_strlit("/");
    let c1 = crate::reading::spaced(p, "/"@);
    crate::reading::lemma_spaced(p, "/"@);
    let c2 = crate::reading::spaced(c1, x);
    crate::reading::lemma_spaced(c1, x);
    assert(p + " / "@ + x =~= c2);
}

proof fn lemma_words_next(p: Seq<char>, x: Seq<char>)
    requires
        crate::reading::is_word(x),
    ensures
        crate::reading::words(p + " "@ + x) == crate::reading::words(p).push(x),
{
    reveal(crate::reading::is_word);
    reveal_strlit(" ");
    let c1 = crate::reading::spaced(p, x);
    crate::reading::lemma_spaced(p, x);
    assert(p + " "@ + x =~= c1);
}

proof fn lemma_words_fast(p: Seq<char>)
    ensures
        crate::reading::words(p + " = blazingly fast"@)
            == crate::reading::words(p).push("="@).push("blazingly"@).push("fast"@),
{
    reveal(crate::reading::is_word);
    reveal_strlit(" = blazingly fast");
    reveal_strlit("=");
    reveal_strlit("blazingly");
    reveal_strlit("fast");
    let c1 = crate::reading::spaced(p, "="@);
    crate::reading::lemma_spaced(p, "="@);
    let c2 = crate::reading::spaced(c1, "blazingly"@);
    crate::reading::lemma_spaced(c1, "blazingly"@);
    let c3 = crate::reading::spaced(c2, "fast"@);
    crate::reading::lemma_spaced(c2, "fast"@);
    assert(p + " = blazingly fast"@ =~= c3);
}

/// The words of the text, whatever the words that are filled in.
proof fn lemma_words_of_single_prose(
    x0: Seq<char>,
    x1: Seq<char>,
    x2: Seq<char>,
    x3: Seq<char>,
    x4: Seq<char>,
    x5: Seq<char>,
    x6: Seq<char>,
    x7: Seq<char>,
    x8: Seq<char>,
    x9: Seq<char>,
    y0: Seq<char>,
    y1: Seq<char>,
)
    requires
        crate::reading::is_word(x0),
        crate::reading::is_word(x1),
        crate::reading::is_word(x2),
        crate::reading::is_word(x3),
        crate::reading::is_word(x4),
        crate::reading::is_word(x5),
        crate::reading::is_word(x6),
        crate::reading::is_word(x7),
        crate::reading::is_word(x8),
        crate::reading::is_word(x9),
        y0 == "thread"@ + x2 + "."@,
        y1 == "integer"@ + x8,
    ensures
        crate::reading::words(
            "Counted to "@ + x0 + " using "@ + x1 + " thread"@ + x2 + ".\nTime elapsed: "@ + x3
                + " cycles (~"@ + x4 + " "@ + x5 + ")\nCalibrated clock: ~"@ + x6
                + " GHz\nEfficiency rating: "@ + x7 + " integer"@ + x8 + " / "@ + x9 + " "@ + x5
                + " = blazingly fast"@,
        ) == seq![
            "Counted"@,
            "to"@,
            x0,
            "using"@,
            x1,
            y0,
            seq!['\n'],
            "Time"@,
            "elapsed:"@,
            x3,
            "cycles"@,
            "(~"@ + x4,
            x5 + ")"@,
            seq!['\n'],
            "Calibrated"@,
            "clock:"@,
            "~"@ + x6,
            "GHz"@,
            seq!['\n'],
            "Efficiency"@,
            "rating:"@,
            x7,
            y1,
            "/"@,
            x9,
            x5,
            "="@,
            "blazingly"@,
            "fast"@,
        ],
{
    lemma_words_counted(x0);
    let p1 = "Counted to "@ + x0;
    lemma_words_using(p1, x1);
    let p2 = p1 + " using "@ + x1;
    lemma_words_elapsed(p2, x2, x3);
    let p3 = p2 + " thread"@ + x2 + ".\nTime elapsed: "@ + x3;
    lemma_words_cycles(p3, x4);
    let p4 = p3 + " cycles (~"@ + x4;
    lemma_words_clock(p4, x5, x6);
    let p5 = p4 + " "@ + x5 + ")\nCalibrated clock: ~"@ + x6;
    lemma_words_efficiency(p5, x7);
    let p6 = p5 + " GHz\nEfficiency rating: "@ + x7;
    lemma_words_integers(p6, x8);
    let p7 = p6 + " integer"@ + x8;
    lemma_words_over(p7, x9);
    let p8 = p7 + " / "@ + x9;
    lemma_words_next(p8, x5);
    let p9 = p8 + " "@ + x5;
    lemma_words_fast(p9);
}

proof fn lemma_words_first(x: Seq<char>)
    requires
        crate::reading::is_word(x),
    ensures
        crate::reading::words(x) == seq![x],
{
    reveal(crate::reading::is_word);
    let c0 = x;
    crate::reading::lemma_one_word(c0);
    assert(x =~= c0);
}

proof fn lemma_words_joined(p: Seq<char>, x0: Seq<char>, x1: Seq<char>)
    requires
        crate::reading::is_word(x0),
        crate::reading::is_word(x1),
    ensures
        crate::reading::words(p + " "@ + x0 + x1) == crate::reading::words(p).push(x0 + x1),
{
    reveal(crate::reading::is_word);
    reveal_strlit(" ");
    let w1 = x0 + x1;
    let c1 = crate::reading::spaced(p, w1);
    crate::reading::lemma_spaced(p, w1);
    assert(p + " "@ + x0 + x1 =~= c1);
}

proof fn lemma_words_across(p: Seq<char>, x: Seq<char>)
    requires
        crate::reading::is_word(x),
    ensures
        crate::reading::words(p + " across "@ + x)
            == crate::reading::words(p).push("across"@).push(x),
{
    reveal(crate::reading::is_word);
    reveal_strlit(" across ");
    reveal_strlit("across");
    let c1 = crate::reading::spaced(p, "across"@);
    crate::reading::lemma_spaced(p, "across"@);
    let c2 = crate::reading::spaced(c1, x);
    crate::reading::lemma_spaced(c1, x);
    assert(p + " across "@ + x =~= c2);
}

proof fn lemma_words_trials(p: Seq<char>, x: Seq<char>)
    requires
        crate::reading::is_word(x),
    ensures
        crate::reading::words(p + " trials using "@ + x)
            == crate::reading::words(p).push("trials"@).push("using"@).push(x),
{
    reveal(crate::reading::is_word);
    reveal_strlit(" trials using ");
    reveal_strlit("trials");
    reveal_strlit("using");
    let c1 = crate::reading::spaced(p, "trials"@);
    crate::reading::lemma_spaced(p, "trials"@);
    let c2 = crate::reading::spaced(c1, "using"@);
    crate::reading::lemma_spaced(c1, "using"@);
    let c3 = crate::reading::spaced(c2, x);
    crate::reading::lemma_spaced(c2, x);
    assert(p + " trials using "@ + x =~= c3);
}

proof fn lemma_words_min(p: Seq<char>, x0: Seq<char>, x1: Seq<char>)
    requires
        crate::reading::is_word(x0),
        crate::reading::is_word(x1),
    ensures
        crate::reading::words(p + " thread"@ + x0 + ".\n  min:    "@ + x1)
            == crate::reading::words(p).push("thread"@ + x0 + "."@).push(seq!['\n']).push(seq![])
            .push(seq![]).push("min:"@).push(seq![]).push(seq![]).push(seq![]).push(x1),
{
    reveal(crate::reading::is_word);
    reveal_strlit(" thread");
    reveal_strlit(".\n  min:    ");
    reveal_strlit("thread");
    reveal_strlit(".");
    reveal_strlit("min:");
    let w1 = "thread"@ + x0 + "."@;
    let c1 = crate::reading::spaced(p, w1);
    crate::reading::lemma_spaced(p, w1);
    let c2 = crate::reading::lined(c1, Seq::<char>::empty());
    crate::reading::lemma_lined(c1, Seq::<char>::empty());
    let c3 = crate::reading::spaced(c2, Seq::<char>::empty());
    crate::reading::lemma_spaced(c2, Seq::<char>::empty());
    let c4 = crate::reading::spaced(c3, "min:"@);
    crate::reading::lemma_spaced(c3, "min:"@);
    let c5 = crate::reading::spaced(c4, Seq::<char>::empty());
    crate::reading::lemma_spaced(c4, Seq::<char>::empty());
    let c6 = crate::reading::spaced(c5, Seq::<char>::empty());
    crate::reading::lemma_spaced(c5, Seq::<char>::empty());
    let c7 = crate::reading::spaced(c6, Seq::<char>::empty());
    crate::reading::lemma_spaced(c6, Seq::<char>::empty());
    let c8 = crate::reading::spaced(c7, x1);
    crate::reading::lemma_spaced(c7, x1);
    assert(p + " thread"@ + x0 + ".\n  min:    "@ + x1 =~= c8);
}

proof fn lemma_words_mean(p: Seq<char>, x: Seq<char>)
    requires
        crate::reading::is_word(x),
    ensures
        crate::reading::words(p + "\n  mean:   "@ + x)
            == crate::reading::words(p).push(seq!['\n']).push(seq![]).push(seq![]).push("mean:"@)
            .push(seq![]).push(seq![]).push(x),
{
    reveal(crate::reading::is_word);
    reveal_strlit("\n  mean:   ");
    reveal_strlit("mean:");
    let c1 = crate::reading::lined(p, Seq::<char>::empty());
    crate::reading::lemma_lined(p, Seq::<char>::empty());
    let c2 = crate::reading::spaced(c1, Seq::<char>::empty());
    crate::reading::lemma_spaced(c1, Seq::<char>::empty());
    let c3 = crate::reading::spaced(c2, "mean:"@);
    crate::reading::lemma_spaced(c2, "mean:"@);
    let c4 = crate::reading::spaced(c3, Seq::<char>::empty());
    crate::reading::lemma_spaced(c3, Seq::<char>::empty());
    let c5 = crate::reading::spaced(c4, Seq::<char>::empty());
    crate::reading::lemma_spaced(c4, Seq::<char>::empty());
    let c6 = crate::reading::spaced(c5, x);
    crate::reading::lemma_spaced(c5, x);
    assert(p + "\n  mean:   "@ + x =~= c6);
}

proof fn lemma_words_median(p: Seq<char>, x: Seq<char>)
    requires
        crate::reading::is_word(x),
    ensures
        crate::reading::words(p + "\n  median: "@ + x)
            == crate::reading::words(p).push(seq!['\n']).push(seq![]).push(seq![])
            .push("median:"@).push(x),
{
    reveal(crate::reading::is_word);
    reveal_strlit("\n  median: ");
    reveal_strlit("median:");
    let c1 = crate::reading::lined(p, Seq::<char>::empty());
    crate::reading::lemma_lined(p, Seq::<char>::empty());
    let c2 = crate::reading::spaced(c1, Seq::<char>::empty());
    crate::reading::lemma_spaced(c1, Seq::<char>::empty());
    let c3 = crate::reading::spaced(c2, "median:"@);
    crate::reading::lemma_spaced(c2, "median:"@);
    let c4 = crate::reading::spaced(c3, x);
    crate::reading::lemma_spaced(c3, x);
    assert(p + "\n  median: "@ + x =~= c4);
}

proof fn lemma_words_max(p: Seq<char>, x: Seq<char>)
    requires
        crate::reading::is_word(x),
    ensures
        crate::reading::words(p + "\n  max:    "@ + x)
            == crate::reading::words(p).push(seq!['\n']).push(seq![]).push(seq![]).push("max:"@)
            .push(seq![]).push(seq![]).push(seq![]).push(x),
{
    reveal(crate::reading::is_word);
    reveal_strlit("\n  max:    ");
    reveal_strlit("max:");
    let c1 = crate::reading::lined(p, Seq::<char>::empty());
    crate::reading::lemma_lined(p, Seq::<char>::empty());
    let c2 = crate::reading::spaced(c1, Seq::<char>::empty());
    crate::reading::lemma_spaced(c1, Seq::<char>::empty());
    let c3 = crate::reading::spaced(c2, "max:"@);
    crate::reading::lemma_spaced(c2, "max:"@);
    let c4 = crate::reading::spaced(c3, Seq::<char>::empty());
    crate::reading::lemma_spaced(c3, Seq::<char>::empty());
    let c5 = crate::reading::spaced(c4, Seq::<char>::empty());
    crate::reading::lemma_spaced(c4, Seq::<char>::empty());
    let c6 = crate::reading::spaced(c5, Seq::<char>::empty());
    crate::reading::lemma_spaced(c5, Seq::<char>::empty());
    let c7 = crate::reading::spaced(c6, x);
    crate::reading::lemma_spaced(c6, x);
    assert(p + "\n  max:    "@ + x =~= c7);
}

proof fn lemma_words_calibrated(p: Seq<char>, x: Seq<char>)
    requires
        crate::reading::is_word(x),
    ensures
        crate::reading::words(p + "\nCalibrated clock: ~"@ + x)
            == crate::reading::words(p).push(seq!['\n']).push("Calibrated"@).push("clock:"@)
            .push("~"@ + x),
{
    reveal(crate::reading::is_word);
    reveal_strlit("\nCalibrated clock: ~");
    reveal_strlit("Calibrated");
    reveal_strlit("clock:");
    reveal_strlit("~");
    let c1 = crate::reading::lined(p, "Calibrated"@);
    crate::reading::lemma_lined(p, "Calibrated"@);
    let c2 = crate::reading::spaced(c1, "clock:"@);
    crate::reading::lemma_spaced(c1, "clock:"@);
    let w3 = "~"@ + x;
    let c3 = crate::reading::spaced(c2, w3);
    crate::reading::lemma_spaced(c2, w3);
    assert(p + "\nCalibrated clock: ~"@ + x =~= c3);
}

proof fn lemma_words_ghz(p: Seq<char>)
    ensures
        crate::reading::words(p + " GHz"@) == crate::reading::words(p).push("GHz"@),
{
    reveal(crate::reading::is_word);
    reveal_strlit(" GHz");
    reveal_strlit("GHz");
    let c1 = crate::reading::spaced(p, "GHz"@);
    crate::reading::lemma_spaced(p, "GHz"@);
    assert(p + " GHz"@ =~= c1);
}

/// The words of the text, whatever the words that are filled in.
proof fn lemma_words_of_summary_prose(
    x0: Seq<char>,
    x1: Seq<char>,
    x2: Seq<char>,
    x3: Seq<char>,
    x4: Seq<char>,
    x5: Seq<char>,
    x6: Seq<char>,
    x7: Seq<char>,
    x8: Seq<char>,
    x9: Seq<char>,
    y0: Seq<char>,
)
    requires
        crate::reading::is_word(x0),
        crate::reading::is_word(x1),
        crate::reading::is_word(x2),
        crate::reading::is_word(x3),
        crate::reading::is_word(x4),
        crate::reading::is_word(x5),
        crate::reading::is_word(x6),
        crate::reading::is_word(x7),
        crate::reading::is_word(x8),
        crate::reading::is_word(x9),
        y0 == "thread"@ + x3 + "."@,
    ensures
        crate::reading::words(
            "Counted to "@ + x0 + " across "@ + x1 + " trials using "@ + x2 + " thread"@ + x3
                + ".\n  min:    "@ + x4 + " "@ + x5 + "\n  mean:   "@ + x6 + " "@ + x5
                + "\n  median: "@ + x7 + " "@ + x5 + "\n  max:    "@ + x8 + " "@ + x5
                + "\nCalibrated clock: ~"@ + x9 + " GHz"@,
        ) == seq![
            "Counted"@,
            "to"@,
            x0,
            "across"@,
            x1,
            "trials"@,
            "using"@,
            x2,
            y0,
            seq!['\n'],
            seq![],
            seq![],
            "min:"@,
            seq![],
            seq![],
            seq![],
            x4,
            x5,
            seq!['\n'],
            seq![],
            seq![],
            "mean:"@,
            seq![],
            seq![],
            x6,
            x5,
            seq!['\n'],
            seq![],
            seq![],
            "median:"@,
            x7,
            x5,
            seq!['\n'],
            seq![],
            seq![],
            "max:"@,
            seq![],
            seq![],
            seq![],
            x8,
            x5,
            seq!['\n'],
            "Calibrated"@,
            "clock:"@,
            "~"@ + x9,
            "GHz"@,
        ],
{
    lemma_words_counted(x0);
    let p1 = "Counted to "@ + x0;
    lemma_words_across(p1, x1);
    let p2 = p1 + " across "@ + x1;
    lemma_words_trials(p2, x2);
    let p3 = p2 + " trials using "@ + x2;
    lemma_words_min(p3, x3, x4);
    let p4 = p3 + " thread"@ + x3 + ".\n  min:    "@ + x4;
    lemma_words_next(p4, x5);
    let p5 = p4 + " "@ + x5;
    lemma_words_mean(p5, x6);
    let p6 = p5 + "\n  mean:   "@ + x6;
    lemma_words_next(p6, x5);
    let p7 = p6 + " "@ + x5;
    lemma_words_median(p7, x7);
    let p8 = p7 + "\n  median: "@ + x7;
    lemma_words_next(p8, x5);
    let p9 = p8 + " "@ + x5;
    lemma_words_max(p9, x8);
    let p10 = p9 + "\n  max:    "@ + x8;
    lemma_words_next(p10, x5);
    let p11 = p10 + " "@ + x5;
    lemma_words_calibrated(p11, x9);
    let p12 = p11 + "\nCalibrated clock: ~"@ + x9;
    lemma_words_ghz(p12);
}

/// Reading the report on a single trial in words gives what went in: what was
/// counted, the threads, the cycles, the time in the unit asked for and the
/// clock rate, each where it belongs.
#[verifier::spinoff_prover]
pub proof fn law_single_prose_reads_back(opts: Options, t: Trial, clock: Clock, on: bool)
    requires
        !opts.json && !opts.quiet,
        crate::reading::is_word(t.value@),
        crate::reading::is_word(clock.ghz3@),
    ensures
        crate::reading::words(single(opts, t, clock, on)) == seq![
            "Counted"@,
            "to"@,
            number(crate::text::decimal(t.result as nat), on),
            "using"@,
            number(crate::text::decimal(opts.threads as nat), on),
            if opts.threads == 1 {
                "thread."@
            } else {
                "threads."@
            },
            seq!['\n'],
            "Time"@,
            "elapsed:"@,
            number(crate::text::decimal(t.cycles as nat), on),
            "cycles"@,
            "(~"@ + number(t.value@, on),
            opts.unit.name() + ")"@,
            seq!['\n'],
            "Calibrated"@,
            "clock:"@,
            "~"@ + clock.ghz3@,
            "GHz"@,
            seq!['\n'],
            "Efficiency"@,
            "rating:"@,
            crate::text::decimal(t.result as nat),
            if t.result == 1 {
                "integer"@
            } else {
                "integers"@
            },
            "/"@,
            t.value@,
            opts.unit.name(),
            "="@,
            "blazingly"@,
            "fast"@,
        ],
{
    lemma_decimal_is_word(t.result as nat);
    lemma_decimal_is_word(opts.threads as nat);
    lemma_decimal_is_word(t.cycles as nat);
    lemma_number_is_word(crate::text::decimal(t.result as nat), on);
    lemma_number_is_word(crate::text::decimal(opts.threads as nat), on);
    lemma_number_is_word(crate::text::decimal(t.cycles as nat), on);
    lemma_number_is_word(t.value@, on);
    lemma_unit_name_is_word(opts.unit);
    lemma_plural_is_word(opts.threads as nat);
    lemma_plural_is_word(t.result as nat);
    let word0 = if opts.threads == 1 {
        "thread."@
    } else {
        "threads."@
    };
    assert("thread"@ + plural(opts.threads as nat) + "."@ =~= word0) by {
        reveal_strlit("thread");
        reveal_strlit(".");
        reveal_strlit("thread.");
        reveal_strlit("threads.");
        reveal_strlit("");
        reveal_strlit("s");
    }
    let word1 = if t.result == 1 {
        "integer"@
    } else {
        "integers"@
    };
    assert("integer"@ + plural(t.result as nat) =~= word1) by {
        reveal_strlit("integer");
        reveal_strlit("integers");
        reveal_strlit("");
        reveal_strlit("s");
    }
    lemma_words_of_single_prose(
        number(crate::text::decimal(t.result as nat), on),
        number(crate::text::decimal(opts.threads as nat), on),
        plural(opts.threads as nat),
        number(crate::text::decimal(t.cycles as nat), on),
        number(t.value@, on),
        opts.unit.name(),
        clock.ghz3@,
        crate::text::decimal(t.result as nat),
        plural(t.result as nat),
        t.value@,
        word0,
        word1,
    );
}

/// Reading the report on a single trial as bare numbers gives what went in:
/// what was counted, and the time in the unit asked for.
pub proof fn law_single_quiet_reads_back(opts: Options, t: Trial, clock: Clock, on: bool)
    requires
        !opts.json && opts.quiet,
        crate::reading::is_word(t.value@),
    ensures
        crate::reading::words(single(opts, t, clock, on)) == seq![
            crate::text::decimal(t.result as nat),
            t.value@ + opts.unit.name(),
        ],
{
    lemma_decimal_is_word(t.result as nat);
    lemma_unit_name_is_word(opts.unit);
    lemma_words_first(crate::text::decimal(t.result as nat));
    let p1 = crate::text::decimal(t.result as nat);
    lemma_words_joined(p1, t.value@, opts.unit.name());
}

/// Reading the end of the report on several trials in words gives what went
/// in: what was counted, the number of trials, the threads, the spread in the
/// unit asked for and the clock rate, each where it belongs.
#[verifier::spinoff_prover]
pub proof fn law_summary_prose_reads_back(
    opts: Options,
    result: u64,
    samples: Seq<Seq<char>>,
    sum: Summary,
    clock: Clock,
    on: bool,
)
    requires
        !opts.json && !opts.quiet,
        crate::reading::is_word(sum.min@),
        crate::reading::is_word(sum.mean@),
        crate::reading::is_word(sum.median@),
        crate::reading::is_word(sum.max@),
        crate::reading::is_word(clock.ghz3@),
    ensures
        crate::reading::words(summary(opts, result, samples, sum, clock, on)) == seq![
            "Counted"@,
            "to"@,
            number(crate::text::decimal(result as nat), on),
            "across"@,
            number(crate::text::decimal(opts.repeat as nat), on),
            "trials"@,
            "using"@,
            number(crate::text::decimal(opts.threads as nat), on),
            if opts.threads == 1 {
                "thread."@
            } else {
                "threads."@
            },
            seq!['\n'],
            seq![],
            seq![],
            "min:"@,
            seq![],
            seq![],
            seq![],
            number(sum.min@, on),
            opts.unit.name(),
            seq!['\n'],
            seq![],
            seq![],
            "mean:"@,
            seq![],
            seq![],
            number(sum.mean@, on),
            opts.unit.name(),
            seq!['\n'],
            seq![],
            seq![],
            "median:"@,
            number(sum.median@, on),
            opts.unit.name(),
            seq!['\n'],
            seq![],
            seq![],
            "max:"@,
            seq![],
            seq![],
            seq![],
            number(sum.max@, on),
            opts.unit.name(),
            seq!['\n'],
            "Calibrated"@,
            "clock:"@,
            "~"@ + clock.ghz3@,
            "GHz"@,
        ],
{
    lemma_decimal_is_word(result as nat);
    lemma_decimal_is_word(opts.repeat as nat);
    lemma_decimal_is_word(opts.threads as nat);
    lemma_number_is_word(crate::text::decimal(result as nat), on);
    lemma_number_is_word(crate::text::decimal(opts.repeat as nat), on);
    lemma_number_is_word(crate::text::decimal(opts.threads as nat), on);
    lemma_number_is_word(sum.min@, on);
    lemma_number_is_word(sum.mean@, on);
    lemma_number_is_word(sum.median@, on);
    lemma_number_is_word(sum.max@, on);
    lemma_unit_name_is_word(opts.unit);
    lemma_plural_is_word(opts.threads as nat);
    let word0 = if opts.threads == 1 {
        "thread."@
    } else {
        "threads."@
    };
    assert("thread"@ + plural(opts.threads as nat) + "."@ =~= word0) by {
        reveal_strlit("thread");
        reveal_strlit(".");
        reveal_strlit("thread.");
        reveal_strlit("threads.");
        reveal_strlit("");
        reveal_strlit("s");
    }
    lemma_words_of_summary_prose(
        number(crate::text::decimal(result as nat), on),
        number(crate::text::decimal(opts.repeat as nat), on),
        number(crate::text::decimal(opts.threads as nat), on),
        plural(opts.threads as nat),
        number(sum.min@, on),
        opts.unit.name(),
        number(sum.mean@, on),
        number(sum.median@, on),
        number(sum.max@, on),
        clock.ghz3@,
        word0,
    );
}

/// Reading the report on several trials as bare numbers gives the spread: the
/// least, the mean, the median and the greatest.
pub proof fn law_summary_quiet_reads_back(
    opts: Options,
    result: u64,
    samples: Seq<Seq<char>>,
    sum: Summary,
    clock: Clock,
    on: bool,
)
    requires
        !opts.json && opts.quiet,
        crate::reading::is_word(sum.min@),
        crate::reading::is_word(sum.mean@),
        crate::reading::is_word(sum.median@),
        crate::reading::is_word(sum.max@),
    ensures
        crate::reading::words(summary(opts, result, samples, sum, clock, on)) == seq![
            sum.min@,
            sum.mean@,
            sum.median@,
            sum.max@,
        ],
{
    lemma_words_first(sum.min@);
    let p1 = sum.min@;
    lemma_words_next(p1, sum.mean@);
    let p2 = p1 + " "@ + sum.mean@;
    lemma_words_next(p2, sum.median@);
    let p3 = p2 + " "@ + sum.median@;
    lemma_words_next(p3, sum.max@);
}

/// A log keeps of its trials what the last one counted, and the cycles and the
/// time of each of them.
pub proof fn law_log_keeps_the_trials(log: TrialLog, trials: Seq<Trial>)
    requires
        log.holds(trials),
    ensures
        trials.len() > 0 ==> log.result == trials.last().result,
        log.cycles@.len() == trials.len(),
        log.values@.len() == trials.len(),
        forall|k: int| 0 <= k < trials.len() ==> #[trigger] log.cycles@[k] == trials[k].cycles,
        forall|k: int| 0 <= k < trials.len() ==> (#[trigger] log.values@[k])@ == trials[k].value@,
{
    assert(crate::text::texts(log.values@).len() == trial_values(trials).len());
    assert forall|k: int| 0 <= k < trials.len() implies (#[trigger] log.values@[k])@
        == trials[k].value@ by {
        assert(crate::text::texts(log.values@)[k] == trial_values(trials)[k]);
    }
}

/// A backslash is put before a backslash and a quotation mark, and before no
/// other character.
pub proof fn law_escape_marks_two_characters(c: char)
    ensures
        c == '\\' || c == '"' ==> escaped(seq![c]) == seq!['\\', c],
        c != '\\' && c != '"' ==> escaped(seq![c]) == seq![c],
{
    reveal_with_fuel(escaped, 2);
    assert(seq![c].drop_last() =~= seq![]);
    assert(escaped(seq![c]) =~= escaped_char(c));
}

} // verus!
