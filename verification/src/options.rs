//! What a run can be told to do, and how the values of options are read.

use vstd::prelude::*;
use vstd::string::*;

use crate::text::{parse_i64, same_text};

verus! {

/// The version of the program.
pub const VERSION: &'static str = "2.0.0";

/// The unit in which times are shown.
#[derive(Clone, Copy, PartialEq, Eq, Structural, Debug)]
pub enum Unit {
    Ns,
    Us,
    Ms,
    Cycles,
}

impl Unit {
    /// The name of the unit, as it is given on the command line and shown.
    pub open spec fn name(self) -> Seq<char> {
        match self {
            Unit::Ns => "ns"@,
            Unit::Us => "us"@,
            Unit::Ms => "ms"@,
            Unit::Cycles => "cycles"@,
        }
    }

    /// The name of the unit.
    pub fn label(&self) -> (r: &'static str)
        ensures
            r@ == self.name(),
    {
        match self {
            Unit::Ns => "ns",
            Unit::Us => "us",
            Unit::Ms => "ms",
            Unit::Cycles => "cycles",
        }
    }

    /// How many nanoseconds one unit lasts; `None` for cycles, which are
    /// shown as they were counted.
    pub fn ns_per_unit(&self) -> (r: Option<u64>)
        ensures
            r == (match *self {
                Unit::Ns => Some(1u64),
                Unit::Us => Some(1_000u64),
                Unit::Ms => Some(1_000_000u64),
                Unit::Cycles => None,
            }),
    {
        match self {
            Unit::Ns => Some(1),
            Unit::Us => Some(1_000),
            Unit::Ms => Some(1_000_000),
            Unit::Cycles => None,
        }
    }
}

/// The unit that `v` names, or the message that it names none.
pub open spec fn unit_value(v: Seq<char>) -> Result<Unit, Seq<char>> {
    if v == Unit::Ns.name() {
        Ok(Unit::Ns)
    } else if v == Unit::Us.name() {
        Ok(Unit::Us)
    } else if v == Unit::Ms.name() {
        Ok(Unit::Ms)
    } else if v == Unit::Cycles.name() {
        Ok(Unit::Cycles)
    } else {
        Err("unknown unit: '"@ + v + "' (expected ns, us, ms, or cycles)"@)
    }
}

/// Reads the name of a unit.
pub fn parse_unit(v: &str) -> (r: Result<Unit, String>)
    ensures
        crate::text::text_result(r) == unit_value(v@),
{
    if same_text(v, "ns") {
        Ok(Unit::Ns)
    } else if same_text(v, "us") {
        Ok(Unit::Us)
    } else if same_text(v, "ms") {
        Ok(Unit::Ms)
    } else if same_text(v, "cycles") {
        Ok(Unit::Cycles)
    } else {
        let mut message = "unknown unit: '".to_owned();
        message.append(v);
        message.append("' (expected ns, us, ms, or cycles)");
        Err(message)
    }
}

/// When the output is coloured.
#[derive(Clone, Copy, PartialEq, Eq, Structural, Debug)]
pub enum ColorWhen {
    Auto,
    Always,
    Never,
}

impl ColorWhen {
    /// The name of the mode, as it is given on the command line.
    pub open spec fn name(self) -> Seq<char> {
        match self {
            ColorWhen::Auto => "auto"@,
            ColorWhen::Always => "always"@,
            ColorWhen::Never => "never"@,
        }
    }
}

/// The colour mode that `v` names, or the message that it names none.
pub open spec fn color_value(v: Seq<char>) -> Result<ColorWhen, Seq<char>> {
    if v == ColorWhen::Auto.name() {
        Ok(ColorWhen::Auto)
    } else if v == ColorWhen::Always.name() {
        Ok(ColorWhen::Always)
    } else if v == ColorWhen::Never.name() {
        Ok(ColorWhen::Never)
    } else {
        Err("unknown color mode: '"@ + v + "' (expected auto, always, or never)"@)
    }
}

/// Reads the name of a colour mode.
pub fn parse_color_when(v: &str) -> (r: Result<ColorWhen, String>)
    ensures
        crate::text::text_result(r) == color_value(v@),
{
    if same_text(v, "auto") {
        Ok(ColorWhen::Auto)
    } else if same_text(v, "always") {
        Ok(ColorWhen::Always)
    } else if same_text(v, "never") {
        Ok(ColorWhen::Never)
    } else {
        let mut message = "unknown color mode: '".to_owned();
        message.append(v);
        message.append("' (expected auto, always, or never)");
        Err(message)
    }
}

/// Whether to colour the output, given whether it goes to a terminal.
pub fn use_color(when: ColorWhen, terminal: bool) -> (r: bool)
    ensures
        r == (when == ColorWhen::Always || (when == ColorWhen::Auto && terminal)),
{
    match when {
        ColorWhen::Always => true,
        ColorWhen::Never => false,
        ColorWhen::Auto => terminal,
    }
}

/// How many threads a run takes that is told nothing: as many as the machine
/// reports, and one where it reports none.
pub fn default_threads(reported: Option<usize>) -> (r: usize)
    ensures
        r == (match reported {
            Some(k) => k,
            None => 1,
        }),
{
    match reported {
        Some(k) => k,
        None => 1,
    }
}

/// The number that `v` gives to the option `flag`, or the message that it
/// gives none: an integer of at least 1, with white space around it allowed.
pub open spec fn positive_int_value(flag: Seq<char>, v: Seq<char>) -> Result<u64, Seq<char>> {
    match crate::text::i64_value(crate::text::trimmed(v)) {
        None => Err(flag + " expects an integer, got '"@ + v + "'"@),
        Some(n) => if n < 1 {
            Err(flag + " must be a positive integer (>= 1)"@)
        } else {
            Ok(n as u64)
        },
    }
}

/// Reads the number given to the option `flag`.
pub fn parse_positive_int(flag: &str, v: &str) -> (r: Result<u64, String>)
    ensures
        crate::text::text_result(r) == positive_int_value(flag@, v@),
{
    match parse_i64(v.trim()) {
        None => {
            let mut message = flag.to_owned();
            message.append(" expects an integer, got '");
            message.append(v);
            message.append("'");
            Err(message)
        },
        Some(n) => if n < 1 {
            let mut message = flag.to_owned();
            message.append(" must be a positive integer (>= 1)");
            Err(message)
        } else {
            Ok(n as u64)
        },
    }
}

/// What a run is told to do.
#[derive(Clone, Copy, PartialEq, Eq, Structural, Debug)]
pub struct Options {
    pub count_to: u64,
    pub threads: usize,
    pub repeat: u64,
    pub quiet: bool,
    pub json: bool,
    pub unit: Unit,
    pub color: ColorWhen,
}

impl Options {
    /// The options of a run that is told nothing, on a machine that offers
    /// `threads` threads.
    pub open spec fn defaults(threads: usize) -> Options {
        Options {
            count_to: 1,
            threads,
            repeat: 1,
            quiet: false,
            json: false,
            unit: Unit::Ns,
            color: ColorWhen::Auto,
        }
    }

    /// The options of a run that is told nothing. `threads` is what the
    /// machine offers.
    pub fn with_threads(threads: usize) -> (r: Options)
        ensures
            r == Options::defaults(threads),
    {
        Options {
            count_to: 1,
            threads,
            repeat: 1,
            quiet: false,
            json: false,
            unit: Unit::Ns,
            color: ColorWhen::Auto,
        }
    }

    /// The options that every command line leads to: at least one trial that
    /// counts to at least one, both within what an `i64` holds.
    pub open spec fn well_formed(self) -> bool {
        &&& 1 <= self.count_to <= i64::MAX
        &&& 1 <= self.repeat <= i64::MAX
    }
}

/// The units have different names: reading the name of a unit gives that unit.
pub proof fn law_unit_name_round_trip(u: Unit)
    ensures
        unit_value(u.name()) == Ok::<Unit, Seq<char>>(u),
{
    reveal_strlit("ns");
    reveal_strlit("us");
    reveal_strlit("ms");
    reveal_strlit("cycles");
    assert("ns"@[0] == 'n' && "us"@[0] == 'u' && "ms"@[0] == 'm' && "cycles"@[0] == 'c');
}

/// The colour modes have different names: reading the name of a mode gives
/// that mode.
pub proof fn law_color_name_round_trip(c: ColorWhen)
    ensures
        color_value(c.name()) == Ok::<ColorWhen, Seq<char>>(c),
{
    reveal_strlit("auto");
    reveal_strlit("always");
    reveal_strlit("never");
    assert("auto"@.len() == 4 && "always"@.len() == 6 && "never"@.len() == 5);
}

/// The decimal text of every number from 1 to the largest `i64` is read as
/// that number, whatever white space stands around it.
pub proof fn law_positive_int_reads_decimals(
    flag: Seq<char>,
    before: Seq<char>,
    n: u64,
    after: Seq<char>,
)
    requires
        1 <= n <= i64::MAX,
        forall|k: int| 0 <= k < before.len() ==> crate::text::is_white_space(#[trigger] before[k]),
        forall|k: int| 0 <= k < after.len() ==> crate::text::is_white_space(#[trigger] after[k]),
    ensures
        positive_int_value(flag, before + crate::text::decimal(n as nat) + after) == Ok::<
            u64,
            Seq<char>,
        >(n),
{
    let text = crate::text::decimal(n as nat);
    crate::text::lemma_decimal_value(n as nat);
    assert(crate::text::is_digit(text[0]) && crate::text::is_digit(text.last()));
    assert(before + text + after =~= before + (text + after));
    crate::text::lemma_trimmed_start(before, text + after);
    crate::text::lemma_trimmed_end(text, after);
}

/// Every number that is read is at least 1 and fits in an `i64`.
pub proof fn law_positive_int_range(flag: Seq<char>, v: Seq<char>)
    ensures
        positive_int_value(flag, v) matches Ok(n) ==> 1 <= n <= i64::MAX,
{
}

/// A unit is named by its name alone, and everything else is refused with a
/// message that repeats it.
pub proof fn law_units_are_named(v: Seq<char>)
    ensures
        v == "ns"@ ==> unit_value(v) == Ok::<Unit, Seq<char>>(Unit::Ns),
        v == "us"@ ==> unit_value(v) == Ok::<Unit, Seq<char>>(Unit::Us),
        v == "ms"@ ==> unit_value(v) == Ok::<Unit, Seq<char>>(Unit::Ms),
        v == "cycles"@ ==> unit_value(v) == Ok::<Unit, Seq<char>>(Unit::Cycles),
        v != "ns"@ && v != "us"@ && v != "ms"@ && v != "cycles"@ ==> unit_value(v) == Err::<
            Unit,
            Seq<char>,
        >("unknown unit: '"@ + v + "' (expected ns, us, ms, or cycles)"@),
{
    law_unit_name_round_trip(Unit::Ns);
    law_unit_name_round_trip(Unit::Us);
    law_unit_name_round_trip(Unit::Ms);
    law_unit_name_round_trip(Unit::Cycles);
}

/// A colour mode is named by its name alone, and everything else is refused
/// with a message that repeats it.
pub proof fn law_color_modes_are_named(v: Seq<char>)
    ensures
        v == "auto"@ ==> color_value(v) == Ok::<ColorWhen, Seq<char>>(ColorWhen::Auto),
        v == "always"@ ==> color_value(v) == Ok::<ColorWhen, Seq<char>>(ColorWhen::Always),
        v == "never"@ ==> color_value(v) == Ok::<ColorWhen, Seq<char>>(ColorWhen::Never),
        v != "auto"@ && v != "always"@ && v != "never"@ ==> color_value(v) == Err::<
            ColorWhen,
            Seq<char>,
        >("unknown color mode: '"@ + v + "' (expected auto, always, or never)"@),
{
    law_color_name_round_trip(ColorWhen::Auto);
    law_color_name_round_trip(ColorWhen::Always);
    law_color_name_round_trip(ColorWhen::Never);
}

/// A text gives a number where it writes, between white space, an integer of
/// at least 1 that an `i64` holds, and gives that integer. A smaller integer is
/// refused for what it is, and everything else for being no integer.
pub proof fn law_numbers_are_integers_from_one_on(flag: Seq<char>, v: Seq<char>, n: u64)
    ensures
        ({
            let written = crate::text::integer_value(crate::text::trimmed(v));
            let answer = positive_int_value(flag, v);
            &&& answer == Ok::<u64, Seq<char>>(n) <==> written == Some(n as int) && 1 <= n
                <= i64::MAX
            &&& (written matches Some(k) && i64::MIN <= k < 1) ==> answer == Err::<u64, Seq<char>>(
                flag + " must be a positive integer (>= 1)"@,
            )
            &&& (written matches Some(k) ==> k < i64::MIN || k > i64::MAX) ==> answer == Err::<
                u64,
                Seq<char>,
            >(flag + " expects an integer, got '"@ + v + "'"@)
        }),
{
}

/// What the machine reports is what a run takes that is told nothing, and what
/// it does not report is one.
pub proof fn law_default_threads_follow_the_machine(reported: Option<usize>, r: usize)
    requires
        call_ensures(default_threads, (reported,), r),
    ensures
        reported is None ==> r == 1,
        forall|k: usize| reported == Some(k) ==> r == k,
{
}

/// The output is always coloured, never, or where it goes to a terminal, as
/// the mode says.
pub proof fn law_color_follows_the_mode(mode: ColorWhen, terminal: bool, r: bool)
    requires
        call_ensures(use_color, (mode, terminal), r),
    ensures
        mode == ColorWhen::Always ==> r,
        mode == ColorWhen::Never ==> !r,
        mode == ColorWhen::Auto ==> r == terminal,
{
}

/// A microsecond lasts a thousand nanoseconds and a millisecond a thousand
/// microseconds; cycles are no time.
pub proof fn law_units_are_multiples_of_nanoseconds(unit: Unit, r: Option<u64>)
    requires
        call_ensures(Unit::ns_per_unit, (&unit,), r),
    ensures
        unit == Unit::Ns ==> r == Some(1u64),
        unit == Unit::Us ==> r == Some(1_000u64),
        unit == Unit::Ms ==> r == Some(1_000_000u64),
        unit == Unit::Cycles ==> r is None,
{
}

} // verus!
