//! The command line.

use vstd::prelude::*;
use vstd::slice::*;
use vstd::string::*;
use vstd::utf8::*;

use crate::options::{
    parse_color_when, parse_positive_int, parse_unit, ColorWhen, Options, Unit,
};
use crate::text::same_text;

verus! {

/// What a command line asks for.
#[derive(Clone, Copy, PartialEq, Eq, Structural, Debug)]
pub enum Command {
    /// Count, as the options say.
    Run(Options),
    /// Show the help page, in the colour mode asked for up to there.
    Help(ColorWhen),
    /// Show the version.
    Version,
}

/// The options that there are.
#[derive(Clone, Copy, PartialEq, Eq, Structural, Debug)]
pub enum Flag {
    Help,
    Version,
    CountTo,
    Threads,
    Repeat,
    Quiet,
    Json,
    Unit,
    Color,
}

impl Flag {
    /// The letter of the option, behind one dash.
    pub open spec fn letter(self) -> char {
        match self {
            Flag::Help => 'h',
            Flag::Version => 'v',
            Flag::CountTo => 'c',
            Flag::Threads => 't',
            Flag::Repeat => 'r',
            Flag::Quiet => 'q',
            Flag::Json => 'j',
            Flag::Unit => 'u',
            Flag::Color => 'L',
        }
    }

    /// The word of the option, behind two dashes.
    pub open spec fn word(self) -> Seq<char> {
        match self {
            Flag::Help => "help"@,
            Flag::Version => "version"@,
            Flag::CountTo => "count-to"@,
            Flag::Threads => "threads"@,
            Flag::Repeat => "repeat"@,
            Flag::Quiet => "quiet"@,
            Flag::Json => "json"@,
            Flag::Unit => "unit"@,
            Flag::Color => "color"@,
        }
    }

    /// Whether the option is followed by a value.
    pub open spec fn needs_value(self) -> bool {
        match self {
            Flag::CountTo | Flag::Threads | Flag::Repeat | Flag::Unit | Flag::Color => true,
            Flag::Help | Flag::Version | Flag::Quiet | Flag::Json => false,
        }
    }

    /// Whether the option is followed by a value.
    pub fn takes_value(&self) -> (r: bool)
        ensures
            r == self.needs_value(),
    {
        match self {
            Flag::CountTo | Flag::Threads | Flag::Repeat | Flag::Unit | Flag::Color => true,
            Flag::Help | Flag::Version | Flag::Quiet | Flag::Json => false,
        }
    }
}

/// The option with the word `key`.
pub open spec fn flag_of_word(key: Seq<char>) -> Option<Flag> {
    if key == Flag::Help.word() {
        Some(Flag::Help)
    } else if key == Flag::Version.word() {
        Some(Flag::Version)
    } else if key == Flag::CountTo.word() {
        Some(Flag::CountTo)
    } else if key == Flag::Threads.word() {
        Some(Flag::Threads)
    } else if key == Flag::Repeat.word() {
        Some(Flag::Repeat)
    } else if key == Flag::Quiet.word() {
        Some(Flag::Quiet)
    } else if key == Flag::Json.word() {
        Some(Flag::Json)
    } else if key == Flag::Unit.word() {
        Some(Flag::Unit)
    } else if key == Flag::Color.word() {
        Some(Flag::Color)
    } else {
        None
    }
}

/// The option with the letter `c`.
pub open spec fn flag_of_letter(c: char) -> Option<Flag> {
    if c == 'h' {
        Some(Flag::Help)
    } else if c == 'v' {
        Some(Flag::Version)
    } else if c == 'c' {
        Some(Flag::CountTo)
    } else if c == 't' {
        Some(Flag::Threads)
    } else if c == 'r' {
        Some(Flag::Repeat)
    } else if c == 'q' {
        Some(Flag::Quiet)
    } else if c == 'j' {
        Some(Flag::Json)
    } else if c == 'u' {
        Some(Flag::Unit)
    } else if c == 'L' {
        Some(Flag::Color)
    } else {
        None
    }
}

/// Looks an option up by its word.
pub fn long_flag(key: &str) -> (r: Option<Flag>)
    ensures
        r == flag_of_word(key@),
{
    if same_text(key, "help") {
        Some(Flag::Help)
    } else if same_text(key, "version") {
        Some(Flag::Version)
    } else if same_text(key, "count-to") {
        Some(Flag::CountTo)
    } else if same_text(key, "threads") {
        Some(Flag::Threads)
    } else if same_text(key, "repeat") {
        Some(Flag::Repeat)
    } else if same_text(key, "quiet") {
        Some(Flag::Quiet)
    } else if same_text(key, "json") {
        Some(Flag::Json)
    } else if same_text(key, "unit") {
        Some(Flag::Unit)
    } else if same_text(key, "color") {
        Some(Flag::Color)
    } else {
        None
    }
}

/// Looks an option up by the byte of its letter.
pub fn short_flag(letter: u8) -> (r: Option<Flag>)
    ensures
        r == flag_of_letter(letter as char),
{
    match letter as char {
        'h' => Some(Flag::Help),
        'v' => Some(Flag::Version),
        'c' => Some(Flag::CountTo),
        't' => Some(Flag::Threads),
        'r' => Some(Flag::Repeat),
        'q' => Some(Flag::Quiet),
        'j' => Some(Flag::Json),
        'u' => Some(Flag::Unit),
        'L' => Some(Flag::Color),
        _ => None,
    }
}

/// `opts` once the option `flag` has been given the value `v`, or the message
/// that `v` is no value for it.
pub open spec fn with_value(opts: Options, flag: Flag, v: Seq<char>) -> Result<Options, Seq<char>> {
    match flag {
        Flag::CountTo => match crate::options::positive_int_value("--count-to"@, v) {
            Ok(n) => Ok(Options { count_to: n, ..opts }),
            Err(e) => Err(e),
        },
        Flag::Threads => match crate::options::positive_int_value("--threads"@, v) {
            Ok(n) => Ok(Options { threads: n as usize, ..opts }),
            Err(e) => Err(e),
        },
        Flag::Repeat => match crate::options::positive_int_value("--repeat"@, v) {
            Ok(n) => Ok(Options { repeat: n, ..opts }),
            Err(e) => Err(e),
        },
        Flag::Unit => match crate::options::unit_value(v) {
            Ok(u) => Ok(Options { unit: u, ..opts }),
            Err(e) => Err(e),
        },
        Flag::Color => match crate::options::color_value(v) {
            Ok(c) => Ok(Options { color: c, ..opts }),
            Err(e) => Err(e),
        },
        Flag::Help | Flag::Version | Flag::Quiet | Flag::Json => Ok(opts),
    }
}

/// Gives the option `flag` the value `v`.
pub fn set_value(opts: &mut Options, flag: Flag, v: &str) -> (r: Result<(), String>)
    ensures
        match with_value(*old(opts), flag, v@) {
            Ok(o) => r is Ok && *final(opts) == o,
            Err(e) => r is Err && r->Err_0@ == e && *final(opts) == *old(opts),
        },
{
    match flag {
        Flag::CountTo => match parse_positive_int("--count-to", v) {
            Ok(n) => opts.count_to = n,
            Err(e) => return Err(e),
        },
        Flag::Threads => match parse_positive_int("--threads", v) {
            Ok(n) => opts.threads = n as usize,
            Err(e) => return Err(e),
        },
        Flag::Repeat => match parse_positive_int("--repeat", v) {
            Ok(n) => opts.repeat = n,
            Err(e) => return Err(e),
        },
        Flag::Unit => match parse_unit(v) {
            Ok(u) => opts.unit = u,
            Err(e) => return Err(e),
        },
        Flag::Color => match parse_color_when(v) {
            Ok(c) => opts.color = c,
            Err(e) => return Err(e),
        },
        Flag::Help | Flag::Version | Flag::Quiet | Flag::Json => {},
    }
    Ok(())
}

/// The argument with the index `i`, and the empty text where there is none.
pub open spec fn text_at(args: Seq<Seq<char>>, i: int) -> Seq<char> {
    if 0 <= i < args.len() {
        args[i]
    } else {
        seq![]
    }
}

/// Where the first `=` of `s` stands; its length if it holds none.
pub open spec fn equals_at(s: Seq<char>) -> int
    decreases s.len(),
{
    if s.len() == 0 || s[0] == '=' {
        0
    } else {
        1 + equals_at(s.drop_first())
    }
}

/// What stands before the first `=` of `s`.
pub open spec fn key_of(s: Seq<char>) -> Seq<char> {
    s.take(equals_at(s))
}

/// What stands behind the first `=` of `s`, if it holds one.
pub open spec fn value_of(s: Seq<char>) -> Option<Seq<char>> {
    if equals_at(s) < s.len() {
        Some(s.skip(equals_at(s) + 1))
    } else {
        None
    }
}

/// What one argument leads to.
pub enum Step {
    /// Reading goes on with these options; the flag says whether the next
    /// argument has been read as a value.
    Next(Options, bool),
    /// Reading ends with this answer.
    Stop(Result<Command, Seq<char>>),
}

/// What the option `flag` leads to, in the argument `i`. Where it takes a
/// value, that is `inline`, or else the next argument.
pub open spec fn flag_step(
    args: Seq<Seq<char>>,
    i: int,
    opts: Options,
    flag: Flag,
    inline: Option<Seq<char>>,
) -> Step {
    match flag {
        Flag::Help => Step::Stop(Ok(Command::Help(opts.color))),
        Flag::Version => Step::Stop(Ok(Command::Version)),
        Flag::Quiet => Step::Next(Options { quiet: true, ..opts }, false),
        Flag::Json => Step::Next(Options { json: true, ..opts }, false),
        Flag::CountTo | Flag::Threads | Flag::Repeat | Flag::Unit | Flag::Color => {
            let v = match inline {
                Some(v) => v,
                None => text_at(args, i + 1),
            };
            match with_value(opts, flag, v) {
                Ok(o) => Step::Next(o, inline is None),
                Err(e) => Step::Stop(Err(e)),
            }
        },
    }
}

/// What the argument `i` leads to, where it begins with two dashes.
pub open spec fn long_step(args: Seq<Seq<char>>, i: int, opts: Options) -> Step {
    let s = args[i].skip(2);
    match flag_of_word(key_of(s)) {
        Some(flag) => flag_step(args, i, opts, flag, value_of(s)),
        None => Step::Stop(Err("unknown option: --"@ + key_of(s))),
    }
}

/// What the letters of the argument `i` from the offset `p` on lead to. An
/// option that takes a value takes the rest of the argument, if there is any.
pub open spec fn letters_step(args: Seq<Seq<char>>, i: int, opts: Options, p: int) -> Step
    decreases args[i].len() - p,
{
    let arg = args[i];
    if p >= arg.len() {
        Step::Next(opts, false)
    } else {
        match flag_of_letter(arg[p]) {
            None => Step::Stop(
                Err("unknown option: -"@.push(crate::text::first_byte(arg[p]) as char)),
            ),
            Some(flag) => {
                let rest = arg.skip(p + 1);
                let inline = if rest.len() > 0 {
                    Some(rest)
                } else {
                    None
                };
                match flag_step(args, i, opts, flag, inline) {
                    Step::Next(o, took_next) => if flag.needs_value() {
                        Step::Next(o, took_next)
                    } else {
                        letters_step(args, i, o, p + 1)
                    },
                    Step::Stop(answer) => Step::Stop(answer),
                }
            },
        }
    }
}

pub open spec fn is_long(arg: Seq<char>) -> bool {
    arg.len() >= 2 && arg[0] == '-' && arg[1] == '-'
}

pub open spec fn is_short(arg: Seq<char>) -> bool {
    arg.len() >= 2 && arg[0] == '-' && arg[1] != '-'
}

/// What the argument `i` leads to.
pub open spec fn arg_step(args: Seq<Seq<char>>, i: int, opts: Options) -> Step {
    if is_long(args[i]) {
        long_step(args, i, opts)
    } else if is_short(args[i]) {
        letters_step(args, i, opts, 1)
    } else {
        Step::Stop(Err("unexpected argument: "@ + args[i]))
    }
}

/// What the arguments from `i` on ask for, when those before them led to
/// `opts`.
pub open spec fn answer_from(args: Seq<Seq<char>>, i: int, opts: Options) -> Result<
    Command,
    Seq<char>,
>
    decreases args.len() + 1 - i,
{
    if i >= args.len() {
        Ok(Command::Run(opts))
    } else {
        match arg_step(args, i, opts) {
            Step::Next(o, took_next) => answer_from(
                args,
                if took_next {
                    i + 2
                } else {
                    i + 1
                },
                o,
            ),
            Step::Stop(answer) => answer,
        }
    }
}

/// What a whole command line asks for, on a machine that offers `threads`
/// threads.
pub open spec fn answer(args: Seq<Seq<char>>, threads: usize) -> Result<Command, Seq<char>> {
    answer_from(args, 0, Options::defaults(threads))
}

/// `r`, with the options `opts` and the argument `last` as the last one read,
/// is what `step` says of the argument `i`.
pub open spec fn follows(
    step: Step,
    r: Result<Option<Command>, String>,
    opts: Options,
    i: int,
    last: int,
) -> bool {
    match step {
        Step::Next(o, took_next) => {
            &&& r == Ok::<Option<Command>, String>(None)
            &&& opts == o
            &&& last == if took_next {
                i + 1
            } else {
                i
            }
        },
        Step::Stop(Ok(c)) => r == Ok::<Option<Command>, String>(Some(c)),
        Step::Stop(Err(e)) => r is Err && r->Err_0@ == e,
    }
}

/// The argument with the index `i`, and an empty text where there is none.
fn arg_at(raw: &[String], i: usize) -> (r: String)
    ensures
        r@ == text_at(crate::text::texts(raw@), i as int),
{
    if i < raw.len() {
        raw[i].clone()
    } else {
        String::new()
    }
}

/// The value of the option whose letter is the byte `j` of those behind the
/// dash of `arg`: the rest of `arg`, and then `j` is moved to the end of
/// `bytes`; or, where nothing is left of it, the next argument, and then `i`
/// is moved on to that.
pub fn take_inline_value(
    arg: &str,
    bytes: &[u8],
    j: &mut usize,
    raw: &[String],
    i: &mut usize,
) -> (r: String)
    requires
        is_char_boundary(encode_utf8(arg@), 2 + *old(j)),
        *old(i) < usize::MAX,
    ensures
        ({
            let rest = encode_utf8(arg@).skip(2 + *old(j));
            if rest.len() > 0 {
                &&& encode_utf8(r@) == rest
                &&& *final(j) == bytes@.len()
                &&& *final(i) == *old(i)
            } else {
                &&& r@ == text_at(crate::text::texts(raw@), *old(i) + 1)
                &&& *final(j) == *old(j)
                &&& *final(i) == *old(i) + 1
            }
        }),
{
    proof {
        encode_utf8_valid_utf8(arg@);
        lemma_boundary_in_bounds(encode_utf8(arg@), 2 + *j);
    }
    let len = arg.as_bytes().len();
    if 2 + *j < len {
        let (_, rest) = arg.split_at(2 + *j);
        *j = bytes.len();
        rest.to_owned()
    } else {
        *i += 1;
        arg_at(raw, *i)
    }
}

proof fn lemma_boundary_in_bounds(bytes: Seq<u8>, index: int)
    requires
        valid_utf8(bytes),
        is_char_boundary(bytes, index),
    ensures
        0 <= index <= bytes.len(),
{
}

/// The dashes that an argument begins with show in its first two bytes.
proof fn lemma_dashes(arg: Seq<char>)
    ensures
        ({
            let bytes = encode_utf8(arg);
            let dash = bytes.len() >= 2 && bytes[0] == '-' as u8;
            &&& is_long(arg) == (dash && bytes[1] == '-' as u8)
            &&& is_short(arg) == (dash && bytes[1] != '-' as u8)
        }),
{
    crate::text::lemma_ascii_prefix(arg, 0);
    if arg.len() > 0 {
        crate::text::lemma_first_byte(arg[0]);
        if crate::text::is_ascii_char(arg[0]) {
            crate::text::lemma_ascii_prefix(arg, 1);
            if arg.len() > 1 {
                crate::text::lemma_first_byte(arg[1]);
                if crate::text::is_ascii_char(arg[1]) {
                    crate::text::lemma_ascii_prefix(arg, 2);
                }
            }
        }
    }
}

/// The first `=` stands where a text without one ends and one follows.
proof fn lemma_equals_at(key: Seq<char>, rest: Seq<char>)
    requires
        forall|i: int| 0 <= i < key.len() ==> key[i] != '=',
        rest.len() > 0 ==> rest[0] == '=',
    ensures
        equals_at(key + rest) == key.len(),
    decreases key.len(),
{
    if key.len() == 0 {
        assert(key + rest =~= rest);
    } else {
        lemma_equals_at(key.drop_first(), rest);
        assert((key + rest).drop_first() =~= key.drop_first() + rest);
    }
}

/// Splits `s` at its first `=`.
fn split_key(s: &str) -> (r: (&str, Option<&str>))
    ensures
        r.0@ == key_of(s@),
        match r.1 {
            Some(v) => value_of(s@) == Some(v@),
            None => value_of(s@) is None,
        },
{
    let bytes = s.as_bytes();
    let mut b: usize = 0;
    while b < bytes.len() && bytes[b] != '=' as u8
        invariant
            bytes@ == encode_utf8(s@),
            b <= bytes.len(),
            forall|k: int| 0 <= k < b ==> bytes@[k] != '=' as u8,
        decreases bytes.len() - b,
    {
        b += 1;
    }
    proof {
        encode_utf8_valid_utf8(s@);
        is_char_boundary_start_end_of_seq(bytes@);
        if b < bytes.len() {
            is_char_boundary_iff_not_is_continuation_byte(bytes@, b as int);
        }
    }
    let (key, rest) = s.split_at(b);
    proof {
        crate::text::lemma_encode_concat(key@, rest@);
        assert(bytes@ =~= encode_utf8(key@) + encode_utf8(rest@));
        crate::text::lemma_encode_injective(key@ + rest@, s@);
        assert forall|i: int| 0 <= i < key@.len() implies key@[i] != '=' by {
            if key@[i] == '=' {
                crate::text::lemma_byte_of_char(key@, i);
            }
        }
        if rest@.len() > 0 {
            crate::text::lemma_first_byte(rest@[0]);
            assert(bytes@[b as int] == encode_utf8(rest@)[0]);
            assert(crate::text::first_byte(rest@[0]) == '=' as u8);
            assert(crate::text::is_ascii_char(rest@[0]));
        }
        lemma_equals_at(key@, rest@);
        assert(key_of(s@) =~= key@);
    }
    if b < bytes.len() {
        proof {
            crate::text::lemma_ascii_prefix(rest@, 1);
        }
        let (_, value) = rest.split_at(1);
        proof {
            crate::text::lemma_encode_injective(value@, rest@.skip(1));
            assert(s@.skip(equals_at(s@) + 1) =~= rest@.skip(1));
        }
        (key, Some(value))
    } else {
        (key, None)
    }
}

/// Carries out an option that takes no value.
fn set_switch(opts: &mut Options, flag: Flag) -> (r: Option<Command>)
    requires
        !flag.needs_value(),
    ensures
        forall|args: Seq<Seq<char>>, i: int, inline: Option<Seq<char>>|
            match #[trigger] flag_step(args, i, *old(opts), flag, inline) {
                Step::Next(o, took_next) => r is None && *final(opts) == o && !took_next,
                Step::Stop(answer) => r is Some && answer == Ok::<Command, Seq<char>>(r->0),
            },
{
    match flag {
        Flag::Help => Some(Command::Help(opts.color)),
        Flag::Version => Some(Command::Version),
        Flag::Quiet => {
            opts.quiet = true;
            None
        },
        _ => {
            opts.json = true;
            None
        },
    }
}

/// Reads the argument `i`, which begins with two dashes. `i` is left on the
/// last argument read.
fn read_long(raw: &[String], i: &mut usize, opts: &mut Options) -> (r: Result<
    Option<Command>,
    String,
>)
    requires
        *old(i) < raw@.len(),
        is_long(raw@[*old(i) as int]@),
    ensures
        follows(
            long_step(crate::text::texts(raw@), *old(i) as int, *old(opts)),
            r,
            *final(opts),
            *old(i) as int,
            *final(i) as int,
        ),
{
    let arg = raw[*i].as_str();
    proof {
        crate::text::lemma_ascii_prefix(arg@, 2);
    }
    let (_, key_val) = arg.split_at(2);
    proof {
        crate::text::lemma_encode_injective(key_val@, arg@.skip(2));
    }
    let (key, val) = split_key(key_val);
    match long_flag(key) {
        None => {
            let mut message = "unknown option: --".to_owned();
            message.append(key);
            Err(message)
        },
        Some(flag) => if flag.takes_value() {
            let v = match val {
                Some(v) => v.to_owned(),
                None => {
                    *i += 1;
                    arg_at(raw, *i)
                },
            };
            match set_value(opts, flag, v.as_str()) {
                Ok(()) => Ok(None),
                Err(e) => Err(e),
            }
        } else {
            Ok(set_switch(opts, flag))
        },
    }
}

/// Reads the argument `i`, which begins with one dash. `i` is left on the
/// last argument read.
fn read_letters(raw: &[String], i: &mut usize, opts: &mut Options) -> (r: Result<
    Option<Command>,
    String,
>)
    requires
        *old(i) < raw@.len(),
        is_short(raw@[*old(i) as int]@),
    ensures
        follows(
            letters_step(crate::text::texts(raw@), *old(i) as int, *old(opts), 1),
            r,
            *final(opts),
            *old(i) as int,
            *final(i) as int,
        ),
{
    let ghost args = crate::text::texts(raw@);
    let ghost at = *i as int;
    let ghost first = *opts;
    let arg = raw[*i].as_str();
    proof {
        crate::text::lemma_ascii_prefix(arg@, 1);
    }
    let (_, letters) = arg.split_at(1);
    let bytes = letters.as_bytes();
    let mut j: usize = 0;
    assert(bytes.len() + 1 == encode_utf8(arg@).len());
    while j < bytes.len()
        invariant
            *i == at < raw.len(),
            at == *old(i),
            first == *old(opts),
            args == crate::text::texts(raw@),
            args[at] == arg@,
            bytes@ == encode_utf8(arg@).skip(1),
            encode_utf8(arg@).len() == bytes@.len() + 1,
            j <= bytes.len(),
            1 + j <= arg@.len(),
            forall|k: int| 0 <= k < 1 + j ==> crate::text::is_ascii_char(#[trigger] arg@[k]),
            letters_step(args, at, first, 1) == letters_step(args, at, *opts, 1 + j),
        decreases bytes.len() - j,
    {
        proof {
            crate::text::lemma_ascii_prefix(arg@, 1 + j);
            crate::text::lemma_first_byte(arg@[1 + j]);
        }
        match short_flag(bytes[j]) {
            None => {
                let mut message = "unknown option: -".to_owned();
                message.push(bytes[j] as char);
                return Err(message);
            },
            Some(flag) => {
                proof {
                    crate::text::lemma_ascii_prefix(arg@, 2 + j);
                }
                if flag.takes_value() {
                    let ghost rest = arg@.skip(2 + j);
                    let v = take_inline_value(arg, bytes, &mut j, raw, i);
                    proof {
                        if *i == at {
                            crate::text::lemma_encode_injective(v@, rest);
                        }
                    }
                    return match set_value(opts, flag, v.as_str()) {
                        Ok(()) => Ok(None),
                        Err(e) => Err(e),
                    };
                }
                if let Some(command) = set_switch(opts, flag) {
                    return Ok(Some(command));
                }
            },
        }
        j += 1;
    }
    proof {
        crate::text::lemma_ascii_prefix(arg@, 1 + j);
    }
    Ok(None)
}

/// Reads a command line. `threads` is how many threads the machine offers.
pub fn parse_args_from(raw: &[String], threads: usize) -> (r: Result<Command, String>)
    ensures
        crate::text::text_result(r) == answer(crate::text::texts(raw@), threads),
{
    let ghost args = crate::text::texts(raw@);
    let mut opts = Options::with_threads(threads);
    let mut i: usize = 0;
    while i < raw.len()
        invariant
            i <= raw.len(),
            args == crate::text::texts(raw@),
            answer(args, threads) == answer_from(args, i as int, opts),
        decreases raw.len() - i,
    {
        let arg = raw[i].as_str().as_bytes();
        proof {
            lemma_dashes(raw@[i as int]@);
        }
        let read = if arg.len() >= 2 && arg[0] == '-' as u8 {
            if arg[1] == '-' as u8 {
                read_long(raw, &mut i, &mut opts)
            } else {
                read_letters(raw, &mut i, &mut opts)
            }
        } else {
            let mut message = "unexpected argument: ".to_owned();
            message.append(raw[i].as_str());
            Err(message)
        };
        match read {
            Err(e) => return Err(e),
            Ok(Some(command)) => return Ok(command),
            Ok(None) => {},
        }
        if i < raw.len() {
            i += 1;
        }
        assert(answer(args, threads) == answer_from(args, i as int, opts)) by {
            reveal_with_fuel(answer_from, 2);
        }
    }
    Ok(Command::Run(opts))
}

proof fn lemma_words(flag: Flag)
    ensures
        flag_of_word(flag.word()) == Some(flag),
        flag.word().len() > 0,
        forall|k: int| 0 <= k < flag.word().len() ==> flag.word()[k] != '=',
{
    reveal_strlit("help");
    reveal_strlit("version");
    reveal_strlit("count-to");
    reveal_strlit("threads");
    reveal_strlit("repeat");
    reveal_strlit("quiet");
    reveal_strlit("json");
    reveal_strlit("unit");
    reveal_strlit("color");
    assert("help"@[0] == 'h' && "version"@[0] == 'v' && "count-to"@.len() == 8 && "threads"@[0]
        == 't' && "repeat"@[0] == 'r' && "quiet"@[0] == 'q' && "json"@[0] == 'j' && "unit"@[0]
        == 'u' && "color"@.len() == 5 && "color"@[0] == 'c' && "count-to"@[0] == 'c');
}

/// Every option is found by its word and by its letter, and by no other.
pub proof fn law_flags_are_found(flag: Flag, key: Seq<char>, c: char)
    ensures
        flag_of_word(key) == Some(flag) <==> key == flag.word(),
        flag_of_letter(c) == Some(flag) <==> c == flag.letter(),
{
    lemma_words(flag);
}

/// A command line without arguments asks for a run with the defaults: one
/// trial that counts to one with the threads that the machine offers, in
/// words, in nanoseconds and in colour on a terminal.
pub proof fn law_no_arguments(threads: usize)
    ensures
        answer(seq![], threads) == Ok::<Command, Seq<char>>(
            Command::Run(
                Options {
                    count_to: 1,
                    threads,
                    repeat: 1,
                    quiet: false,
                    json: false,
                    unit: Unit::Ns,
                    color: ColorWhen::Auto,
                },
            ),
        ),
        answer(seq![], threads) == Ok::<Command, Seq<char>>(
            Command::Run(Options::defaults(threads)),
        ),
{
}

proof fn lemma_letters_keep_well_formed(args: Seq<Seq<char>>, i: int, opts: Options, p: int)
    requires
        opts.well_formed(),
    ensures
        letters_step(args, i, opts, p) matches Step::Next(o, _) ==> o.well_formed(),
        opts.threads >= 1 && usize::MAX >= i64::MAX ==> (letters_step(
            args,
            i,
            opts,
            p,
        ) matches Step::Next(o, _) ==> o.threads >= 1),
        opts.threads <= i64::MAX ==> (letters_step(args, i, opts, p) matches Step::Next(o, _)
            ==> o.threads <= i64::MAX),
    decreases args[i].len() - p,
{
    if p < args[i].len() {
        if let Some(flag) = flag_of_letter(args[i][p]) {
            if flag == Flag::Quiet {
                lemma_letters_keep_well_formed(args, i, Options { quiet: true, ..opts }, p + 1);
            } else if flag == Flag::Json {
                lemma_letters_keep_well_formed(args, i, Options { json: true, ..opts }, p + 1);
            }
        }
    }
}

proof fn lemma_answer_well_formed(args: Seq<Seq<char>>, i: int, opts: Options)
    requires
        opts.well_formed(),
        0 <= i,
    ensures
        answer_from(args, i, opts) matches Ok(Command::Run(o)) ==> {
            &&& o.well_formed()
            &&& opts.threads >= 1 && usize::MAX >= i64::MAX ==> o.threads >= 1
            &&& opts.threads <= i64::MAX ==> o.threads <= i64::MAX
        },
    decreases args.len() + 1 - i,
{
    if i < args.len() {
        lemma_letters_keep_well_formed(args, i, opts, 1);
        lemma_stop_is_no_run(args, i, opts);
        if let Step::Next(o, took_next) = arg_step(args, i, opts) {
            if took_next {
                lemma_answer_well_formed(args, i + 2, o);
            } else {
                lemma_answer_well_formed(args, i + 1, o);
            }
        }
    }
}

/// Whatever the command line, a run that it asks for counts to at least one
/// in at least one trial, and, on a machine that offers a thread and whose
/// words hold an `i64`, with at least one thread. Where the machine offers no
/// more threads than an `i64` holds, the run takes no more than that.
pub proof fn law_runs_are_well_formed(args: Seq<Seq<char>>, threads: usize)
    ensures
        answer(args, threads) matches Ok(Command::Run(o)) ==> {
            &&& o.well_formed()
            &&& threads >= 1 && usize::MAX >= i64::MAX ==> o.threads >= 1
            &&& threads <= i64::MAX ==> o.threads <= i64::MAX
        },
{
    lemma_answer_well_formed(args, 0, Options::defaults(threads));
}

/// Both steps go on in the same way, or both end, and where one ends with an
/// error the other ends with the same.
spec fn same_course(a: Step, b: Step) -> bool {
    match (a, b) {
        (Step::Next(_, took), Step::Next(_, took_too)) => took == took_too,
        (Step::Stop(Ok(_)), Step::Stop(Ok(_))) => true,
        (Step::Stop(Err(e)), Step::Stop(Err(f))) => e == f,
        _ => false,
    }
}

proof fn lemma_letters_same_course(
    args: Seq<Seq<char>>,
    i: int,
    opts: Options,
    others: Options,
    p: int,
)
    ensures
        same_course(letters_step(args, i, opts, p), letters_step(args, i, others, p)),
    decreases args[i].len() - p,
{
    if p < args[i].len() {
        if let Some(flag) = flag_of_letter(args[i][p]) {
            if flag == Flag::Quiet {
                lemma_letters_same_course(
                    args,
                    i,
                    Options { quiet: true, ..opts },
                    Options { quiet: true, ..others },
                    p + 1,
                );
            } else if flag == Flag::Json {
                lemma_letters_same_course(
                    args,
                    i,
                    Options { json: true, ..opts },
                    Options { json: true, ..others },
                    p + 1,
                );
            }
        }
    }
}

/// Whether the arguments from `i` on are refused, and with which message, rests
/// on the arguments alone, not on the options they start from.
pub proof fn law_errors_rest_on_the_arguments(
    args: Seq<Seq<char>>,
    i: int,
    opts: Options,
    others: Options,
)
    ensures
        answer_from(args, i, opts) is Err <==> answer_from(args, i, others) is Err,
        answer_from(args, i, opts) is Err ==> answer_from(args, i, opts)->Err_0 == answer_from(
            args,
            i,
            others,
        )->Err_0,
    decreases args.len() + 1 - i,
{
    if i < args.len() {
        lemma_letters_same_course(args, i, opts, others, 1);
        assert(same_course(arg_step(args, i, opts), arg_step(args, i, others)));
        if let Step::Next(o, took_next) = arg_step(args, i, opts) {
            if let Step::Next(q, _) = arg_step(args, i, others) {
                law_errors_rest_on_the_arguments(
                    args,
                    if took_next {
                        i + 2
                    } else {
                        i + 1
                    },
                    o,
                    q,
                );
            }
        }
    }
}

/// The letter form of an option, with what follows in the same argument.
pub open spec fn letter_arg(flag: Flag, rest: Seq<char>) -> Seq<char> {
    seq!['-', flag.letter()] + rest
}

/// The word form of an option without a value in the same argument.
pub open spec fn word_arg(flag: Flag) -> Seq<char> {
    seq!['-', '-'] + flag.word()
}

/// The word form of an option with a value in the same argument.
pub open spec fn word_value_arg(flag: Flag, v: Seq<char>) -> Seq<char> {
    seq!['-', '-'] + flag.word() + seq!['='] + v
}

proof fn lemma_word_forms(args: Seq<Seq<char>>, i: int, opts: Options, flag: Flag, v: Seq<char>)
    ensures
        args[i] == word_arg(flag) ==> arg_step(args, i, opts) == flag_step(
            args,
            i,
            opts,
            flag,
            None,
        ),
        args[i] == word_value_arg(flag, v) ==> arg_step(args, i, opts) == flag_step(
            args,
            i,
            opts,
            flag,
            Some(v),
        ),
{
    lemma_words(flag);
    let w = flag.word();
    assert(word_arg(flag).skip(2) =~= w + seq![]);
    lemma_equals_at(w, seq![]);
    assert(key_of(w + seq![]) =~= w);
    let tail = seq!['='] + v;
    assert(word_value_arg(flag, v).skip(2) =~= w + tail);
    lemma_equals_at(w, tail);
    assert(key_of(w + tail) =~= w);
    assert((w + tail).skip(w.len() as int + 1) =~= v);
}

proof fn lemma_letter_forms(args: Seq<Seq<char>>, i: int, opts: Options, flag: Flag, v: Seq<char>)
    requires
        v.len() > 0,
    ensures
        args[i] == letter_arg(flag, seq![]) ==> arg_step(args, i, opts) == flag_step(
            args,
            i,
            opts,
            flag,
            None,
        ),
        args[i] == letter_arg(flag, v) && flag.needs_value() ==> arg_step(args, i, opts)
            == flag_step(args, i, opts, flag, Some(v)),
{
    if args[i] == letter_arg(flag, seq![]) {
        reveal_with_fuel(letters_step, 2);
    }
    assert(letter_arg(flag, v).skip(2) =~= v);
}

proof fn lemma_letters_suffix(args: Seq<Seq<char>>, i: int, opts: Options, p: int)
    requires
        0 <= i < args.len(),
    ensures
        letters_step(args, i, opts, p) == letters_step(args.skip(i), 0, opts, p),
    decreases args[i].len() - p,
{
    if p < args[i].len() {
        if let Some(flag) = flag_of_letter(args[i][p]) {
            if flag == Flag::Quiet {
                lemma_letters_suffix(args, i, Options { quiet: true, ..opts }, p + 1);
            } else if flag == Flag::Json {
                lemma_letters_suffix(args, i, Options { json: true, ..opts }, p + 1);
            }
        }
    }
}

/// What the arguments from `i` on ask for rests on them and on the options
/// they start from alone.
pub proof fn law_only_what_follows_counts(args: Seq<Seq<char>>, i: int, opts: Options)
    requires
        0 <= i <= args.len(),
    ensures
        answer_from(args, i, opts) == answer_from(args.skip(i), 0, opts),
    decreases args.len() - i,
{
    if i < args.len() {
        let tail = args.skip(i);
        lemma_letters_suffix(args, i, opts, 1);
        assert(arg_step(args, i, opts) == arg_step(tail, 0, opts));
        if let Step::Next(o, took_next) = arg_step(args, i, opts) {
            let used: int = if took_next {
                2
            } else {
                1
            };
            if i + used <= args.len() {
                law_only_what_follows_counts(args, i + used, o);
                law_only_what_follows_counts(tail, used, o);
                assert(tail.skip(used) =~= args.skip(i + used));
            } else {
                reveal_with_fuel(answer_from, 2);
            }
        }
    }
}

/// `--help` and `-h` are answered at once, in the colour mode asked for so
/// far, and `--version` and `-v` too: nothing behind them is read.
pub proof fn law_help_and_version_are_answered_at_once(
    args: Seq<Seq<char>>,
    i: int,
    opts: Options,
)
    requires
        0 <= i < args.len(),
    ensures
        args[i] == "--help"@ || args[i] == "-h"@ ==> answer_from(args, i, opts) == Ok::<
            Command,
            Seq<char>,
        >(Command::Help(opts.color)),
        args[i] == "--version"@ || args[i] == "-v"@ ==> answer_from(args, i, opts) == Ok::<
            Command,
            Seq<char>,
        >(Command::Version),
{
    reveal_strlit("--help");
    reveal_strlit("-h");
    reveal_strlit("--version");
    reveal_strlit("-v");
    reveal_strlit("help");
    reveal_strlit("version");
    lemma_word_forms(args, i, opts, Flag::Help, seq![]);
    lemma_word_forms(args, i, opts, Flag::Version, seq![]);
    lemma_letter_forms(args, i, opts, Flag::Help, seq!['=']);
    lemma_letter_forms(args, i, opts, Flag::Version, seq!['=']);
    assert("--help"@ =~= word_arg(Flag::Help));
    assert("--version"@ =~= word_arg(Flag::Version));
    assert("-h"@ =~= letter_arg(Flag::Help, seq![]));
    assert("-v"@ =~= letter_arg(Flag::Version, seq![]));
}

/// What a command line asks for that gives the option `flag` the value `v`
/// and goes on with `rest`.
pub open spec fn answer_given(
    flag: Flag,
    v: Seq<char>,
    rest: Seq<Seq<char>>,
    opts: Options,
) -> Result<Command, Seq<char>> {
    match with_value(opts, flag, v) {
        Ok(o) => answer_from(rest, 0, o),
        Err(e) => Err(e),
    }
}

/// An option takes its value in four ways that come to the same: behind its
/// word, behind its letter, behind its word and a `=`, and, unless it is
/// empty, right behind its letter.
pub proof fn law_forms_of_a_value_agree(
    flag: Flag,
    v: Seq<char>,
    rest: Seq<Seq<char>>,
    opts: Options,
)
    requires
        flag.needs_value(),
    ensures
        answer_from(seq![word_arg(flag), v] + rest, 0, opts) == answer_given(flag, v, rest, opts),
        answer_from(seq![letter_arg(flag, seq![]), v] + rest, 0, opts) == answer_given(
            flag,
            v,
            rest,
            opts,
        ),
        answer_from(seq![word_value_arg(flag, v)] + rest, 0, opts) == answer_given(
            flag,
            v,
            rest,
            opts,
        ),
        v.len() > 0 ==> answer_from(seq![letter_arg(flag, v)] + rest, 0, opts) == answer_given(
            flag,
            v,
            rest,
            opts,
        ),
{
    let some: Seq<char> = if v.len() > 0 {
        v
    } else {
        seq!['=']
    };
    let a = seq![word_arg(flag), v] + rest;
    let b = seq![letter_arg(flag, seq![]), v] + rest;
    let c = seq![word_value_arg(flag, v)] + rest;
    let d = seq![letter_arg(flag, v)] + rest;
    lemma_word_forms(a, 0, opts, flag, v);
    lemma_letter_forms(b, 0, opts, flag, some);
    lemma_word_forms(c, 0, opts, flag, v);
    lemma_letter_forms(d, 0, opts, flag, some);
    if let Ok(o) = with_value(opts, flag, v) {
        law_only_what_follows_counts(a, 2, o);
        law_only_what_follows_counts(b, 2, o);
        law_only_what_follows_counts(c, 1, o);
        law_only_what_follows_counts(d, 1, o);
        assert(a.skip(2) =~= rest);
        assert(b.skip(2) =~= rest);
        assert(c.skip(1) =~= rest);
        assert(d.skip(1) =~= rest);
    }
}

/// Of two values given to one option the last one counts.
pub proof fn law_last_value_counts(
    flag: Flag,
    v: Seq<char>,
    w: Seq<char>,
    rest: Seq<Seq<char>>,
    opts: Options,
)
    requires
        flag.needs_value(),
        with_value(opts, flag, v) is Ok,
    ensures
        answer_from(seq![word_arg(flag), v, word_arg(flag), w] + rest, 0, opts) == answer_from(
            seq![word_arg(flag), w] + rest,
            0,
            opts,
        ),
{
    let later = seq![word_arg(flag), w] + rest;
    assert(seq![word_arg(flag), v, word_arg(flag), w] + rest =~= seq![word_arg(flag), v] + later);
    law_forms_of_a_value_agree(flag, v, later, opts);
    law_forms_of_a_value_agree(flag, w, rest, opts);
    law_forms_of_a_value_agree(flag, w, rest, with_value(opts, flag, v)->Ok_0);
}

/// Where the number of threads is given, what the machine offers does not
/// matter.
pub proof fn law_given_threads_hide_the_machine(
    v: Seq<char>,
    rest: Seq<Seq<char>>,
    one: usize,
    other: usize,
)
    ensures
        answer(seq![word_arg(Flag::Threads), v] + rest, one) == answer(
            seq![word_arg(Flag::Threads), v] + rest,
            other,
        ),
{
    law_forms_of_a_value_agree(Flag::Threads, v, rest, Options::defaults(one));
    law_forms_of_a_value_agree(Flag::Threads, v, rest, Options::defaults(other));
}

proof fn lemma_letters_move(
    args: Seq<Seq<char>>,
    i: int,
    p: int,
    other: Seq<Seq<char>>,
    k: int,
    q: int,
    opts: Options,
)
    requires
        0 <= i < args.len(),
        0 <= k < other.len(),
        0 <= p <= args[i].len(),
        0 <= q <= other[k].len(),
        args[i].skip(p) == other[k].skip(q),
        args.skip(i + 1) == other.skip(k + 1),
    ensures
        letters_step(args, i, opts, p) == letters_step(other, k, opts, q),
    decreases args[i].len() - p,
{
    assert(args[i].skip(p).len() == args[i].len() - p);
    assert(other[k].skip(q).len() == other[k].len() - q);
    if p < args[i].len() {
        assert(args[i][p] == args[i].skip(p)[0]);
        assert(other[k][q] == other[k].skip(q)[0]);
        assert(args[i].skip(p + 1) =~= args[i].skip(p).skip(1));
        assert(other[k].skip(q + 1) =~= other[k].skip(q).skip(1));
        assert(args.skip(i + 1).len() == args.len() - (i + 1));
        assert(other.skip(k + 1).len() == other.len() - (k + 1));
        if i + 1 < args.len() {
            assert(args[i + 1] == args.skip(i + 1)[0]);
            assert(other[k + 1] == other.skip(k + 1)[0]);
        }
        assert(text_at(args, i + 1) == text_at(other, k + 1));
        lemma_letters_move(args, i, p + 1, other, k, q + 1, Options { quiet: true, ..opts });
        lemma_letters_move(args, i, p + 1, other, k, q + 1, Options { json: true, ..opts });
    }
}

/// Letters may share one dash: behind an option that takes no value and does
/// not end the reading, the letters that follow it mean what they mean behind
/// a dash of their own.
pub proof fn law_letters_share_a_dash(
    flag: Flag,
    letters: Seq<char>,
    rest: Seq<Seq<char>>,
    opts: Options,
)
    requires
        flag == Flag::Quiet || flag == Flag::Json,
        letters.len() > 0,
        letters[0] != '-',
    ensures
        answer_from(seq![letter_arg(flag, letters)] + rest, 0, opts) == answer_from(
            seq![letter_arg(flag, seq![]), seq!['-'] + letters] + rest,
            0,
            opts,
        ),
{
    let joined = seq![letter_arg(flag, letters)] + rest;
    let apart = seq![letter_arg(flag, seq![]), seq!['-'] + letters] + rest;
    let o = if flag == Flag::Quiet {
        Options { quiet: true, ..opts }
    } else {
        Options { json: true, ..opts }
    };
    lemma_letter_forms(apart, 0, opts, flag, letters);
    assert(joined[0].skip(2) =~= letters);
    assert(apart[1].skip(1) =~= letters);
    assert(joined.skip(1) =~= rest);
    assert(apart.skip(2) =~= rest);
    lemma_letters_move(joined, 0, 2, apart, 1, 1, o);
    assert(arg_step(joined, 0, opts) == letters_step(joined, 0, o, 2));
    assert(arg_step(apart, 1, o) == letters_step(apart, 1, o, 1));
    assert(answer_from(apart, 0, opts) == answer_from(apart, 1, o));
    if let Step::Next(next, took_next) = arg_step(apart, 1, o) {
        if took_next && rest.len() == 0 {
            reveal_with_fuel(answer_from, 2);
        } else {
            let used: int = if took_next {
                2
            } else {
                1
            };
            law_only_what_follows_counts(joined, used, next);
            law_only_what_follows_counts(apart, used + 1, next);
            assert(joined.skip(used) =~= apart.skip(used + 1));
        }
    }
}

/// No option takes the empty text as its value.
proof fn lemma_empty_value(opts: Options, flag: Flag)
    requires
        flag.needs_value(),
    ensures
        with_value(opts, flag, seq![]) is Err,
{
    let empty = Seq::<char>::empty();
    reveal_strlit("ns");
    reveal_strlit("us");
    reveal_strlit("ms");
    reveal_strlit("cycles");
    reveal_strlit("auto");
    reveal_strlit("always");
    reveal_strlit("never");
    assert(empty.len() != "ns"@.len() && empty.len() != "us"@.len() && empty.len() != "ms"@.len()
        && empty.len() != "cycles"@.len());
    assert(empty.len() != "auto"@.len() && empty.len() != "always"@.len() && empty.len()
        != "never"@.len());
    assert(crate::text::i64_value(crate::text::trimmed(empty)) is None);
}

/// Where an option in the argument `i` of `a` lets the reading go on, it does
/// the same with more arguments behind `a`.
proof fn lemma_flag_step_extends(
    a: Seq<Seq<char>>,
    b: Seq<Seq<char>>,
    i: int,
    opts: Options,
    flag: Flag,
    inline: Option<Seq<char>>,
)
    requires
        0 <= i < a.len(),
        flag_step(a, i, opts, flag, inline) is Next,
    ensures
        flag_step(a + b, i, opts, flag, inline) == flag_step(a, i, opts, flag, inline),
        flag_step(a, i, opts, flag, inline) matches Step::Next(_, took_next) ==> took_next ==> i + 1
            < a.len(),
{
    if flag.needs_value() && inline is None {
        lemma_empty_value(opts, flag);
    }
}

proof fn lemma_letters_extend(
    a: Seq<Seq<char>>,
    b: Seq<Seq<char>>,
    i: int,
    opts: Options,
    p: int,
)
    requires
        0 <= i < a.len(),
        letters_step(a, i, opts, p) is Next,
    ensures
        letters_step(a + b, i, opts, p) == letters_step(a, i, opts, p),
        letters_step(a, i, opts, p) matches Step::Next(_, took_next) ==> took_next ==> i + 1
            < a.len(),
    decreases a[i].len() - p,
{
    if p < a[i].len() {
        if let Some(flag) = flag_of_letter(a[i][p]) {
            let rest = a[i].skip(p + 1);
            let inline = if rest.len() > 0 {
                Some(rest)
            } else {
                None
            };
            lemma_flag_step_extends(a, b, i, opts, flag, inline);
            if !flag.needs_value() {
                lemma_letters_extend(a, b, i, flag_step(a, i, opts, flag, inline)->Next_0, p + 1);
            }
        }
    }
}

proof fn lemma_prefix_is_read_first(
    a: Seq<Seq<char>>,
    b: Seq<Seq<char>>,
    i: int,
    opts: Options,
    o: Options,
)
    requires
        0 <= i <= a.len(),
        answer_from(a, i, opts) == Ok::<Command, Seq<char>>(Command::Run(o)),
    ensures
        answer_from(a + b, i, opts) == answer_from(b, 0, o),
    decreases a.len() - i,
{
    if i == a.len() {
        law_only_what_follows_counts(a + b, i, o);
        assert((a + b).skip(i) =~= b);
    } else {
        lemma_stop_is_no_run(a, i, opts);
        if is_long(a[i]) {
            let s = a[i].skip(2);
            lemma_flag_step_extends(
                a,
                b,
                i,
                opts,
                flag_of_word(key_of(s))->0,
                value_of(s),
            );
        } else {
            lemma_letters_extend(a, b, i, opts, 1);
        }
        assert(arg_step(a + b, i, opts) == arg_step(a, i, opts));
        if let Step::Next(next, took_next) = arg_step(a, i, opts) {
            if took_next {
                lemma_prefix_is_read_first(a, b, i + 2, next, o);
            } else {
                lemma_prefix_is_read_first(a, b, i + 1, next, o);
            }
        }
    }
}

/// An argument that ends the reading does not ask for a run.
proof fn lemma_stop_is_no_run(args: Seq<Seq<char>>, i: int, opts: Options)
    requires
        0 <= i < args.len(),
    ensures
        arg_step(args, i, opts) matches Step::Stop(Ok(c)) ==> c !is Run,
{
    lemma_letters_stop_is_no_run(args, i, opts, 1);
}

proof fn lemma_letters_stop_is_no_run(args: Seq<Seq<char>>, i: int, opts: Options, p: int)
    ensures
        letters_step(args, i, opts, p) matches Step::Stop(Ok(c)) ==> c !is Run,
    decreases args[i].len() - p,
{
    if p < args[i].len() {
        if let Some(flag) = flag_of_letter(args[i][p]) {
            if flag == Flag::Quiet {
                lemma_letters_stop_is_no_run(args, i, Options { quiet: true, ..opts }, p + 1);
            } else if flag == Flag::Json {
                lemma_letters_stop_is_no_run(args, i, Options { json: true, ..opts }, p + 1);
            }
        }
    }
}

/// A command line may be read in pieces: where its first arguments alone ask
/// for a run, the rest is read from the options of that run on.
pub proof fn law_reading_goes_on_from_a_run(
    a: Seq<Seq<char>>,
    b: Seq<Seq<char>>,
    opts: Options,
    o: Options,
)
    requires
        answer_from(a, 0, opts) == Ok::<Command, Seq<char>>(Command::Run(o)),
    ensures
        answer_from(a + b, 0, opts) == answer_from(b, 0, o),
{
    lemma_prefix_is_read_first(a, b, 0, opts, o);
}

/// The exit status for a command line: 2 where it is refused, else 0.
pub fn exit_code(parsed: &Result<Command, String>) -> (r: i32)
    ensures
        r == (if parsed is Err {
            2i32
        } else {
            0i32
        }),
{
    match parsed {
        Ok(_) => 0,
        Err(_) => 2,
    }
}

/// Whichever way the option with these two spellings is given the value `v`,
/// before the arguments `rest`, the answer is `r`: the value stands behind the
/// short spelling, behind the long one, behind the long one and a `=`, or,
/// unless it is empty, right behind the short one.
pub open spec fn answered_in_every_form(
    short: Seq<char>,
    long: Seq<char>,
    v: Seq<char>,
    rest: Seq<Seq<char>>,
    opts: Options,
    r: Result<Command, Seq<char>>,
) -> bool {
    &&& answer_from(seq![short, v] + rest, 0, opts) == r
    &&& answer_from(seq![long, v] + rest, 0, opts) == r
    &&& answer_from(seq![long + seq!['='] + v] + rest, 0, opts) == r
    &&& v.len() > 0 ==> answer_from(seq![short + v] + rest, 0, opts) == r
}

proof fn lemma_answered_in_every_form(
    flag: Flag,
    short: Seq<char>,
    long: Seq<char>,
    v: Seq<char>,
    rest: Seq<Seq<char>>,
    opts: Options,
)
    requires
        flag.needs_value(),
        short =~= letter_arg(flag, seq![]),
        long =~= word_arg(flag),
    ensures
        answered_in_every_form(short, long, v, rest, opts, answer_given(flag, v, rest, opts)),
{
    law_forms_of_a_value_agree(flag, v, rest, opts);
    assert(short + v =~= letter_arg(flag, v));
    assert(long + seq!['='] + v =~= word_value_arg(flag, v));
}

/// The number given to `-c` or `--count-to` becomes what is counted to, and
/// nothing else changes; a text that gives no such number is refused.
pub proof fn law_count_to_is_taken(v: Seq<char>, n: u64, rest: Seq<Seq<char>>, opts: Options)
    ensures
        ({
            let written = crate::text::integer_value(crate::text::trimmed(v));
            &&& written == Some(n as int) && 1 <= n <= i64::MAX ==> answered_in_every_form(
                "-c"@,
                "--count-to"@,
                v,
                rest,
                opts,
                answer_from(rest, 0, Options { count_to: n, ..opts }),
            )
            &&& (written matches Some(k) && i64::MIN <= k < 1) ==> answered_in_every_form(
                "-c"@,
                "--count-to"@,
                v,
                rest,
                opts,
                Err("--count-to"@ + " must be a positive integer (>= 1)"@),
            )
            &&& (written matches Some(k) ==> k < i64::MIN || k > i64::MAX)
                ==> answered_in_every_form(
                "-c"@,
                "--count-to"@,
                v,
                rest,
                opts,
                Err("--count-to"@ + " expects an integer, got '"@ + v + "'"@),
            )
        }),
{
    assert("-c"@ =~= letter_arg(Flag::CountTo, seq![])) by {
        reveal_strlit("-c");
    }
    assert("--count-to"@ =~= word_arg(Flag::CountTo)) by {
        reveal_strlit("--count-to");
        reveal_strlit("count-to");
    }
    lemma_answered_in_every_form(Flag::CountTo, "-c"@, "--count-to"@, v, rest, opts);
    crate::options::law_numbers_are_integers_from_one_on("--count-to"@, v, n);
}

/// The number given to `-t` or `--threads` becomes the number of threads, as
/// far as the machine can hold it, and nothing else changes; a text that gives
/// no such number is refused.
pub proof fn law_threads_are_taken(v: Seq<char>, n: u64, rest: Seq<Seq<char>>, opts: Options)
    ensures
        ({
            let written = crate::text::integer_value(crate::text::trimmed(v));
            &&& written == Some(n as int) && 1 <= n <= i64::MAX && n <= usize::MAX
                ==> answered_in_every_form(
                "-t"@,
                "--threads"@,
                v,
                rest,
                opts,
                answer_from(rest, 0, Options { threads: n as usize, ..opts }),
            )
            &&& (written matches Some(k) && i64::MIN <= k < 1) ==> answered_in_every_form(
                "-t"@,
                "--threads"@,
                v,
                rest,
                opts,
                Err("--threads"@ + " must be a positive integer (>= 1)"@),
            )
            &&& (written matches Some(k) ==> k < i64::MIN || k > i64::MAX)
                ==> answered_in_every_form(
                "-t"@,
                "--threads"@,
                v,
                rest,
                opts,
                Err("--threads"@ + " expects an integer, got '"@ + v + "'"@),
            )
        }),
{
    assert("-t"@ =~= letter_arg(Flag::Threads, seq![])) by {
        reveal_strlit("-t");
    }
    assert("--threads"@ =~= word_arg(Flag::Threads)) by {
        reveal_strlit("--threads");
        reveal_strlit("threads");
    }
    lemma_answered_in_every_form(Flag::Threads, "-t"@, "--threads"@, v, rest, opts);
    crate::options::law_numbers_are_integers_from_one_on("--threads"@, v, n);
}

/// The number given to `-r` or `--repeat` becomes the number of trials, and
/// nothing else changes; a text that gives no such number is refused.
pub proof fn law_repeat_is_taken(v: Seq<char>, n: u64, rest: Seq<Seq<char>>, opts: Options)
    ensures
        ({
            let written = crate::text::integer_value(crate::text::trimmed(v));
            &&& written == Some(n as int) && 1 <= n <= i64::MAX ==> answered_in_every_form(
                "-r"@,
                "--repeat"@,
                v,
                rest,
                opts,
                answer_from(rest, 0, Options { repeat: n, ..opts }),
            )
            &&& (written matches Some(k) && i64::MIN <= k < 1) ==> answered_in_every_form(
                "-r"@,
                "--repeat"@,
                v,
                rest,
                opts,
                Err("--repeat"@ + " must be a positive integer (>= 1)"@),
            )
            &&& (written matches Some(k) ==> k < i64::MIN || k > i64::MAX)
                ==> answered_in_every_form(
                "-r"@,
                "--repeat"@,
                v,
                rest,
                opts,
                Err("--repeat"@ + " expects an integer, got '"@ + v + "'"@),
            )
        }),
{
    assert("-r"@ =~= letter_arg(Flag::Repeat, seq![])) by {
        reveal_strlit("-r");
    }
    assert("--repeat"@ =~= word_arg(Flag::Repeat)) by {
        reveal_strlit("--repeat");
        reveal_strlit("repeat");
    }
    lemma_answered_in_every_form(Flag::Repeat, "-r"@, "--repeat"@, v, rest, opts);
    crate::options::law_numbers_are_integers_from_one_on("--repeat"@, v, n);
}

/// The unit named behind `-u` or `--unit` becomes the unit, and nothing else
/// changes; any other text is refused.
pub proof fn law_unit_is_taken(v: Seq<char>, rest: Seq<Seq<char>>, opts: Options)
    ensures
        v == "ns"@ ==> answered_in_every_form(
            "-u"@,
            "--unit"@,
            v,
            rest,
            opts,
            answer_from(rest, 0, Options { unit: Unit::Ns, ..opts }),
        ),
        v == "us"@ ==> answered_in_every_form(
            "-u"@,
            "--unit"@,
            v,
            rest,
            opts,
            answer_from(rest, 0, Options { unit: Unit::Us, ..opts }),
        ),
        v == "ms"@ ==> answered_in_every_form(
            "-u"@,
            "--unit"@,
            v,
            rest,
            opts,
            answer_from(rest, 0, Options { unit: Unit::Ms, ..opts }),
        ),
        v == "cycles"@ ==> answered_in_every_form(
            "-u"@,
            "--unit"@,
            v,
            rest,
            opts,
            answer_from(rest, 0, Options { unit: Unit::Cycles, ..opts }),
        ),
        v != "ns"@ && v != "us"@ && v != "ms"@ && v != "cycles"@ ==> answered_in_every_form(
            "-u"@,
            "--unit"@,
            v,
            rest,
            opts,
            Err("unknown unit: '"@ + v + "' (expected ns, us, ms, or cycles)"@),
        ),
{
    assert("-u"@ =~= letter_arg(Flag::Unit, seq![])) by {
        reveal_strlit("-u");
    }
    assert("--unit"@ =~= word_arg(Flag::Unit)) by {
        reveal_strlit("--unit");
        reveal_strlit("unit");
    }
    lemma_answered_in_every_form(Flag::Unit, "-u"@, "--unit"@, v, rest, opts);
    crate::options::law_units_are_named(v);
}

/// The mode named behind `-L` or `--color` becomes the colour mode, and nothing
/// else changes; any other text is refused.
pub proof fn law_color_is_taken(v: Seq<char>, rest: Seq<Seq<char>>, opts: Options)
    ensures
        v == "auto"@ ==> answered_in_every_form(
            "-L"@,
            "--color"@,
            v,
            rest,
            opts,
            answer_from(rest, 0, Options { color: ColorWhen::Auto, ..opts }),
        ),
        v == "always"@ ==> answered_in_every_form(
            "-L"@,
            "--color"@,
            v,
            rest,
            opts,
            answer_from(rest, 0, Options { color: ColorWhen::Always, ..opts }),
        ),
        v == "never"@ ==> answered_in_every_form(
            "-L"@,
            "--color"@,
            v,
            rest,
            opts,
            answer_from(rest, 0, Options { color: ColorWhen::Never, ..opts }),
        ),
        v != "auto"@ && v != "always"@ && v != "never"@ ==> answered_in_every_form(
            "-L"@,
            "--color"@,
            v,
            rest,
            opts,
            Err("unknown color mode: '"@ + v + "' (expected auto, always, or never)"@),
        ),
{
    assert("-L"@ =~= letter_arg(Flag::Color, seq![])) by {
        reveal_strlit("-L");
    }
    assert("--color"@ =~= word_arg(Flag::Color)) by {
        reveal_strlit("--color");
        reveal_strlit("color");
    }
    lemma_answered_in_every_form(Flag::Color, "-L"@, "--color"@, v, rest, opts);
    crate::options::law_color_modes_are_named(v);
}

/// The decimal text of a number, given to an option that takes one, leads to a
/// run with that number and the defaults.
#[verifier::spinoff_prover]
pub proof fn law_given_numbers_are_taken(n: u64, threads: usize)
    requires
        1 <= n <= i64::MAX,
    ensures
        ({
            let text = crate::text::decimal(n as nat);
            let defaults = Options {
                count_to: 1,
                threads,
                repeat: 1,
                quiet: false,
                json: false,
                unit: Unit::Ns,
                color: ColorWhen::Auto,
            };
            let count_to: Result<Command, Seq<char>> = Ok(
                Command::Run(Options { count_to: n, ..defaults }),
            );
            let workers: Result<Command, Seq<char>> = Ok(
                Command::Run(Options { threads: n as usize, ..defaults }),
            );
            let repeat: Result<Command, Seq<char>> = Ok(
                Command::Run(Options { repeat: n, ..defaults }),
            );
            &&& answer(seq!["-c"@, text], threads) == count_to
            &&& answer(seq!["--count-to"@, text], threads) == count_to
            &&& n <= usize::MAX ==> answer(seq!["-t"@, text], threads) == workers
            &&& n <= usize::MAX ==> answer(seq!["--threads"@, text], threads) == workers
            &&& answer(seq!["-r"@, text], threads) == repeat
            &&& answer(seq!["--repeat"@, text], threads) == repeat
        }),
{
    let text = crate::text::decimal(n as nat);
    let none = Seq::<Seq<char>>::empty();
    let opts = Options::defaults(threads);
    assert(crate::text::integer_value(crate::text::trimmed(text)) == Some(n as int)) by {
        lemma_decimal_is_read(n);
    }
    assert(opts == Options {
        count_to: 1,
        threads,
        repeat: 1,
        quiet: false,
        json: false,
        unit: Unit::Ns,
        color: ColorWhen::Auto,
    });
    let count_to = Options { count_to: n, ..opts };
    let repeat = Options { repeat: n, ..opts };
    assert(answered_in_every_form("-c"@, "--count-to"@, text, none, opts, Ok(Command::Run(count_to))))
        by {
        law_count_to_is_taken(text, n, none, opts);
    }
    lemma_nothing_behind("-c"@, "--count-to"@, text, opts, Ok(Command::Run(count_to)));
    if n <= usize::MAX {
        let workers = Options { threads: n as usize, ..opts };
        assert(answered_in_every_form("-t"@, "--threads"@, text, none, opts, Ok(Command::Run(workers))))
            by {
            law_threads_are_taken(text, n, none, opts);
        }
        lemma_nothing_behind("-t"@, "--threads"@, text, opts, Ok(Command::Run(workers)));
    }
    assert(answered_in_every_form("-r"@, "--repeat"@, text, none, opts, Ok(Command::Run(repeat))))
        by {
        law_repeat_is_taken(text, n, none, opts);
    }
    lemma_nothing_behind("-r"@, "--repeat"@, text, opts, Ok(Command::Run(repeat)));
}

/// The decimal text of a number is read as that number.
proof fn lemma_decimal_is_read(n: u64)
    requires
        1 <= n <= i64::MAX,
    ensures
        crate::text::integer_value(crate::text::trimmed(crate::text::decimal(n as nat))) == Some(
            n as int,
        ),
{
    let text = crate::text::decimal(n as nat);
    crate::options::law_positive_int_reads_decimals(seq![], seq![], n, seq![]);
    assert(seq![] + text + seq![] =~= text);
    crate::options::law_numbers_are_integers_from_one_on(seq![], text, n);
}

/// Nothing need stand behind an option and its value.
proof fn lemma_nothing_behind(
    short: Seq<char>,
    long: Seq<char>,
    v: Seq<char>,
    opts: Options,
    r: Result<Command, Seq<char>>,
)
    requires
        answered_in_every_form(short, long, v, seq![], opts, r),
    ensures
        answer_from(seq![short, v], 0, opts) == r,
        answer_from(seq![long, v], 0, opts) == r,
{
    assert(seq![short, v] + seq![] =~= seq![short, v]);
    assert(seq![long, v] + seq![] =~= seq![long, v]);
}

/// An option without its value is answered as with an empty one.
pub proof fn law_missing_value_is_an_empty_one(opts: Options)
    ensures
        ({
            let empty = Seq::<char>::empty();
            &&& answer_from(seq!["-c"@], 0, opts) == answer_from(seq!["-c"@, empty], 0, opts)
            &&& answer_from(seq!["-t"@], 0, opts) == answer_from(seq!["-t"@, empty], 0, opts)
            &&& answer_from(seq!["-r"@], 0, opts) == answer_from(seq!["-r"@, empty], 0, opts)
            &&& answer_from(seq!["-u"@], 0, opts) == answer_from(seq!["-u"@, empty], 0, opts)
            &&& answer_from(seq!["-L"@], 0, opts) == answer_from(seq!["-L"@, empty], 0, opts)
            &&& answer_from(seq!["--count-to"@], 0, opts) == answer_from(
                seq!["--count-to"@, empty],
                0,
                opts,
            )
            &&& answer_from(seq!["--threads"@], 0, opts) == answer_from(
                seq!["--threads"@, empty],
                0,
                opts,
            )
            &&& answer_from(seq!["--repeat"@], 0, opts) == answer_from(
                seq!["--repeat"@, empty],
                0,
                opts,
            )
            &&& answer_from(seq!["--unit"@], 0, opts) == answer_from(
                seq!["--unit"@, empty],
                0,
                opts,
            )
            &&& answer_from(seq!["--color"@], 0, opts) == answer_from(
                seq!["--color"@, empty],
                0,
                opts,
            )
        }),
{
    reveal_strlit("-c");
    reveal_strlit("--count-to");
    reveal_strlit("count-to");
    reveal_strlit("-t");
    reveal_strlit("--threads");
    reveal_strlit("threads");
    reveal_strlit("-r");
    reveal_strlit("--repeat");
    reveal_strlit("repeat");
    reveal_strlit("-u");
    reveal_strlit("--unit");
    reveal_strlit("unit");
    reveal_strlit("-L");
    reveal_strlit("--color");
    reveal_strlit("color");
    lemma_missing_value(Flag::CountTo, "-c"@, "--count-to"@, opts);
    lemma_missing_value(Flag::Threads, "-t"@, "--threads"@, opts);
    lemma_missing_value(Flag::Repeat, "-r"@, "--repeat"@, opts);
    lemma_missing_value(Flag::Unit, "-u"@, "--unit"@, opts);
    lemma_missing_value(Flag::Color, "-L"@, "--color"@, opts);
}

proof fn lemma_missing_value(flag: Flag, short: Seq<char>, long: Seq<char>, opts: Options)
    requires
        flag.needs_value(),
        short =~= letter_arg(flag, seq![]),
        long =~= word_arg(flag),
    ensures
        answer_from(seq![short], 0, opts) == answer_from(seq![short, seq![]], 0, opts),
        answer_from(seq![long], 0, opts) == answer_from(seq![long, seq![]], 0, opts),
{
    lemma_empty_value(opts, flag);
    lemma_letter_forms(seq![short], 0, opts, flag, seq!['=']);
    lemma_letter_forms(seq![short, seq![]], 0, opts, flag, seq!['=']);
    lemma_word_forms(seq![long], 0, opts, flag, seq![]);
    lemma_word_forms(seq![long, seq![]], 0, opts, flag, seq![]);
}

/// `-q` and `--quiet` ask for bare numbers, `-j` and `--json` for JSON, and
/// nothing else changes. What stands behind a `=` does not matter.
pub proof fn law_switches_are_taken(v: Seq<char>, rest: Seq<Seq<char>>, opts: Options)
    ensures
        ({
            let quiet = answer_from(rest, 0, Options { quiet: true, ..opts });
            let json = answer_from(rest, 0, Options { json: true, ..opts });
            &&& answer_from(seq!["-q"@] + rest, 0, opts) == quiet
            &&& answer_from(seq!["--quiet"@] + rest, 0, opts) == quiet
            &&& answer_from(seq!["--quiet="@ + v] + rest, 0, opts) == quiet
            &&& answer_from(seq!["-j"@] + rest, 0, opts) == json
            &&& answer_from(seq!["--json"@] + rest, 0, opts) == json
            &&& answer_from(seq!["--json="@ + v] + rest, 0, opts) == json
        }),
{
    reveal_strlit("-q");
    reveal_strlit("--quiet");
    reveal_strlit("--quiet=");
    reveal_strlit("quiet");
    reveal_strlit("-j");
    reveal_strlit("--json");
    reveal_strlit("--json=");
    reveal_strlit("json");
    lemma_switch(Flag::Quiet, "-q"@, "--quiet"@, "--quiet="@ + v, v, rest, opts);
    lemma_switch(Flag::Json, "-j"@, "--json"@, "--json="@ + v, v, rest, opts);
}

proof fn lemma_switch(
    flag: Flag,
    short: Seq<char>,
    long: Seq<char>,
    long_value: Seq<char>,
    v: Seq<char>,
    rest: Seq<Seq<char>>,
    opts: Options,
)
    requires
        flag == Flag::Quiet || flag == Flag::Json,
        short =~= letter_arg(flag, seq![]),
        long =~= word_arg(flag),
        long_value =~= word_value_arg(flag, v),
    ensures
        ({
            let o = if flag == Flag::Quiet {
                Options { quiet: true, ..opts }
            } else {
                Options { json: true, ..opts }
            };
            &&& answer_from(seq![short] + rest, 0, opts) == answer_from(rest, 0, o)
            &&& answer_from(seq![long] + rest, 0, opts) == answer_from(rest, 0, o)
            &&& answer_from(seq![long_value] + rest, 0, opts) == answer_from(rest, 0, o)
        }),
{
    let o = if flag == Flag::Quiet {
        Options { quiet: true, ..opts }
    } else {
        Options { json: true, ..opts }
    };
    let a = seq![short] + rest;
    let b = seq![long] + rest;
    let c = seq![long_value] + rest;
    lemma_letter_forms(a, 0, opts, flag, seq!['=']);
    lemma_word_forms(b, 0, opts, flag, v);
    lemma_word_forms(c, 0, opts, flag, v);
    law_only_what_follows_counts(a, 1, o);
    law_only_what_follows_counts(b, 1, o);
    law_only_what_follows_counts(c, 1, o);
    assert(a.skip(1) =~= rest);
    assert(b.skip(1) =~= rest);
    assert(c.skip(1) =~= rest);
}

/// What stands behind the `=` of `--help=` or `--version=` does not matter.
pub proof fn law_help_and_version_ignore_a_value(
    v: Seq<char>,
    rest: Seq<Seq<char>>,
    opts: Options,
)
    ensures
        answer_from(seq!["--help="@ + v] + rest, 0, opts) == Ok::<Command, Seq<char>>(
            Command::Help(opts.color),
        ),
        answer_from(seq!["--version="@ + v] + rest, 0, opts) == Ok::<Command, Seq<char>>(
            Command::Version,
        ),
{
    reveal_strlit("--help=");
    reveal_strlit("--version=");
    reveal_strlit("help");
    reveal_strlit("version");
    assert("--help="@ + v =~= word_value_arg(Flag::Help, v));
    assert("--version="@ + v =~= word_value_arg(Flag::Version, v));
    lemma_word_forms(seq!["--help="@ + v] + rest, 0, opts, Flag::Help, v);
    lemma_word_forms(seq!["--version="@ + v] + rest, 0, opts, Flag::Version, v);
}

/// A word that is no option is refused with a message that names it, without
/// the value behind its `=`.
pub proof fn law_unknown_words_are_refused(
    key: Seq<char>,
    v: Seq<char>,
    rest: Seq<Seq<char>>,
    opts: Options,
)
    requires
        !key.contains('='),
        key != "help"@ && key != "version"@ && key != "count-to"@ && key != "threads"@ && key
            != "repeat"@ && key != "quiet"@ && key != "json"@ && key != "unit"@ && key != "color"@,
    ensures
        answer_from(seq![seq!['-', '-'] + key] + rest, 0, opts) == Err::<Command, Seq<char>>(
            "unknown option: --"@ + key,
        ),
        answer_from(seq![seq!['-', '-'] + key + seq!['='] + v] + rest, 0, opts) == Err::<
            Command,
            Seq<char>,
        >("unknown option: --"@ + key),
{
    let a = seq!['-', '-'] + key;
    let b = seq!['-', '-'] + key + seq!['='] + v;
    let tail = seq!['='] + v;
    assert forall|k: int| 0 <= k < key.len() implies key[k] != '=' by {
        if key[k] == '=' {
            assert(key.contains('='));
        }
    }
    lemma_equals_at(key, seq![]);
    lemma_equals_at(key, tail);
    assert(a.skip(2) =~= key + seq![]);
    assert(b.skip(2) =~= key + tail);
    assert(key_of(a.skip(2)) =~= key);
    assert(key_of(b.skip(2)) =~= key);
    assert((seq![a] + rest)[0] == a);
    assert((seq![b] + rest)[0] == b);
}

/// A letter that is no option is refused with a message that names it, or its
/// first byte where it is not ASCII, right behind the dash and behind letters
/// that take no value.
pub proof fn law_unknown_letters_are_refused(
    c: char,
    more: Seq<char>,
    rest: Seq<Seq<char>>,
    opts: Options,
)
    requires
        c != 'h' && c != 'v' && c != 'c' && c != 't' && c != 'r' && c != 'q' && c != 'j' && c
            != 'u' && c != 'L',
    ensures
        ({
            let refused: Result<Command, Seq<char>> = Err(
                "unknown option: -"@ + seq![encode_utf8(seq![c])[0] as char],
            );
            &&& c != '-' ==> answer_from(seq![seq!['-', c] + more] + rest, 0, opts) == refused
            &&& answer_from(seq![seq!['-', 'q', c] + more] + rest, 0, opts) == refused
            &&& answer_from(seq![seq!['-', 'j', c] + more] + rest, 0, opts) == refused
        }),
{
    reveal_with_fuel(letters_step, 3);
    reveal_with_fuel(encode_utf8, 2);
    let text = "unknown option: -"@;
    let byte = crate::text::first_byte(c) as char;
    assert(encode_utf8(seq![c])[0] == crate::text::first_byte(c));
    assert(text + seq![byte] =~= text.push(byte));
    assert((seq![seq!['-', c] + more] + rest)[0] == seq!['-', c] + more);
    assert((seq![seq!['-', 'q', c] + more] + rest)[0] == seq!['-', 'q', c] + more);
    assert((seq![seq!['-', 'j', c] + more] + rest)[0] == seq!['-', 'j', c] + more);
}

/// An argument that does not begin with a dash, or is nothing but a dash, is
/// refused with a message that repeats it.
pub proof fn law_other_arguments_are_refused(
    arg: Seq<char>,
    rest: Seq<Seq<char>>,
    opts: Options,
)
    requires
        arg.len() < 2 || arg[0] != '-',
    ensures
        answer_from(seq![arg] + rest, 0, opts) == Err::<Command, Seq<char>>(
            "unexpected argument: "@ + arg,
        ),
{
    assert((seq![arg] + rest)[0] == arg);
}

/// A command line that is refused ends the program with status 2, and no
/// other does.
pub proof fn law_refusal_shows_in_the_exit_status(parsed: Result<Command, String>, r: i32)
    requires
        call_ensures(exit_code, (&parsed,), r),
    ensures
        r == 2 <==> parsed is Err,
        r == 0 <==> parsed is Ok,
{
}

} // verus!
