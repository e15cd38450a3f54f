//! The help page.

use vstd::prelude::*;
use vstd::string::*;

use crate::options::VERSION;

verus! {

/// How the program is called.
pub const USAGE: &'static str = "fastcount [options]";

/// What the program does.
pub const BLURB: &'static str = "Counts from 0 up to a target number as fast as physically possible,\n\
    in parallel, with SIMD, then stops, having accomplished nothing of\n\
    consequence considerably faster than it needed to.";

/// What the exit status says.
pub const FOOTER: &'static str = "EXIT CODES: 0 = counted successfully  2 = invalid option value";

/// One option on the help page.
pub struct HelpRow {
    pub short: &'static str,
    pub long: &'static str,
    pub placeholder: Option<&'static str>,
    pub desc: &'static str,
}

/// The texts of a row.
pub struct RowText {
    pub short: Seq<char>,
    pub long: Seq<char>,
    pub placeholder: Option<Seq<char>>,
    pub desc: Seq<char>,
}

pub open spec fn optional_text(s: Option<&'static str>) -> Option<Seq<char>> {
    match s {
        Some(t) => Some(t@),
        None => None,
    }
}

impl View for HelpRow {
    type V = RowText;

    open spec fn view(&self) -> RowText {
        RowText {
            short: self.short@,
            long: self.long@,
            placeholder: optional_text(self.placeholder),
            desc: self.desc@,
        }
    }
}

/// A group of options on the help page.
pub struct HelpSection {
    pub title: &'static str,
    pub note: Option<&'static str>,
    pub rows: Vec<HelpRow>,
}

/// The texts of a section.
pub struct SectionText {
    pub title: Seq<char>,
    pub note: Option<Seq<char>>,
    pub rows: Seq<RowText>,
}

pub open spec fn row_texts(rows: Seq<HelpRow>) -> Seq<RowText> {
    Seq::new(rows.len(), |k: int| rows[k]@)
}

impl View for HelpSection {
    type V = SectionText;

    open spec fn view(&self) -> SectionText {
        SectionText {
            title: self.title@,
            note: optional_text(self.note),
            rows: row_texts(self.rows@),
        }
    }
}

pub open spec fn section_texts(sections: Seq<HelpSection>) -> Seq<SectionText> {
    Seq::new(sections.len(), |k: int| sections[k]@)
}

pub open spec fn switch_row(short: Seq<char>, long: Seq<char>, desc: Seq<char>) -> RowText {
    RowText { short, long, placeholder: None, desc }
}

pub open spec fn value_row(
    short: Seq<char>,
    long: Seq<char>,
    placeholder: Seq<char>,
    desc: Seq<char>,
) -> RowText {
    RowText { short, long, placeholder: Some(placeholder), desc }
}

/// A row for an option without a value.
pub fn row(short: &'static str, long: &'static str, desc: &'static str) -> (r: HelpRow)
    ensures
        r@ == switch_row(short@, long@, desc@),
{
    HelpRow { short, long, placeholder: None, desc }
}

/// A row for an option with a value.
pub fn row_val(
    short: &'static str,
    long: &'static str,
    placeholder: &'static str,
    desc: &'static str,
) -> (r: HelpRow)
    ensures
        r@ == value_row(short@, long@, placeholder@, desc@),
{
    HelpRow { short, long, placeholder: Some(placeholder), desc }
}

/// The rows on what is counted.
pub fn counting_rows() -> (r: Vec<HelpRow>)
    ensures
        row_texts(r@) == seq![
            value_row(
                "-c"@,
                "--count-to"@,
                "<N>"@,
                "count to N instead of 1 (must be an integer)"@,
            ),
        ],
{
    vec![
        row_val("-c", "--count-to", "<N>", "count to N instead of 1 (must be an integer)"),
    ]
}

/// The rows on threads.
pub fn parallelism_rows() -> (r: Vec<HelpRow>)
    ensures
        row_texts(r@) == seq![
            value_row(
                "-t"@,
                "--threads"@,
                "<N>"@,
                "threads for parallel counting (default: all cores)"@,
            ),
        ],
{
    vec![
        row_val("-t", "--threads", "<N>", "threads for parallel counting (default: all cores)"),
    ]
}

/// The rows on trials.
pub fn benchmarking_rows() -> (r: Vec<HelpRow>)
    ensures
        row_texts(r@) == seq![
            value_row(
                "-r"@,
                "--repeat"@,
                "<N>"@,
                "run N trials, report min/mean/median/max (default: 1)"@,
            ),
        ],
{
    vec![
        row_val("-r", "--repeat", "<N>", "run N trials, report min/mean/median/max (default: 1)"),
    ]
}

/// The rows on the output.
pub fn output_rows() -> (r: Vec<HelpRow>)
    ensures
        row_texts(r@) == seq![
            switch_row("-q"@, "--quiet"@, "print only the raw number(s), script-friendly"@),
            switch_row("-j"@, "--json"@, "machine-readable JSON output"@),
            value_row("-u"@, "--unit"@, "<UNIT>"@, "ns | us | ms | cycles  (default: ns)"@),
            value_row("-L"@, "--color"@, "<WHEN>"@, "auto | always | never  (default: auto)"@),
        ],
{
    vec![
        row("-q", "--quiet", "print only the raw number(s), script-friendly"),
        row("-j", "--json", "machine-readable JSON output"),
        row_val("-u", "--unit", "<UNIT>", "ns | us | ms | cycles  (default: ns)"),
        row_val("-L", "--color", "<WHEN>", "auto | always | never  (default: auto)"),
    ]
}

/// The rows that remain.
pub fn misc_rows() -> (r: Vec<HelpRow>)
    ensures
        row_texts(r@) == seq![
            switch_row("-h"@, "--help"@, "show this help"@),
            switch_row("-v"@, "--version"@, "show version"@),
        ],
{
    vec![
        row("-h", "--help", "show this help"),
        row("-v", "--version", "show version"),
    ]
}

/// The sections of the help page.
pub open spec fn page_sections() -> Seq<SectionText> {
    seq![
        SectionText {
            title: "COUNTING"@,
            note: Some("By default, fastcount counts to 1. Go on, live a little."@),
            rows: seq![
                value_row(
                    "-c"@,
                    "--count-to"@,
                    "<N>"@,
                    "count to N instead of 1 (must be an integer)"@,
                ),
            ],
        },
        SectionText {
            title: "PARALLELISM"@,
            note: Some(
                "Range is chunked across threads; each chunk counted with AVX2/SSE4.1/scalar."@,
            ),
            rows: seq![
                value_row(
                    "-t"@,
                    "--threads"@,
                    "<N>"@,
                    "threads for parallel counting (default: all cores)"@,
                ),
            ],
        },
        SectionText {
            title: "BENCHMARKING"@,
            note: Some(
                "Repeated trials share one warm-up phase, then are timed independently."@,
            ),
            rows: seq![
                value_row(
                    "-r"@,
                    "--repeat"@,
                    "<N>"@,
                    "run N trials, report min/mean/median/max (default: 1)"@,
                ),
            ],
        },
        SectionText {
            title: "OUTPUT"@,
            note: None,
            rows: seq![
                switch_row("-q"@, "--quiet"@, "print only the raw number(s), script-friendly"@),
                switch_row("-j"@, "--json"@, "machine-readable JSON output"@),
                value_row("-u"@, "--unit"@, "<UNIT>"@, "ns | us | ms | cycles  (default: ns)"@),
                value_row("-L"@, "--color"@, "<WHEN>"@, "auto | always | never  (default: auto)"@),
            ],
        },
        SectionText {
            title: "MISC"@,
            note: None,
            rows: seq![
                switch_row("-h"@, "--help"@, "show this help"@),
                switch_row("-v"@, "--version"@, "show version"@),
            ],
        },
    ]
}

/// The sections of the help page.
pub fn sections() -> (r: Vec<HelpSection>)
    ensures
        section_texts(r@) == page_sections(),
{
    let r = vec![
        HelpSection {
            title: "COUNTING",
            note: Some("By default, fastcount counts to 1. Go on, live a little."),
            rows: counting_rows(),
        },
        HelpSection {
            title: "PARALLELISM",
            note: Some(
                "Range is chunked across threads; each chunk counted with AVX2/SSE4.1/scalar.",
            ),
            rows: parallelism_rows(),
        },
        HelpSection {
            title: "BENCHMARKING",
            note: Some("Repeated trials share one warm-up phase, then are timed independently."),
            rows: benchmarking_rows(),
        },
        HelpSection { title: "OUTPUT", note: None, rows: output_rows() },
        HelpSection { title: "MISC", note: None, rows: misc_rows() },
    ];
    assert(section_texts(r@) =~= page_sections());
    r
}

/// The text does not hold `c`, if there is one.
pub open spec fn optional_free_of(s: Option<Seq<char>>, c: char) -> bool {
    s matches Some(t) ==> crate::text::free_of(t, c)
}

/// The texts of the row do not hold `c`.
pub open spec fn row_free_of(row: RowText, c: char) -> bool {
    &&& crate::text::free_of(row.short, c)
    &&& crate::text::free_of(row.long, c)
    &&& optional_free_of(row.placeholder, c)
    &&& crate::text::free_of(row.desc, c)
}

/// The texts of the section do not hold `c`.
pub open spec fn section_free_of(section: SectionText, c: char) -> bool {
    &&& crate::text::free_of(section.title, c)
    &&& optional_free_of(section.note, c)
    &&& forall|k: int| 0 <= k < section.rows.len() ==> row_free_of(#[trigger] section.rows[k], c)
}

/// The text that `clihelp` lays out for a page with a name line, one usage
/// line, a blurb, sections and a footer, in colour or not.
pub uninterp spec fn rendered_page(
    name_line: Seq<char>,
    usage: Seq<char>,
    blurb: Seq<char>,
    sections: Seq<SectionText>,
    footer: Seq<char>,
    color: bool,
) -> Seq<char>;

/// `clihelp::HelpPage::render`, on a page that is built from the arguments
/// and has the default column and palette. What it lays out depends on the
/// arguments alone, and where colour is off it adds no escape code of its own;
/// how it lays them out is not stated.
#[verifier::external_body]
fn render_page(
    name_line: &str,
    usage: &str,
    blurb: &str,
    sections: &Vec<HelpSection>,
    footer: &str,
    color: bool,
) -> (r: String)
    ensures
        r@ == rendered_page(name_line@, usage@, blurb@, section_texts(sections@), footer@, color),
        ({
            &&& !color
            &&& crate::text::free_of(name_line@, '\x1b')
            &&& crate::text::free_of(usage@, '\x1b')
            &&& crate::text::free_of(blurb@, '\x1b')
            &&& crate::text::free_of(footer@, '\x1b')
            &&& forall|k: int|
                0 <= k < sections@.len() ==> section_free_of(
                    #[trigger] section_texts(sections@)[k],
                    '\x1b',
                )
        }) ==> crate::text::free_of(r@, '\x1b'),
{
    let page = clihelp::HelpPage::new(name_line).usage(usage).blurb(blurb).footer(footer);
    let to_row = |r: &HelpRow| clihelp::Row {
        short: r.short,
        long: r.long,
        placeholder: r.placeholder,
        desc: r.desc,
    };
    let page = sections.iter().fold(page, |page, s| {
        let rows = s.rows.iter().map(to_row).collect();
        page.section(clihelp::Section { title: s.title, note: s.note, rows })
    });
    page.render(color)
}

/// The sections of the help page hold no escape code.
proof fn lemma_section_is_plain(k: int)
    requires
        0 <= k < page_sections().len(),
    ensures
        section_free_of(page_sections()[k], '\x1b'),
{
    reveal(crate::text::free_of);
    if k == 0 {
        reveal_strlit("COUNTING");
        reveal_strlit("By default, fastcount counts to 1. Go on, live a little.");
        reveal_strlit("-c");
        reveal_strlit("--count-to");
        reveal_strlit("<N>");
        reveal_strlit("count to N instead of 1 (must be an integer)");
    } else if k == 1 {
        reveal_strlit("PARALLELISM");
        reveal_strlit("Range is chunked across threads; each chunk counted with AVX2/SSE4.1/scalar.");
        reveal_strlit("-t");
        reveal_strlit("--threads");
        reveal_strlit("<N>");
        reveal_strlit("threads for parallel counting (default: all cores)");
    } else if k == 2 {
        reveal_strlit("BENCHMARKING");
        reveal_strlit("Repeated trials share one warm-up phase, then are timed independently.");
        reveal_strlit("-r");
        reveal_strlit("--repeat");
        reveal_strlit("<N>");
        reveal_strlit("run N trials, report min/mean/median/max (default: 1)");
    } else if k == 3 {
        reveal_strlit("OUTPUT");
        reveal_strlit("-q");
        reveal_strlit("--quiet");
        reveal_strlit("print only the raw number(s), script-friendly");
        reveal_strlit("-j");
        reveal_strlit("--json");
        reveal_strlit("machine-readable JSON output");
        reveal_strlit("-u");
        reveal_strlit("--unit");
        reveal_strlit("<UNIT>");
        reveal_strlit("ns | us | ms | cycles  (default: ns)");
        reveal_strlit("-L");
        reveal_strlit("--color");
        reveal_strlit("<WHEN>");
        reveal_strlit("auto | always | never  (default: auto)");
    } else if k == 4 {
        reveal_strlit("MISC");
        reveal_strlit("-h");
        reveal_strlit("--help");
        reveal_strlit("show this help");
        reveal_strlit("-v");
        reveal_strlit("--version");
        reveal_strlit("show version");
    }
}

/// The texts of the help page hold no escape code.
proof fn lemma_page_is_plain()
    ensures
        crate::text::free_of(
            "fastcount "@ + VERSION@ + " - an incredibly fast, incredibly useless counter"@,
            '\x1b',
        ),
        crate::text::free_of(USAGE@, '\x1b'),
        crate::text::free_of(BLURB@, '\x1b'),
        crate::text::free_of(FOOTER@, '\x1b'),
        forall|k: int|
            0 <= k < page_sections().len() ==> section_free_of(
                #[trigger] page_sections()[k],
                '\x1b',
            ),
{
    assert forall|k: int| 0 <= k < page_sections().len() implies section_free_of(
        #[trigger] page_sections()[k],
        '\x1b',
    ) by {
        lemma_section_is_plain(k);
    }
    reveal(crate::text::free_of);
    reveal_strlit("fastcount ");
    reveal_strlit("2.0.0");
    reveal_strlit(" - an incredibly fast, incredibly useless counter");
    reveal_strlit("fastcount [options]");
    reveal_strlit(
        "Counts from 0 up to a target number as fast as physically possible,\n\
         in parallel, with SIMD, then stops, having accomplished nothing of\n\
         consequence considerably faster than it needed to.",
    );
    reveal_strlit("EXIT CODES: 0 = counted successfully  2 = invalid option value");
}

/// The help page, in colour or not. Without colour it holds no escape code.
pub fn help_page(on: bool) -> (r: String)
    ensures
        r@ == rendered_page(
            "fastcount "@ + VERSION@ + " - an incredibly fast, incredibly useless counter"@,
            USAGE@,
            BLURB@,
            page_sections(),
            FOOTER@,
            on,
        ),
        !on ==> crate::text::free_of(r@, '\x1b'),
{
    proof {
        lemma_page_is_plain();
    }
    let mut name_line = "fastcount ".to_owned();
    name_line.append(VERSION);
    name_line.append(" - an incredibly fast, incredibly useless counter");
    render_page(
        name_line.as_str(),
        USAGE,
        BLURB,
        &sections(),
        FOOTER,
        on,
    )
}

/// The row tells of the option: it shows its letter and its word, and a
/// placeholder where it takes a value.
pub open spec fn tells_of(row: RowText, flag: crate::args::Flag) -> bool {
    &&& row.short == crate::args::letter_arg(flag, seq![])
    &&& row.long == crate::args::word_arg(flag)
    &&& row.placeholder is Some <==> flag.needs_value()
}

/// The option that the help page tells of in the row `k` of the section `s`.
pub open spec fn flag_told(s: int, k: int) -> crate::args::Flag {
    if s == 0 {
        crate::args::Flag::CountTo
    } else if s == 1 {
        crate::args::Flag::Threads
    } else if s == 2 {
        crate::args::Flag::Repeat
    } else if s == 3 {
        if k == 0 {
            crate::args::Flag::Quiet
        } else if k == 1 {
            crate::args::Flag::Json
        } else if k == 2 {
            crate::args::Flag::Unit
        } else {
            crate::args::Flag::Color
        }
    } else if k == 0 {
        crate::args::Flag::Help
    } else {
        crate::args::Flag::Version
    }
}

/// The help page tells of an option that there is in every row.
pub proof fn law_help_tells_of_options_only(s: int, k: int)
    requires
        0 <= s < page_sections().len(),
        0 <= k < page_sections()[s].rows.len(),
    ensures
        tells_of(page_sections()[s].rows[k], flag_told(s, k)),
{
    reveal_strlit("-c");
    reveal_strlit("-t");
    reveal_strlit("-r");
    reveal_strlit("-q");
    reveal_strlit("-j");
    reveal_strlit("-u");
    reveal_strlit("-L");
    reveal_strlit("-h");
    reveal_strlit("-v");
    reveal_strlit("--count-to");
    reveal_strlit("--threads");
    reveal_strlit("--repeat");
    reveal_strlit("--quiet");
    reveal_strlit("--json");
    reveal_strlit("--unit");
    reveal_strlit("--color");
    reveal_strlit("--help");
    reveal_strlit("--version");
    reveal_strlit("count-to");
    reveal_strlit("threads");
    reveal_strlit("repeat");
    reveal_strlit("quiet");
    reveal_strlit("json");
    reveal_strlit("unit");
    reveal_strlit("color");
    reveal_strlit("help");
    reveal_strlit("version");
    let row = page_sections()[s].rows[k];
    let flag = flag_told(s, k);
    assert(row.short =~= crate::args::letter_arg(flag, seq![]));
    assert(row.long =~= crate::args::word_arg(flag));
}

/// The help page tells of every option that there is.
pub proof fn law_help_tells_of_every_option(flag: crate::args::Flag) -> (at: (int, int))
    ensures
        0 <= at.0 < page_sections().len(),
        0 <= at.1 < page_sections()[at.0].rows.len(),
        tells_of(page_sections()[at.0].rows[at.1], flag),
{
    let at: (int, int) = match flag {
        crate::args::Flag::CountTo => (0, 0),
        crate::args::Flag::Threads => (1, 0),
        crate::args::Flag::Repeat => (2, 0),
        crate::args::Flag::Quiet => (3, 0),
        crate::args::Flag::Json => (3, 1),
        crate::args::Flag::Unit => (3, 2),
        crate::args::Flag::Color => (3, 3),
        crate::args::Flag::Help => (4, 0),
        crate::args::Flag::Version => (4, 1),
    };
    law_help_tells_of_options_only(at.0, at.1);
    at
}

} // verus!
