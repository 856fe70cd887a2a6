//! Text, colours and tables as Discord shows them.
use vstd::prelude::*;
use vstd::string::*;

use crate::text;

verus! {

/// The colours of the feed.
pub struct Palette;

impl Palette {
    pub const BRAND: u32 = 0x5865f2;

    pub const JOIN: u32 = 0x57f287;

    pub const LEAVE: u32 = 0xed4245;

    pub const DEATH: u32 = 0x992d22;

    pub const ADVANCEMENT: u32 = 0xfee75c;

    pub const WHISPER: u32 = 0xeb459e;

    pub const NEUTRAL: u32 = 0x9aa0a6;

    pub const MUTED: u32 = 0x2b2d31;
}

/// The colour of a kind of line, by its name or its letter.
pub open spec fn colour_of(kind: Seq<char>) -> u32 {
    if kind == "chat"@ || kind == "c"@ {
        Palette::BRAND
    } else if kind == "whisper"@ || kind == "w"@ {
        Palette::WHISPER
    } else if kind == "join"@ || kind == "j"@ {
        Palette::JOIN
    } else if kind == "leave"@ || kind == "l"@ {
        Palette::LEAVE
    } else if kind == "death"@ || kind == "d"@ || kind == "kill"@ {
        Palette::DEATH
    } else if kind == "advancement"@ || kind == "a"@ {
        Palette::ADVANCEMENT
    } else if kind == "server"@ || kind == "s"@ {
        Palette::NEUTRAL
    } else {
        Palette::BRAND
    }
}

pub fn kind_color(kind: &str) -> (c: u32)
    ensures
        c == colour_of(kind@),
{
    if text::same(kind, "chat") || text::same(kind, "c") {
        Palette::BRAND
    } else if text::same(kind, "whisper") || text::same(kind, "w") {
        Palette::WHISPER
    } else if text::same(kind, "join") || text::same(kind, "j") {
        Palette::JOIN
    } else if text::same(kind, "leave") || text::same(kind, "l") {
        Palette::LEAVE
    } else if text::same(kind, "death") || text::same(kind, "d") || text::same(kind, "kill") {
        Palette::DEATH
    } else if text::same(kind, "advancement") || text::same(kind, "a") {
        Palette::ADVANCEMENT
    } else if text::same(kind, "server") || text::same(kind, "s") {
        Palette::NEUTRAL
    } else {
        Palette::BRAND
    }
}

/// A group of commands, each with a colour of its own.
#[derive(Clone, Copy, Debug, PartialEq, Eq, Structural)]
pub enum Category {
    Stats,
    Server,
    Admin,
}

pub open spec fn category_colour(c: Category) -> u32 {
    match c {
        Category::Stats => 0x5865f2,
        Category::Server => 0x1abc9c,
        Category::Admin => 0x99aab5,
    }
}

impl Category {
    pub fn color(self) -> (c: u32)
        ensures
            c == category_colour(self),
    {
        match self {
            Category::Stats => 0x5865f2,
            Category::Server => 0x1abc9c,
            Category::Admin => 0x99aab5,
        }
    }
}

/// What Discord accepts at most.
pub struct Limits;

impl Limits {
    pub const DESCRIPTION: usize = 4096;

    pub const FIELD: usize = 1024;

    pub const CONTENT: usize = 1900;

    pub const TOPIC: usize = 1024;
}

/// The most characters of a line of a log.
pub const MAX_LINE_CHARS: usize = 700;

/// The most characters of a name.
pub const MAX_NAME_CHARS: usize = 16;

// ---------------------------------------------------------------------------
// Numbers
// ---------------------------------------------------------------------------

/// Digits with a comma before every three from the right.
pub open spec fn commas(digits: Seq<char>) -> Seq<char>
    decreases digits.len(),
{
    if digits.len() <= 3 {
        digits
    } else {
        commas(digits.take(digits.len() - 3)) + ","@ + digits.skip(digits.len() - 3)
    }
}

/// A number as it is shown.
pub open spec fn grouped(n: int) -> Seq<char> {
    if n < 0 {
        "-"@ + commas(text::decimal(-n))
    } else {
        commas(text::decimal(n))
    }
}

fn commas_of(v: &Vec<char>, n: usize) -> (r: String)
    requires
        n <= v.len(),
    ensures
        r@ == commas(v@.take(n as int)),
    decreases n,
{
    let ghost part = v@.take(n as int);
    if n <= 3 {
        let r = text::string_of(v, 0, n);
        assert(r@ =~= part);
        r
    } else {
        let head = commas_of(v, n - 3);
        let tail = text::string_of(v, n - 3, n);
        assert(part.take(part.len() - 3) =~= v@.take(n - 3));
        assert(tail@ =~= part.skip(part.len() - 3));
        text::cat3(&head, ",", &tail)
    }
}

/// A number with commas: `1,234,567`.
pub fn fmt(n: i64) -> (r: String)
    ensures
        r@ == grouped(n as int),
{
    let size: u64 = if n < 0 {
        (-(n + 1)) as u64 + 1
    } else {
        n as u64
    };
    let digits = text::chars_of(&text::number(size));
    let shown = commas_of(&digits, digits.len());
    assert(digits@.take(digits.len() as int) =~= digits@);
    if n < 0 {
        text::cat2("-", &shown)
    } else {
        shown
    }
}

/// Time in the game in whole minutes, the nearest.
pub open spec fn minutes(ms: int) -> int {
    if ms <= 0 {
        0
    } else {
        (ms + 30_000) / 60_000
    }
}

/// Days, hours and minutes, without leading units that are zero. The minutes are
/// always there.
pub open spec fn duration_text(ms: int) -> Seq<char> {
    let m = minutes(ms);
    let days = m / 1440;
    let hours = (m / 60) % 24;
    let mins = text::decimal(m % 60) + "m"@;
    if days > 0 {
        text::decimal(days) + "d "@ + text::decimal(hours) + "h "@ + mins
    } else if hours > 0 {
        text::decimal(hours) + "h "@ + mins
    } else {
        mins
    }
}

/// Milliseconds of playtime as `12d 4h 30m`.
pub fn duration_hm(ms: i64) -> (r: String)
    ensures
        r@ == duration_text(ms as int),
{
    let m: u64 = if ms <= 0 {
        0
    } else {
        let whole: u64 = ms as u64;
        (whole + 30_000) / 60_000
    };
    let days: u64 = m / 1440;
    let hours: u64 = (m / 60) % 24;
    let mins = text::cat2(&text::number(m % 60), "m");
    if days > 0 {
        text::cat5(&text::number(days), "d ", &text::number(hours), "h ", &mins)
    } else if hours > 0 {
        text::cat3(&text::number(hours), "h ", &mins)
    } else {
        mins
    }
}

/// A duration always shows its minutes, so that a field with one is never blank.
pub proof fn lemma_durations_show_minutes(ms: int)
    ensures
        duration_text(ms).len() > 0,
        duration_text(ms).last() == 'm',
{
    reveal_strlit("m");
}

/// How much a number changed, given how much that is in short.
pub open spec fn trend_text(current: int, previous: int, size: Seq<char>) -> Seq<char> {
    if current > previous {
        "▲ "@ + size
    } else if current < previous {
        "▼ "@ + size
    } else {
        "• same"@
    }
}

pub fn trend_i64(current: i64, previous: i64, size: &str) -> (r: String)
    ensures
        r@ == trend_text(current as int, previous as int, size@),
{
    if current > previous {
        text::cat2("▲ ", size)
    } else if current < previous {
        text::cat2("▼ ", size)
    } else {
        text::copy("• same")
    }
}

/// A value of a list of values.
pub open spec fn overview(label: Seq<char>, value: Seq<char>) -> Seq<char> {
    "`"@ + label + ":` "@ + value
}

/// A number of a list of values.
pub open spec fn overview_number(label: Seq<char>, n: int) -> Seq<char> {
    overview(label, bold_text(grouped(n)))
}

pub fn overview_line(label: &str, value: &str) -> (r: String)
    ensures
        r@ == overview(label@, value@),
{
    text::cat4("`", label, ":` ", value)
}

pub fn overview_num(label: &str, n: i64) -> (r: String)
    ensures
        r@ == overview_number(label@, n as int),
{
    overview_line(label, &bold(&fmt(n)))
}

pub fn yes_no(yes: bool) -> (s: &'static str)
    ensures
        s@ == (if yes {
            "✅ **Yes**"@
        } else {
            "❌ **No**"@
        }),
{
    if yes {
        "✅ **Yes**"
    } else {
        "❌ **No**"
    }
}

// ---------------------------------------------------------------------------
// Text
// ---------------------------------------------------------------------------

/// The text in at most so many characters; the last is an ellipsis where it was
/// longer.
pub open spec fn clamped(s: Seq<char>, max: int) -> Seq<char> {
    if s.len() <= max {
        s
    } else {
        s.take(
            if max > 0 {
                max - 1
            } else {
                0
            },
        ) + "…"@
    }
}

pub fn clamp(s: &str, max: usize) -> (r: String)
    ensures
        r@ == clamped(s@, max as int),
{
    let v = text::chars_of(s);
    if v.len() <= max {
        return text::copy(s);
    }
    let n: usize = if max > 0 {
        max - 1
    } else {
        0
    };
    let cut = text::string_of(&v, 0, n);
    assert(cut@ =~= s@.take(n as int));
    text::cat2(&cut, "…")
}

/// What is clamped fits.
pub proof fn lemma_clamped_fits(s: Seq<char>, max: int)
    requires
        max > 0,
    ensures
        clamped(s, max).len() <= max,
        s.len() <= max ==> clamped(s, max) == s,
{
    reveal_strlit("…");
}

/// How many of the lines from the `i`-th on fit, where so many bytes are used.
/// Each takes a byte more for its line break.
pub open spec fn fitting(lines: Seq<Seq<char>>, i: int, used: int, max: int) -> int
    decreases lines.len() - i,
{
    if 0 <= i < lines.len() && used + text::byte_len(lines[i]) + 1 <= max {
        fitting(lines, i + 1, used + text::byte_len(lines[i]) + 1, max)
    } else {
        i
    }
}

/// The lines that fit, and how many more there are.
pub open spec fn joined_lines(lines: Seq<Seq<char>>, max: int) -> Seq<char> {
    let k = fitting(lines, 0, 0, max);
    if k < lines.len() {
        text::join_text(
            lines.take(k).push("…and "@ + text::decimal(lines.len() - k) + " more"@),
            "\n"@,
        )
    } else {
        text::join_text(lines, "\n"@)
    }
}

proof fn lemma_fitting(lines: Seq<Seq<char>>, i: int, used: int, max: int)
    requires
        0 <= i <= lines.len(),
    ensures
        i <= fitting(lines, i, used, max) <= lines.len(),
    decreases lines.len() - i,
{
    if 0 <= i < lines.len() && used + text::byte_len(lines[i]) + 1 <= max {
        lemma_fitting(lines, i + 1, used + text::byte_len(lines[i]) + 1, max);
    }
}

/// How many lines fit.
fn count_fitting(lines: &Vec<String>, start: usize, max: usize) -> (k: usize)
    requires
        start <= max,
    ensures
        k == fitting(text::texts(lines@), 0, start as int, max as int),
        k <= lines.len(),
{
    let ghost all = text::texts(lines@);
    let mut k: usize = 0;
    let mut used: usize = start;
    while k < lines.len()
        invariant_except_break
            fitting(all, 0, start as int, max as int) == fitting(
                all,
                k as int,
                used as int,
                max as int,
            ),
        invariant
            k <= lines.len(),
            used <= max,
            all == text::texts(lines@),
        ensures
            k == fitting(all, 0, start as int, max as int),
        decreases lines.len() - k,
    {
        let n: usize = text::bytes_in(&lines[k]);
        assert(all[k as int] == lines[k as int]@);
        if n >= max - used {
            break;
        }
        used = used + n + 1;
        k = k + 1;
    }
    k
}

fn first_lines(lines: &Vec<String>, k: usize) -> (r: Vec<String>)
    requires
        k <= lines.len(),
    ensures
        text::texts(r@) == text::texts(lines@).take(k as int),
{
    let ghost all = text::texts(lines@);
    let mut r: Vec<String> = Vec::new();
    assert(text::texts(r@) =~= all.take(0));
    for i in 0..k
        invariant
            k <= lines.len(),
            all == text::texts(lines@),
            text::texts(r@) == all.take(i as int),
    {
        let line = lines[i].clone();
        proof {
            text::lemma_texts_push(r@, line);
            assert(all.take(i + 1) =~= all.take(i as int).push(line@));
        }
        r.push(line);
    }
    r
}

pub fn join_lines(lines: &Vec<String>, max: usize) -> (r: String)
    ensures
        r@ == joined_lines(text::texts(lines@), max as int),
{
    let k: usize = count_fitting(lines, 0, max);
    if k < lines.len() {
        let mut kept = first_lines(lines, k);
        let more = text::cat3("…and ", &text::number((lines.len() - k) as u64), " more");
        proof {
            text::lemma_texts_push(kept@, more);
        }
        kept.push(more);
        text::join(&kept, "\n")
    } else {
        text::join(lines, "\n")
    }
}

/// The words with one space between each two.
pub open spec fn on_one_line(s: Seq<char>) -> Seq<char> {
    text::join_text(text::words_text(s), " "@)
}

pub fn one_line(s: &str) -> (r: String)
    ensures
        r@ == on_one_line(s@),
{
    text::join(&text::words(s), " ")
}

/// A text that was put on one line has the same words in the same order, has no
/// white space but a single space between each two of them, and stays as it is.
pub proof fn lemma_one_line(s: Seq<char>)
    ensures
        text::words_text(on_one_line(s)) == text::words_text(s),
        text::single_spaced(on_one_line(s)),
        on_one_line(on_one_line(s)) == on_one_line(s),
{
    text::lemma_words(s);
    text::lemma_words_of_joined(text::words_text(s));
    text::lemma_joined_is_single_spaced(text::words_text(s));
}

/// Whether a character means something to Discord.
pub open spec fn is_markup(c: char) -> bool {
    c == '\\' || c == '*' || c == '_' || c == '~' || c == '`' || c == '|'
}

/// A backslash before each character that means something.
pub open spec fn with_backslashes(s: Seq<char>) -> Seq<char>
    decreases s.len(),
{
    if s.len() == 0 {
        Seq::empty()
    } else if is_markup(s.last()) {
        with_backslashes(s.drop_last()).push('\\').push(s.last())
    } else {
        with_backslashes(s.drop_last()).push(s.last())
    }
}

pub open spec fn escaped(s: Seq<char>) -> Seq<char> {
    with_backslashes(on_one_line(s))
}

fn markup(c: char) -> (b: bool)
    ensures
        b == is_markup(c),
{
    c == '\\' || c == '*' || c == '_' || c == '~' || c == '`' || c == '|'
}

/// The text on one line, with nothing in it that Discord would act on.
pub fn escape_md(s: &str) -> (r: String)
    ensures
        r@ == escaped(s@),
{
    let line = one_line(s);
    let v = text::chars_of(&line);
    let mut r = String::new();
    for i in 0..v.len()
        invariant
            v@ == line@,
            r@ == with_backslashes(line@.take(i as int)),
    {
        assert(line@.take(i + 1).drop_last() =~= line@.take(i as int));
        if markup(v[i]) {
            r.push('\\');
        }
        r.push(v[i]);
    }
    assert(line@.take(line@.len() as int) =~= line@);
    r
}

/// Every character that means something stands behind a backslash.
pub proof fn lemma_escaped_is_inert(s: Seq<char>, i: int)
    requires
        0 <= i < with_backslashes(s).len(),
        is_markup(with_backslashes(s)[i]),
    ensures
        with_backslashes(s)[i] == '\\' || (i > 0 && with_backslashes(s)[i - 1] == '\\'),
    decreases s.len(),
{
    let before = with_backslashes(s.drop_last());
    if i < before.len() {
        assert(with_backslashes(s)[i] == before[i]);
        lemma_escaped_is_inert(s.drop_last(), i);
        if i > 0 {
            assert(with_backslashes(s)[i - 1] == before[i - 1]);
        }
    }
}

pub open spec fn log_line(s: Seq<char>) -> Seq<char> {
    clamped(escaped(s), MAX_LINE_CHARS as int)
}

pub fn log_text(s: &str) -> (r: String)
    ensures
        r@ == log_line(s@),
{
    clamp(&escape_md(s), MAX_LINE_CHARS)
}

pub open spec fn code_text(s: Seq<char>) -> Seq<char> {
    "`"@ + text::replaced(s, "`"@, "ˋ"@) + "`"@
}

pub fn code(s: &str) -> (r: String)
    ensures
        r@ == code_text(s@),
{
    text::cat3("`", &text::replace(s, "`", "ˋ"), "`")
}

pub open spec fn block_text(s: Seq<char>) -> Seq<char> {
    "```\n"@ + s + "\n```"@
}

pub fn code_block(s: &str) -> (r: String)
    ensures
        r@ == block_text(s@),
{
    text::cat3("```\n", s, "\n```")
}

/// How many bytes the fences of a block take.
pub const FENCE_BYTES: usize = 8;

/// As many lines as fit, in a block.
pub open spec fn fenced_text(lines: Seq<Seq<char>>, max: int) -> Seq<char> {
    block_text(
        text::join_text(
            lines.take(
                if FENCE_BYTES <= max {
                    fitting(lines, 0, FENCE_BYTES as int, max)
                } else {
                    0
                },
            ),
            "\n"@,
        ),
    )
}

pub fn fenced(lines: &Vec<String>, max: usize) -> (r: String)
    ensures
        r@ == fenced_text(text::texts(lines@), max as int),
{
    let k: usize = if FENCE_BYTES <= max {
        count_fitting(lines, FENCE_BYTES, max)
    } else {
        0
    };
    code_block(&text::join(&first_lines(lines, k), "\n"))
}

pub open spec fn bold_text(s: Seq<char>) -> Seq<char> {
    "**"@ + s + "**"@
}

pub fn bold(s: &str) -> (r: String)
    ensures
        r@ == bold_text(s@),
{
    text::cat3("**", s, "**")
}

pub open spec fn italic_text(s: Seq<char>) -> Seq<char> {
    "*"@ + s + "*"@
}

pub fn italic(s: &str) -> (r: String)
    ensures
        r@ == italic_text(s@),
{
    text::cat3("*", s, "*")
}

pub open spec fn name_text(name: Option<Seq<char>>) -> Seq<char> {
    bold_text(
        clamped(
            escaped(
                match name {
                    Some(n) => n,
                    None => "?"@,
                },
            ),
            MAX_NAME_CHARS as int,
        ),
    )
}

pub fn player_name(name: Option<&str>) -> (r: String)
    ensures
        r@ == name_text(text::opt_str(name)),
{
    let shown: &str = match name {
        Some(n) => n,
        None => "?",
    };
    bold(&clamp(&escape_md(shown), MAX_NAME_CHARS))
}

// ---------------------------------------------------------------------------
// Times
// ---------------------------------------------------------------------------

/// A time, in microseconds, that each viewer sees in the time zone and the format
/// of their own.
pub open spec fn time_tag(us: int, style: Seq<char>) -> Seq<char> {
    "<t:"@ + text::signed_decimal(us / 1_000_000) + ":"@ + style + ">"@
}

fn tag(us: i64, style: &str) -> (r: String)
    ensures
        r@ == time_tag(us as int, style@),
{
    let secs: i64 = if us >= 0 {
        us / 1_000_000
    } else {
        -((-(us + 1)) / 1_000_000) - 1
    };
    assert(secs == us as int / 1_000_000);
    text::cat5("<t:", &text::signed_number(secs), ":", style, ">")
}

pub fn short_time(us: i64) -> (r: String)
    ensures
        r@ == time_tag(us as int, "t"@),
{
    tag(us, "t")
}

pub fn date_time(us: i64) -> (r: String)
    ensures
        r@ == time_tag(us as int, "f"@),
{
    tag(us, "f")
}

/// The day alone.
pub fn date_only(us: i64) -> (r: String)
    ensures
        r@ == time_tag(us as int, "D"@),
{
    tag(us, "D")
}

/// How long ago.
pub fn time_ago(us: i64) -> (r: String)
    ensures
        r@ == time_tag(us as int, "R"@),
{
    tag(us, "R")
}

// ---------------------------------------------------------------------------
// Tables
// ---------------------------------------------------------------------------

pub struct Column {
    pub header: String,
    pub align_right: bool,
    pub width: Option<usize>,
}

impl Column {
    pub fn new(header: &str) -> (c: Self)
        ensures
            c.header@ == header@ && !c.align_right && c.width is None,
    {
        Column { header: text::copy(header), align_right: false, width: None }
    }

    pub fn right(self) -> (c: Self)
        ensures
            c == (Column { align_right: true, ..self }),
    {
        Column { align_right: true, ..self }
    }

    pub fn width(self, w: usize) -> (c: Self)
        ensures
            c == (Column { width: Some(w), ..self }),
    {
        Column { width: Some(w), ..self }
    }
}

/// How many characters the `i`-th cell of a row has.
pub open spec fn cell_len(row: Vec<String>, i: int) -> int {
    if 0 <= i < row@.len() {
        row@[i]@.len() as int
    } else {
        0
    }
}

/// The longest cell of a column, its header included.
pub open spec fn longest(rows: Seq<Vec<String>>, i: int, header: int) -> int
    decreases rows.len(),
{
    if rows.len() == 0 {
        header
    } else {
        let before = longest(rows.drop_last(), i, header);
        let last = cell_len(rows.last(), i);
        if last > before {
            last
        } else {
            before
        }
    }
}

/// How wide a column is: as its longest cell, but no wider than it may be.
pub open spec fn column_width(columns: Seq<Column>, rows: Seq<Vec<String>>, i: int) -> int {
    let n = longest(rows, i, columns[i].header@.len() as int);
    match columns[i].width {
        Some(w) if w < n => w as int,
        _ => n,
    }
}

pub open spec fn spaces(n: int) -> Seq<char> {
    Seq::new(
        if n > 0 {
            n as nat
        } else {
            0nat
        },
        |i: int| ' ',
    )
}

/// A cell in its width.
pub open spec fn cell_text(value: Seq<char>, width: int, align_right: bool) -> Seq<char> {
    let cell = clamped(value, width);
    let pad = spaces(width - cell.len());
    if align_right {
        pad + cell
    } else {
        cell + pad
    }
}

/// The cells of a row. A cell without a column is as wide as it is.
pub open spec fn cell_texts(columns: Seq<Column>, rows: Seq<Vec<String>>, values: Seq<Seq<char>>) -> Seq<
    Seq<char>,
> {
    Seq::new(
        values.len(),
        |i: int|
            if i < columns.len() {
                cell_text(values[i], column_width(columns, rows, i), columns[i].align_right)
            } else {
                cell_text(values[i], values[i].len() as int, false)
            },
    )
}

/// A line of a table.
pub open spec fn table_line(columns: Seq<Column>, rows: Seq<Vec<String>>, values: Seq<Seq<char>>) -> Seq<
    char,
> {
    text::trimmed_end(text::join_text(cell_texts(columns, rows, values), "  "@))
}

pub open spec fn header_texts(columns: Seq<Column>) -> Seq<Seq<char>> {
    Seq::new(columns.len(), |i: int| text::unicode_upper(columns[i].header@))
}

/// The lines of a table, its headers first.
pub open spec fn table_lines(columns: Seq<Column>, rows: Seq<Vec<String>>) -> Seq<Seq<char>> {
    seq![table_line(columns, rows, header_texts(columns))] + Seq::new(
        rows.len(),
        |i: int| table_line(columns, rows, text::texts(rows[i]@)),
    )
}

fn pad_spaces(n: usize) -> (r: String)
    ensures
        r@ == spaces(n as int),
{
    let mut r = String::new();
    let mut i: usize = 0;
    assert(r@ =~= spaces(0));
    while i < n
        invariant
            i <= n,
            r@ == spaces(i as int),
        decreases n - i,
    {
        r.push(' ');
        i = i + 1;
        assert(r@ =~= spaces(i as int));
    }
    r
}

fn make_cell(value: &str, width: usize, align_right: bool) -> (r: String)
    ensures
        r@ == cell_text(value@, width as int, align_right),
{
    let cell = clamp(value, width);
    let n: usize = text::chars_of(&cell).len();
    let pad = if n < width {
        pad_spaces(width - n)
    } else {
        pad_spaces(0)
    };
    assert(pad@ =~= spaces(width - cell@.len()));
    if align_right {
        text::cat2(&pad, &cell)
    } else {
        text::cat2(&cell, &pad)
    }
}

fn width_of(columns: &Vec<Column>, rows: &Vec<Vec<String>>, i: usize) -> (w: usize)
    requires
        i < columns.len(),
    ensures
        w == column_width(columns@, rows@, i as int),
{
    let header: usize = text::chars_of(&columns[i].header).len();
    let mut best: usize = header;
    for k in 0..rows.len()
        invariant
            i < columns.len(),
            header == columns[i as int].header@.len(),
            best == longest(rows@.take(k as int), i as int, header as int),
    {
        assert(rows@.take(k + 1).drop_last() =~= rows@.take(k as int));
        let row = &rows[k];
        let n: usize = if i < row.len() {
            text::chars_of(&row[i]).len()
        } else {
            0
        };
        if n > best {
            best = n;
        }
    }
    assert(rows@.take(rows.len() as int) =~= rows@);
    match columns[i].width {
        Some(w) => if w < best {
            w
        } else {
            best
        },
        None => best,
    }
}

fn make_line(
    columns: &Vec<Column>,
    widths: &Vec<usize>,
    values: &Vec<String>,
    Ghost(rows): Ghost<Seq<Vec<String>>>,
) -> (r: String)
    requires
        widths.len() == columns.len(),
        forall|i: int|
            0 <= i < columns.len() ==> #[trigger] widths[i] == column_width(columns@, rows, i),
    ensures
        r@ == table_line(columns@, rows, text::texts(values@)),
{
    let ghost all = text::texts(values@);
    let ghost goal = cell_texts(columns@, rows, all);
    let mut cells: Vec<String> = Vec::new();
    assert(text::texts(cells@) =~= goal.take(0));
    for i in 0..values.len()
        invariant
            all == text::texts(values@),
            goal == cell_texts(columns@, rows, all),
            widths.len() == columns.len(),
            forall|k: int|
                0 <= k < columns.len() ==> #[trigger] widths[k] == column_width(
                    columns@,
                    rows,
                    k,
                ),
            text::texts(cells@) == goal.take(i as int),
    {
        let cell = if i < columns.len() {
            make_cell(&values[i], widths[i], columns[i].align_right)
        } else {
            let n: usize = text::chars_of(&values[i]).len();
            make_cell(&values[i], n, false)
        };
        proof {
            assert(all[i as int] == values[i as int]@);
            assert(goal[i as int] == cell@);
            text::lemma_texts_push(cells@, cell);
            assert(goal.take(i + 1) =~= goal.take(i as int).push(cell@));
        }
        cells.push(cell);
    }
    assert(goal.take(goal.len() as int) =~= goal);
    text::trim_end(&text::join(&cells, "  "))
}

/// A table in a block, with as many of its rows as fit.
pub fn table(columns: &Vec<Column>, rows: &Vec<Vec<String>>, max: usize) -> (r: String)
    ensures
        r@ == fenced_text(table_lines(columns@, rows@), max as int),
{
    let mut widths: Vec<usize> = Vec::new();
    for i in 0..columns.len()
        invariant
            widths.len() == i,
            forall|k: int|
                0 <= k < i ==> #[trigger] widths[k] == column_width(columns@, rows@, k),
    {
        widths.push(width_of(columns, rows, i));
    }
    let mut headers: Vec<String> = Vec::new();
    let ghost heads = header_texts(columns@);
    assert(text::texts(headers@) =~= heads.take(0));
    for i in 0..columns.len()
        invariant
            heads == header_texts(columns@),
            text::texts(headers@) == heads.take(i as int),
    {
        let h = text::to_uppercase(&columns[i].header);
        proof {
            text::lemma_texts_push(headers@, h);
            assert(heads.take(i + 1) =~= heads.take(i as int).push(h@));
        }
        headers.push(h);
    }
    assert(heads.take(heads.len() as int) =~= heads);
    let ghost goal = table_lines(columns@, rows@);
    let mut lines: Vec<String> = Vec::new();
    let first = make_line(columns, &widths, &headers, Ghost(rows@));
    proof {
        text::lemma_texts_push(lines@, first);
    }
    lines.push(first);
    assert(text::texts(lines@) =~= goal.take(1));
    for i in 0..rows.len()
        invariant
            widths.len() == columns.len(),
            forall|k: int|
                0 <= k < columns.len() ==> #[trigger] widths[k] == column_width(
                    columns@,
                    rows@,
                    k,
                ),
            goal == table_lines(columns@, rows@),
            text::texts(lines@) == goal.take(i + 1),
    {
        let line = make_line(columns, &widths, &rows[i], Ghost(rows@));
        proof {
            assert(goal[i + 1] == line@);
            text::lemma_texts_push(lines@, line);
            assert(goal.take(i + 2) =~= goal.take(i + 1).push(line@));
        }
        lines.push(line);
    }
    assert(goal.take(goal.len() as int) =~= goal);
    fenced(&lines, max)
}

// ---------------------------------------------------------------------------
// Footers
// ---------------------------------------------------------------------------

/// The texts that are not empty.
pub open spec fn filled(all: Seq<Seq<char>>) -> Seq<Seq<char>>
    decreases all.len(),
{
    if all.len() == 0 {
        Seq::empty()
    } else if all.last().len() > 0 {
        filled(all.drop_last()).push(all.last())
    } else {
        filled(all.drop_last())
    }
}

pub open spec fn footer_text(server_label: Seq<char>, extra: Seq<Seq<char>>) -> Seq<char> {
    text::join_text(seq![server_label] + filled(extra), "  ·  "@)
}

pub fn footer(server_label: &str, extra: &Vec<String>) -> (r: String)
    ensures
        r@ == footer_text(server_label@, text::texts(extra@)),
{
    let ghost all = text::texts(extra@);
    let mut parts: Vec<String> = Vec::new();
    let label = text::copy(server_label);
    proof {
        text::lemma_texts_push(parts@, label);
    }
    parts.push(label);
    assert(text::texts(parts@) =~= seq![server_label@] + filled(all.take(0)));
    for i in 0..extra.len()
        invariant
            all == text::texts(extra@),
            text::texts(parts@) == seq![server_label@] + filled(all.take(i as int)),
    {
        assert(all.take(i + 1).drop_last() =~= all.take(i as int));
        if !extra[i].as_str().is_empty() {
            let e = extra[i].clone();
            let ghost so_far = text::texts(parts@);
            proof {
                text::lemma_texts_push(parts@, e);
            }
            parts.push(e);
            assert(so_far.push(e@) =~= seq![server_label@] + filled(all.take(i + 1)));
        }
    }
    assert(all.take(all.len() as int) =~= all);
    text::join(&parts, "  ·  ")
}

// ---------------------------------------------------------------------------
// What holds of escaped texts and of numbers
// ---------------------------------------------------------------------------

/// Texts are escaped one behind the other.
pub proof fn lemma_backslashes_apart(a: Seq<char>, b: Seq<char>)
    ensures
        with_backslashes(a + b) == with_backslashes(a) + with_backslashes(b),
    decreases b.len(),
{
    if b.len() == 0 {
        assert(a + b =~= a);
        assert(with_backslashes(a) + with_backslashes(b) =~= with_backslashes(a));
    } else {
        lemma_backslashes_apart(a, b.drop_last());
        assert((a + b).drop_last() =~= a + b.drop_last());
        assert(with_backslashes(a + b) =~= with_backslashes(a) + with_backslashes(b));
    }
}

/// A text in which nothing means anything to Discord is posted as it is.
pub proof fn lemma_plain_texts_stay(s: Seq<char>)
    requires
        forall|i: int| 0 <= i < s.len() ==> !is_markup(#[trigger] s[i]),
    ensures
        with_backslashes(s) == s,
    decreases s.len(),
{
    if s.len() > 0 {
        let init = s.drop_last();
        assert forall|i: int| 0 <= i < init.len() implies !is_markup(#[trigger] init[i]) by {
            assert(!is_markup(s[i]));
        }
        lemma_plain_texts_stay(init);
        assert(!is_markup(s[s.len() - 1]));
        assert(init.push(s.last()) =~= s);
    } else {
        assert(with_backslashes(s) =~= s);
    }
}

/// Escaping at most doubles a text.
pub proof fn lemma_escaped_size(s: Seq<char>)
    ensures
        with_backslashes(s).len() <= 2 * s.len(),
    decreases s.len(),
{
    if s.len() > 0 {
        lemma_escaped_size(s.drop_last());
    }
}

/// A sentence of words is posted as it is, with the words escaped.
pub proof fn lemma_sentence(first: Seq<char>, rest: Seq<Seq<char>>)
    requires
        text::is_word(first),
        text::all_words(rest),
        rest.len() > 0,
    ensures
        escaped(first + " "@ + text::join_text(rest, " "@)) == escaped(first) + with_backslashes(
            " "@ + text::join_text(rest, " "@),
        ),
        escaped(first) == with_backslashes(first),
{
    let all = seq![first] + rest;
    text::lemma_join_front(first, rest, " "@);
    assert forall|i: int| 0 <= i < all.len() implies text::is_word(#[trigger] all[i]) by {
        if i > 0 {
            assert(all[i] == rest[i - 1]);
            assert(text::is_word(rest[i - 1]));
        }
    }
    text::lemma_words_of_joined(all);
    let one = seq![first];
    assert(text::all_words(one));
    text::lemma_words_of_joined(one);
    assert(text::join_text(one, " "@) == first);
    let tail = " "@ + text::join_text(rest, " "@);
    assert(first + " "@ + text::join_text(rest, " "@) =~= first + tail);
    lemma_backslashes_apart(first, tail);
}

proof fn lemma_commas_kept(digits: Seq<char>)
    requires
        !digits.contains(','),
    ensures
        text::kept(commas(digits), |c: char| c != ',') == digits,
    decreases digits.len(),
{
    reveal_strlit(",");
    let p = |c: char| c != ',';
    if digits.len() <= 3 {
        lemma_kept_all(digits, p);
    } else {
        let front = digits.take(digits.len() - 3);
        let back = digits.skip(digits.len() - 3);
        assert(!front.contains(',')) by {
            assert forall|i: int| 0 <= i < front.len() implies front[i] != ',' by {
                assert(digits.contains(digits[i]));
            }
        }
        lemma_commas_kept(front);
        assert forall|i: int| 0 <= i < back.len() implies #[trigger] p(back[i]) by {
            assert(digits.contains(digits[digits.len() - 3 + i]));
        }
        lemma_kept_all(back, p);
        lemma_kept_apart(commas(front) + ","@, back, p);
        lemma_kept_apart(commas(front), ","@, p);
        assert(text::kept(","@, p) =~= Seq::<char>::empty()) by {
            assert(","@.drop_last() =~= Seq::<char>::empty());
            assert(text::kept(","@.drop_last(), p) =~= Seq::<char>::empty());
        }
        assert(digits =~= front + back);
        assert(text::kept(commas(front), p) + Seq::<char>::empty() + back =~= digits);
        assert(text::kept(commas(front), p) + Seq::<char>::empty() =~= front);
    }
}

proof fn lemma_kept_all(s: Seq<char>, p: spec_fn(char) -> bool)
    requires
        forall|i: int| 0 <= i < s.len() ==> #[trigger] p(s[i]),
    ensures
        text::kept(s, p) == s,
    decreases s.len(),
{
    if s.len() > 0 {
        let init = s.drop_last();
        assert forall|i: int| 0 <= i < init.len() implies #[trigger] p(init[i]) by {
            assert(p(s[i]));
        }
        lemma_kept_all(init, p);
        assert(p(s[s.len() - 1]));
        assert(init.push(s.last()) =~= s);
    } else {
        assert(text::kept(s, p) =~= s);
    }
}

proof fn lemma_kept_apart(a: Seq<char>, b: Seq<char>, p: spec_fn(char) -> bool)
    ensures
        text::kept(a + b, p) == text::kept(a, p) + text::kept(b, p),
    decreases b.len(),
{
    if b.len() == 0 {
        assert(a + b =~= a);
        assert(text::kept(a, p) + text::kept(b, p) =~= text::kept(a, p));
    } else {
        lemma_kept_apart(a, b.drop_last(), p);
        assert((a + b).drop_last() =~= a + b.drop_last());
        assert(text::kept(a + b, p) =~= text::kept(a, p) + text::kept(b, p));
    }
}

/// A count that is shown is the count in decimal once its commas are gone, and a
/// comma stands before its last three digits where it has more.
pub proof fn lemma_counts_show_their_digits(n: int)
    requires
        n >= 0,
    ensures
        text::kept(grouped(n), |c: char| c != ',') == text::decimal(n),
        n < 1000 ==> grouped(n) == text::decimal(n),
        n >= 1000 ==> grouped(n).len() > 4 && grouped(n)[grouped(n).len() - 4] == ',',
{
    reveal_strlit(",");
    text::lemma_decimal_reads_back(n);
    let d = text::decimal(n);
    assert(!d.contains(',')) by {
        assert forall|i: int| 0 <= i < d.len() implies d[i] != ',' by {
            assert(text::is_digit(d[i]));
        }
    }
    lemma_commas_kept(d);
    lemma_decimal_len(n);
    if d.len() > 3 {
        let front = d.take(d.len() - 3);
        assert(commas(d) =~= commas(front) + ","@ + d.skip(d.len() - 3));
        lemma_commas_len(front);
    }
}

proof fn lemma_commas_len(digits: Seq<char>)
    ensures
        commas(digits).len() >= digits.len(),
    decreases digits.len(),
{
    if digits.len() > 3 {
        lemma_commas_len(digits.take(digits.len() - 3));
    }
}

proof fn lemma_decimal_len(n: int)
    requires
        n >= 0,
    ensures
        n < 1000 <==> text::decimal(n).len() <= 3,
{
    reveal_with_fuel(text::decimal, 5);
    if n >= 1000 {
        assert(n / 10 / 10 / 10 >= 1);
        text::lemma_decimal_reads_back(n / 10 / 10 / 10);
    }
}

/// Two counts that are shown alike are one.
pub proof fn lemma_counts_tell_apart(a: int, b: int)
    requires
        a >= 0,
        b >= 0,
        grouped(a) == grouped(b),
    ensures
        a == b,
{
    lemma_counts_show_their_digits(a);
    lemma_counts_show_their_digits(b);
    text::lemma_decimal_tells_apart(a, b);
}

/// A duration shows the minutes it has, rounded, as days, hours below a day and
/// minutes below an hour.
pub proof fn lemma_durations_add_up(ms: int, d: int, h: int, m: int)
    requires
        0 <= d,
        0 <= h < 24,
        0 <= m < 60,
        -30_000 <= ms - ((d * 24 + h) * 60 + m) * 60_000 < 30_000,
        ms >= 0,
    ensures
        d == 0 && h == 0 ==> duration_text(ms) == text::decimal(m) + "m"@,
        d == 0 && h > 0 ==> duration_text(ms) == text::decimal(h) + "h "@ + (text::decimal(m)
            + "m"@),
        d > 0 ==> duration_text(ms) == text::decimal(d) + "d "@ + text::decimal(h) + "h "@ + (
        text::decimal(m) + "m"@),
{
    let total = (d * 24 + h) * 60 + m;
    assert(minutes(ms) == total) by (nonlinear_arith)
        requires
            total >= 0,
            ms >= 0,
            -30_000 <= ms - total * 60_000 < 30_000,
            minutes(ms) == (if ms <= 0 { 0 } else { (ms + 30_000) / 60_000 }),
    ;
    assert(total / 1440 == d && (total / 60) % 24 == h && total % 60 == m) by (nonlinear_arith)
        requires
            total == (d * 24 + h) * 60 + m,
            0 <= d,
            0 <= h < 24,
            0 <= m < 60,
    ;
}

/// An arrow says which way a number went.
pub proof fn lemma_trends_point_right(current: int, previous: int, size: Seq<char>)
    ensures
        current > previous ==> text::begins(trend_text(current, previous, size), "▲ "@),
        current < previous ==> text::begins(trend_text(current, previous, size), "▼ "@),
        current == previous ==> trend_text(current, previous, size) == "• same"@,
{
    assert(("▲ "@ + size).take("▲ "@.len() as int) =~= "▲ "@);
    assert(("▼ "@ + size).take("▼ "@.len() as int) =~= "▼ "@);
}

/// A time is shown by its whole seconds.
pub proof fn lemma_times_are_seconds(s: int, style: Seq<char>)
    ensures
        time_tag(s * 1_000_000, style) == "<t:"@ + text::signed_decimal(s) + ":"@ + style + ">"@,
{
}

/// A cell is as wide as its column: what is too long is cut, what is too short is filled up
/// with spaces, before it or behind it.
pub proof fn lemma_cells_fill_their_column(value: Seq<char>, width: int)
    requires
        value.len() <= width,
    ensures
        cell_text(value, width, false).len() == width,
        cell_text(value, width, true).len() == width,
        text::begins(cell_text(value, width, false), value),
        text::ends(cell_text(value, width, true), value),
        spaces(width).len() == width,
{
    assert(clamped(value, width) == value);
    assert(cell_text(value, width, false).take(value.len() as int) =~= value);
    let r = cell_text(value, width, true);
    assert(r.skip(r.len() - value.len()) =~= value);
}

/// A column is as wide as its longest cell, unless it is held to less.
pub proof fn lemma_columns_fit_their_cells(rows: Seq<Vec<String>>, row: Vec<String>, i: int, header: int)
    ensures
        longest(Seq::empty(), i, header) == header,
        longest(rows.push(row), i, header) >= longest(rows, i, header),
        longest(rows.push(row), i, header) >= cell_len(row, i),
        longest(rows.push(row), i, header) == longest(rows, i, header) || longest(
            rows.push(row),
            i,
            header,
        ) == cell_len(row, i),
{
    assert(rows.push(row).drop_last() =~= rows);
}

/// A table has a line for its headers and one for each row, in order.
pub proof fn lemma_tables_have_lines(columns: Seq<Column>, rows: Seq<Vec<String>>, i: int)
    requires
        0 <= i < rows.len(),
    ensures
        table_lines(columns, rows).len() == rows.len() + 1,
        table_lines(columns, rows)[0] == table_line(columns, rows, header_texts(columns)),
        table_lines(columns, rows)[i + 1] == table_line(columns, rows, text::texts(rows[i]@)),
{
}

/// A footer names the server first and leaves out what is empty.
pub proof fn lemma_footers(server_label: Seq<char>, extra: Seq<Seq<char>>, part: Seq<char>)
    ensures
        part.len() > 0 ==> filled(extra.push(part)) == filled(extra).push(part),
        filled(extra.push(Seq::empty())) == filled(extra),
        filled(extra).len() == 0 ==> footer_text(server_label, extra) == server_label,
{
    assert(extra.push(part).drop_last() =~= extra);
    assert(extra.push(Seq::empty()).drop_last() =~= extra);
    if filled(extra).len() == 0 {
        let one = seq![server_label] + filled(extra);
        assert(one =~= seq![server_label]);
        reveal_with_fuel(text::join_text, 2);
        assert(one.drop_last().len() == 0);
    }
}

/// The colours of kinds tell joins, leaves, deaths, advancements and whispers apart.
pub proof fn lemma_colours_tell_kinds_apart()
    ensures
        Palette::JOIN == 0x57f287,
        Palette::LEAVE == 0xed4245,
        Palette::DEATH == 0x992d22,
        Palette::ADVANCEMENT == 0xfee75c,
        Palette::WHISPER == 0xeb459e,
        Palette::BRAND == 0x5865f2,
        Palette::NEUTRAL == 0x9aa0a6,
        Palette::MUTED == 0x2b2d31,
{
}

/// What is too long is cut to its limit and ends in a dot of its own; what fits stays.
pub proof fn lemma_cuts(s: Seq<char>, max: int)
    requires
        0 < max,
    ensures
        s.len() <= max ==> clamped(s, max) == s,
        s.len() > max ==> clamped(s, max).len() == max && clamped(s, max).last() == '…' && text::begins(
            s,
            clamped(s, max).drop_last(),
        ),
{
    reveal_strlit("…");
    if s.len() > max {
        assert(clamped(s, max).drop_last() =~= s.take(max - 1));
        assert(s.take((max - 1) as int) =~= s.take(clamped(s, max).drop_last().len() as int));
    }
}

/// Text in the shape of code stands between backquotes, with none inside.
pub proof fn lemma_code(s: Seq<char>)
    requires
        !s.contains('`'),
    ensures
        code_text(s) == "`"@ + s + "`"@,
        bold_text(s) == "**"@ + s + "**"@,
        italic_text(s) == "*"@ + s + "*"@,
{
    reveal_strlit("`");
    assert("`"@ =~= seq!['`']);
    text::lemma_nothing_to_replace(s, '`', "`"@, "ˋ"@);
}

} // verus!
