//! Pages of statistics, logs and leaderboards.
use vstd::prelude::*;
use vstd::string::*;

use crate::config;
use crate::config::Config;
use crate::embeds;
use crate::embeds::{Embed, EmbedText};
use crate::formatting;
use crate::formatting::{Category, Column, Limits, Palette};
use crate::models::{
    DatabaseStats, EventKind, EventRow, LeaderMetric, LeaderRow, PlayerStats, WindowStats,
    MIN_KILLS_FOR_KD,
};
use crate::text;

verus! {

fn lines() -> (v: Vec<String>)
    ensures
        text::texts(v@) == Seq::<Seq<char>>::empty(),
{
    let v: Vec<String> = Vec::new();
    assert(text::texts(v@) =~= Seq::<Seq<char>>::empty());
    v
}

fn line(v: &mut Vec<String>, s: String)
    ensures
        text::texts(final(v)@) == text::texts(old(v)@).push(s@),
{
    proof {
        text::lemma_texts_push(v@, s);
    }
    v.push(s);
}

/// Where a page stands and how long it took. `elapsed` is in seconds, with two
/// decimals.
pub open spec fn pager_text(
    page: int,
    page_count: int,
    server_label: Seq<char>,
    window_label: Seq<char>,
    elapsed: Seq<char>,
) -> Seq<char> {
    formatting::footer_text(
        server_label,
        seq![
            window_label,
            "Page "@ + text::decimal(page + 1) + "/"@ + text::decimal(
                if page_count > 1 {
                    page_count
                } else {
                    1
                },
            ),
            "Done in "@ + elapsed + "s"@,
        ],
    )
}

/// A page among its pages.
pub struct PageInfo<'a> {
    pub page: u64,
    pub page_count: u64,
    pub server_label: &'a str,
    pub window_label: &'a str,
    /// How many seconds it took, with two decimals.
    pub elapsed: &'a str,
}

pub open spec fn page_footer(p: PageInfo) -> Seq<char> {
    pager_text(
        p.page as int,
        p.page_count as int,
        p.server_label@,
        p.window_label@,
        p.elapsed@,
    )
}

pub fn pager_footer(p: &PageInfo) -> (r: String)
    requires
        p.page < u64::MAX,
    ensures
        r@ == page_footer(*p),
{
    let count: u64 = if p.page_count > 1 {
        p.page_count
    } else {
        1
    };
    let mut extra = lines();
    line(&mut extra, text::copy(p.window_label));
    line(
        &mut extra,
        text::cat4("Page ", &text::number(p.page + 1), "/", &text::number(count)),
    );
    line(&mut extra, text::cat3("Done in ", p.elapsed, "s"));
    assert(text::texts(extra@) =~= seq![
        p.window_label@,
        "Page "@ + text::decimal(p.page + 1) + "/"@ + text::decimal(count as int),
        "Done in "@ + p.elapsed@ + "s"@,
    ]);
    formatting::footer(p.server_label, &extra)
}

// ---------------------------------------------------------------------------
// Logs
// ---------------------------------------------------------------------------

pub open spec fn event_title(kind: EventKind) -> Seq<char> {
    match kind {
        EventKind::Chat => "Messages"@,
        EventKind::Join => "Joins"@,
        EventKind::Leave => "Leaves"@,
        EventKind::Death => "Deaths"@,
        EventKind::Kill => "Kills"@,
        EventKind::Advancement => "Advancements"@,
    }
}

pub fn title_of(kind: EventKind) -> (s: &'static str)
    ensures
        s@ == event_title(kind),
{
    match kind {
        EventKind::Chat => "Messages",
        EventKind::Join => "Joins",
        EventKind::Leave => "Leaves",
        EventKind::Death => "Deaths",
        EventKind::Kill => "Kills",
        EventKind::Advancement => "Advancements",
    }
}

pub open spec fn page_colour(kind: EventKind) -> u32 {
    match kind {
        EventKind::Chat => Palette::ADVANCEMENT,
        EventKind::Join => Palette::JOIN,
        EventKind::Leave => Palette::LEAVE,
        EventKind::Death | EventKind::Kill => Palette::DEATH,
        EventKind::Advancement => Palette::ADVANCEMENT,
    }
}

pub fn event_page_color(kind: EventKind) -> (c: u32)
    ensures
        c == page_colour(kind),
{
    match kind {
        EventKind::Chat => Palette::ADVANCEMENT,
        EventKind::Join => Palette::JOIN,
        EventKind::Leave => Palette::LEAVE,
        EventKind::Death | EventKind::Kill => Palette::DEATH,
        EventKind::Advancement => Palette::ADVANCEMENT,
    }
}

pub open spec fn event_empty(kind: EventKind) -> Seq<char> {
    match kind {
        EventKind::Chat => "No messages in this window."@,
        EventKind::Join => "No joins in this window."@,
        EventKind::Leave => "No leaves in this window."@,
        EventKind::Death => "No deaths in this window."@,
        EventKind::Kill => "No kills in this window."@,
        EventKind::Advancement => "No advancements in this window."@,
    }
}

fn empty_of(kind: EventKind) -> (s: &'static str)
    ensures
        s@ == event_empty(kind),
{
    match kind {
        EventKind::Chat => "No messages in this window.",
        EventKind::Join => "No joins in this window.",
        EventKind::Leave => "No leaves in this window.",
        EventKind::Death => "No deaths in this window.",
        EventKind::Kill => "No kills in this window.",
        EventKind::Advancement => "No advancements in this window.",
    }
}

/// What an event of a player is in words.
pub open spec fn event_words(kind: EventKind, row: EventRow) -> Seq<char> {
    let detail = text::opt_text(row.detail);
    match kind {
        EventKind::Chat => text::text_or_empty(detail),
        EventKind::Death => match detail {
            Some(d) => d,
            None => "died"@,
        },
        EventKind::Join => "joined"@,
        EventKind::Leave => "left"@,
        EventKind::Kill => "killed "@ + match detail {
            Some(d) => d,
            None => "?"@,
        },
        EventKind::Advancement => match detail {
            Some(d) => d,
            None => row.player_name@,
        },
    }
}

pub fn event_line_text(kind: EventKind, row: &EventRow) -> (r: String)
    ensures
        r@ == event_words(kind, *row),
{
    match kind {
        EventKind::Chat => match &row.detail {
            Some(d) => d.clone(),
            None => String::new(),
        },
        EventKind::Death => match &row.detail {
            Some(d) => d.clone(),
            None => text::copy("died"),
        },
        EventKind::Join => text::copy("joined"),
        EventKind::Leave => text::copy("left"),
        EventKind::Kill => match &row.detail {
            Some(d) => text::cat2("killed ", d),
            None => text::cat2("killed ", "?"),
        },
        EventKind::Advancement => match &row.detail {
            Some(d) => d.clone(),
            None => row.player_name.clone(),
        },
    }
}

/// Whether a text holds characters that mean something to Discord.
pub open spec fn messy(s: Seq<char>) -> bool {
    exists|i: int| 0 <= i < s.len() && formatting::is_markup(#[trigger] s[i])
}

fn is_messy(s: &str) -> (b: bool)
    ensures
        b == messy(s@),
{
    let v = text::chars_of(s);
    for i in 0..v.len()
        invariant
            v@ == s@,
            forall|k: int| 0 <= k < i ==> !formatting::is_markup(#[trigger] s@[k]),
    {
        let c = v[i];
        if c == '*' || c == '_' || c == '`' || c == '|' || c == '~' || c == '\\' {
            assert(formatting::is_markup(s@[i as int]));
            return true;
        }
        assert(!formatting::is_markup(s@[i as int]));
    }
    false
}

/// The text with the first place at which it holds the needle in bold, whatever
/// the case of the letters. A text or needle with markup in it stays as it is.
pub open spec fn highlighted(s: Seq<char>, needle: Option<Seq<char>>) -> Seq<char> {
    match needle {
        Some(n) => {
            let pin = text::trimmed(n);
            if pin.len() == 0 || messy(pin) || messy(s) {
                s
            } else {
                match text::find_text(text::lowered(s), text::lowered(pin)) {
                    Some(k) => s.take(k) + formatting::bold_text(
                        s.subrange(k, k + pin.len()),
                    ) + s.skip(k + pin.len()),
                    None => s,
                }
            }
        },
        None => s,
    }
}

pub fn highlight_clip(s: &str, needle: Option<&str>) -> (r: String)
    ensures
        r@ == highlighted(s@, text::opt_str(needle)),
{
    let pin = match needle {
        Some(n) => text::trim(n),
        None => {
            return text::copy(s);
        },
    };
    if pin.as_str().is_empty() || is_messy(&pin) || is_messy(s) {
        return text::copy(s);
    }
    let v = text::chars_of(s);
    let hay = text::chars_of(&text::lower(s));
    let low = text::chars_of(&text::lower(&pin));
    proof {
        text::lemma_find_text(hay@, low@);
    }
    match text::find_in(&hay, &low) {
        Some(k) => {
            let n: usize = low.len();
            let head = text::string_of(&v, 0, k);
            let mid = text::string_of(&v, k, k + n);
            let tail = text::string_of(&v, k + n, v.len());
            assert(head@ =~= s@.take(k as int));
            assert(tail@ =~= s@.skip(k + n));
            text::cat3(&head, &formatting::bold(&mid), &tail)
        },
        None => text::copy(s),
    }
}

/// The most characters of what a line of a log says.
pub const CLIP_CHARS: usize = 80;

/// A line of a log.
pub open spec fn log_line_text(
    name: Seq<char>,
    at: int,
    said: Seq<char>,
    needle: Option<Seq<char>>,
) -> Seq<char> {
    formatting::time_tag(at, "f"@) + " "@ + formatting::code_text(name) + " » "@ + highlighted(
        formatting::clamped(said, CLIP_CHARS as int),
        needle,
    )
}

pub fn player_log_line_marked(name: &str, at: i64, said: &str, needle: Option<&str>) -> (r: String)
    ensures
        r@ == log_line_text(name@, at as int, said@, text::opt_str(needle)),
{
    text::cat5(
        &formatting::date_time(at),
        " ",
        &formatting::code(name),
        " » ",
        &highlight_clip(&formatting::clamp(said, CLIP_CHARS), needle),
    )
}

pub fn player_log_line(name: &str, at: i64, said: &str) -> (r: String)
    ensures
        r@ == log_line_text(name@, at as int, said@, None),
{
    player_log_line_marked(name, at, said, None)
}

pub open spec fn log_lines(kind: EventKind, rows: Seq<EventRow>) -> Seq<Seq<char>> {
    Seq::new(
        rows.len(),
        |i: int|
            log_line_text(
                rows[i].player_name@,
                rows[i].occurred_at as int,
                event_words(kind, rows[i]),
                None,
            ),
    )
}

pub fn event_log_lines(kind: EventKind, rows: &Vec<EventRow>) -> (r: Vec<String>)
    ensures
        text::texts(r@) == log_lines(kind, rows@),
{
    let ghost goal = log_lines(kind, rows@);
    let mut r = lines();
    assert(goal.take(0) =~= Seq::<Seq<char>>::empty());
    for i in 0..rows.len()
        invariant
            goal == log_lines(kind, rows@),
            text::texts(r@) == goal.take(i as int),
    {
        let l = player_log_line(
            &rows[i].player_name,
            rows[i].occurred_at,
            &event_line_text(kind, &rows[i]),
        );
        assert(goal[i as int] == l@);
        line(&mut r, l);
        assert(text::texts(r@) =~= goal.take(i + 1));
    }
    assert(goal.take(goal.len() as int) =~= goal);
    r
}

/// The lines, or what is said where there are none.
pub open spec fn page_body(all: Seq<Seq<char>>, empty: Seq<char>) -> Seq<char> {
    if all.len() == 0 {
        formatting::italic_text(empty)
    } else {
        formatting::joined_lines(all, Limits::DESCRIPTION as int)
    }
}

fn make_body(all: &Vec<String>, empty: &str) -> (r: String)
    ensures
        r@ == page_body(text::texts(all@), empty@),
{
    if all.len() == 0 {
        formatting::italic(empty)
    } else {
        formatting::join_lines(all, Limits::DESCRIPTION)
    }
}

/// A page of a log.
pub open spec fn log_page(
    colour: u32,
    title: Seq<char>,
    body: Seq<char>,
    footer: Seq<char>,
    now_us: i64,
) -> EmbedText {
    EmbedText {
        title: Some(title),
        description: Some(body),
        footer: Some((footer, None)),
        timestamp: Some(now_us),
        ..embeds::blank(colour)
    }
}

fn make_page(colour: u32, title: String, body: String, footer: String, now_us: i64) -> (e: Embed)
    ensures
        e@ == log_page(colour, title@, body@, footer@, now_us),
{
    Embed::new(colour).titled(title).described(body).with_footer(footer).at(now_us)
}

/// The title of a page of events: of everyone, or of one player.
pub open spec fn events_title(kind: EventKind, player: Option<Seq<char>>) -> Seq<char> {
    match player {
        Some(name) => name + "'s "@ + text::unicode_lower(event_title(kind)),
        None => event_title(kind),
    }
}

/// A page of events. With a player it shows the head of that player.
pub open spec fn events_page(
    kind: EventKind,
    rows: Seq<EventRow>,
    footer: Seq<char>,
    player: Option<Seq<char>>,
    config: config::ConfigText,
    now_us: i64,
) -> EmbedText {
    EmbedText {
        author: match player {
            Some(name) => Some(embeds::author_of_player(name, config)),
            None => None,
        },
        ..log_page(
            page_colour(kind),
            events_title(kind, player),
            page_body(log_lines(kind, rows), event_empty(kind)),
            footer,
            now_us,
        )
    }
}

pub fn build_events_page_embed(
    kind: EventKind,
    rows: &Vec<EventRow>,
    p: &PageInfo,
    player: Option<&str>,
    config: &Config,
    now_us: i64,
) -> (e: Embed)
    requires
        p.page < u64::MAX,
    ensures
        e@ == events_page(
            kind,
            rows@,
            page_footer(*p),
            text::opt_str(player),
            config@,
            now_us,
        ),
{
    let title = match player {
        Some(name) => text::cat3(name, "'s ", &text::to_lowercase(title_of(kind))),
        None => text::copy(title_of(kind)),
    };
    let body = make_body(&event_log_lines(kind, rows), empty_of(kind));
    let page = make_page(event_page_color(kind), title, body, pager_footer(p), now_us);
    match player {
        Some(name) => page.authored(name, config),
        None => page,
    }
}

pub fn build_player_log_embed(
    name: &str,
    title: &str,
    colour: u32,
    all: &Vec<String>,
    empty: &str,
    p: &PageInfo,
    config: &Config,
    now_us: i64,
) -> (e: Embed)
    requires
        p.page < u64::MAX,
    ensures
        e@ == (EmbedText {
            author: Some(embeds::author_of_player(name@, config@)),
            ..log_page(
                colour,
                title@,
                page_body(text::texts(all@), empty@),
                page_footer(*p),
                now_us,
            )
        }),
{
    make_page(
        colour,
        text::copy(title),
        make_body(all, empty),
        pager_footer(p),
        now_us,
    ).authored(name, config)
}

/// A page of messages. With a player it shows that player.
pub open spec fn messages_page(
    title: Seq<char>,
    all: Seq<Seq<char>>,
    footer: Seq<char>,
    player: Option<Seq<char>>,
    config: config::ConfigText,
    now_us: i64,
) -> EmbedText {
    EmbedText {
        author: match player {
            Some(name) => Some(embeds::author_of_player(name, config)),
            None => None,
        },
        thumbnail: match player {
            Some(name) => Some(config::body_url(name)),
            None => None,
        },
        ..log_page(
            Palette::ADVANCEMENT,
            title,
            page_body(all, "No messages in this window."@),
            footer,
            now_us,
        )
    }
}

pub fn build_message_log_embed(
    title: &str,
    all: &Vec<String>,
    p: &PageInfo,
    player: Option<&str>,
    config: &Config,
    now_us: i64,
) -> (e: Embed)
    requires
        p.page < u64::MAX,
    ensures
        e@ == messages_page(
            title@,
            text::texts(all@),
            page_footer(*p),
            text::opt_str(player),
            config@,
            now_us,
        ),
{
    let page = make_page(
        Palette::ADVANCEMENT,
        text::copy(title),
        make_body(all, "No messages in this window."),
        pager_footer(p),
        now_us,
    );
    match player {
        Some(name) => page.authored(name, config).picturing(name, config),
        None => page,
    }
}

// ---------------------------------------------------------------------------
// Statistics
// ---------------------------------------------------------------------------

/// How much each number of a window changed, in short.
pub struct TrendSizes {
    pub chat: String,
    pub joins: String,
    pub leaves: String,
    pub deaths: String,
    pub kills: String,
}

/// A number and how it changed against the window before. All time has no window
/// before it.
pub open spec fn trending(
    current: int,
    previous: Option<(int, Seq<char>)>,
    window_label: Seq<char>,
) -> Seq<char> {
    formatting::bold_text(formatting::grouped(current)) + match previous {
        Some((before, size)) => if window_label != "all time"@ {
            " · "@ + formatting::trend_text(current, before, size)
        } else {
            Seq::empty()
        },
        None => Seq::empty(),
    }
}

fn trend_line(label: &str, current: i64, previous: Option<(i64, &String)>, window_label: &str) -> (r:
    String)
    ensures
        r@ == formatting::overview(
            label@,
            trending(
                current as int,
                match previous {
                    Some((before, size)) => Some((before as int, size@)),
                    None => None,
                },
                window_label@,
            ),
        ),
{
    let number = formatting::bold(&formatting::fmt(current));
    let value = match previous {
        Some((before, size)) => if !text::same(window_label, "all time") {
            let mut s = number;
            let suffix = text::cat2(" · ", &formatting::trend_i64(current, before, size));
            s.append(&suffix);
            s
        } else {
            assert(number@ =~= number@ + Seq::<char>::empty());
            number
        },
        None => {
            assert(number@ =~= number@ + Seq::<char>::empty());
            number
        },
    };
    formatting::overview_line(label, &value)
}

/// The lines of the overview of a server.
pub open spec fn stats_lines(
    window_label: Seq<char>,
    now: WindowStats,
    before: Option<(WindowStats, TrendSizes)>,
    online: int,
    last_seen: Option<i64>,
) -> Seq<Seq<char>> {
    let trend = |label: Seq<char>, n: int, was: Option<(int, Seq<char>)>|
        formatting::overview(label, trending(n, was, window_label));
    let all = seq![
        formatting::overview_number("Online"@, online),
        formatting::overview_number("Players"@, now.players as int),
        ""@,
        trend("Messages"@, now.chat as int, match before {
            Some((w, t)) => Some((w.chat as int, t.chat@)),
            None => None,
        }),
        trend("Joins"@, now.joins as int, match before {
            Some((w, t)) => Some((w.joins as int, t.joins@)),
            None => None,
        }),
        trend("Leaves"@, now.leaves as int, match before {
            Some((w, t)) => Some((w.leaves as int, t.leaves@)),
            None => None,
        }),
        formatting::overview_number("Advancements"@, now.goals as int),
        ""@,
        trend("Deaths"@, now.deaths as int, match before {
            Some((w, t)) => Some((w.deaths as int, t.deaths@)),
            None => None,
        }),
        trend("PvP kills"@, now.kills as int, match before {
            Some((w, t)) => Some((w.kills as int, t.kills@)),
            None => None,
        }),
    ];
    match last_seen {
        Some(t) => all.push(""@).push(
            formatting::overview(
                "Latest"@,
                formatting::bold_text(formatting::time_tag(t as int, "f"@)),
            ),
        ),
        None => all,
    }
}

fn make_stats_lines(
    window_label: &str,
    now: &WindowStats,
    before: Option<(&WindowStats, &TrendSizes)>,
    online: i64,
    last_seen: Option<i64>,
) -> (r: Vec<String>)
    ensures
        text::texts(r@) == stats_lines(
            window_label@,
            *now,
            match before {
                Some((w, t)) => Some((*w, *t)),
                None => None,
            },
            online as int,
            last_seen,
        ),
{
    let chat = match before {
        Some((w, t)) => Some((w.chat, &t.chat)),
        None => None,
    };
    let joins = match before {
        Some((w, t)) => Some((w.joins, &t.joins)),
        None => None,
    };
    let leaves = match before {
        Some((w, t)) => Some((w.leaves, &t.leaves)),
        None => None,
    };
    let deaths = match before {
        Some((w, t)) => Some((w.deaths, &t.deaths)),
        None => None,
    };
    let kills = match before {
        Some((w, t)) => Some((w.kills, &t.kills)),
        None => None,
    };
    let mut all = lines();
    line(&mut all, formatting::overview_num("Online", online));
    line(&mut all, formatting::overview_num("Players", now.players));
    line(&mut all, text::copy(""));
    line(&mut all, trend_line("Messages", now.chat, chat, window_label));
    line(&mut all, trend_line("Joins", now.joins, joins, window_label));
    line(&mut all, trend_line("Leaves", now.leaves, leaves, window_label));
    line(&mut all, formatting::overview_num("Advancements", now.goals));
    line(&mut all, text::copy(""));
    line(&mut all, trend_line("Deaths", now.deaths, deaths, window_label));
    line(&mut all, trend_line("PvP kills", now.kills, kills, window_label));
    if let Some(t) = last_seen {
        line(&mut all, text::copy(""));
        line(
            &mut all,
            formatting::overview_line("Latest", &formatting::bold(&formatting::date_time(t))),
        );
    }
    all
}

/// The overview of a server.
pub open spec fn stats_page(
    server_label: Seq<char>,
    window_label: Seq<char>,
    now: WindowStats,
    before: Option<(WindowStats, TrendSizes)>,
    online: int,
    last_seen: Option<i64>,
    now_us: i64,
) -> EmbedText {
    log_page(
        Palette::BRAND,
        server_label + "'s stats"@,
        text::join_text(stats_lines(window_label, now, before, online, last_seen), "\n"@),
        formatting::footer_text(server_label, seq![window_label, "tabs for recent events"@]),
        now_us,
    )
}

pub fn build_stats_overview_embed(
    server_label: &str,
    window_label: &str,
    now: &WindowStats,
    before: Option<(&WindowStats, &TrendSizes)>,
    online: i64,
    last_seen: Option<i64>,
    now_us: i64,
) -> (e: Embed)
    ensures
        e@ == stats_page(
            server_label@,
            window_label@,
            *now,
            match before {
                Some((w, t)) => Some((*w, *t)),
                None => None,
            },
            online as int,
            last_seen,
            now_us,
        ),
{
    let all = make_stats_lines(window_label, now, before, online, last_seen);
    let mut extra = lines();
    line(&mut extra, text::copy(window_label));
    line(&mut extra, text::copy("tabs for recent events"));
    assert(text::texts(extra@) =~= seq![window_label@, "tabs for recent events"@]);
    make_page(
        Palette::BRAND,
        text::cat2(server_label, "'s stats"),
        text::join(&all, "\n"),
        formatting::footer(server_label, &extra),
        now_us,
    )
}

/// The rank that a player has in chat.
pub open spec fn rank_text(chat_rank: Option<Seq<char>>) -> Seq<char> {
    match chat_rank {
        Some(r) if text::trimmed(r).len() > 0 => formatting::bold_text(text::trimmed(r)),
        _ => "**None**"@,
    }
}

/// When a player was last in the game.
pub open spec fn last_seen_text(online: bool, last_seen: Option<i64>) -> Seq<char> {
    if online {
        "**Now**"@
    } else {
        match last_seen {
            Some(t) => formatting::bold_text(formatting::time_tag(t as int, "R"@)) + " ("@
                + formatting::time_tag(t as int, "f"@) + ")"@,
            None => "**Never seen**"@,
        }
    }
}

/// What is known of a player.
pub open spec fn player_lines(stats: PlayerStats, online: bool) -> Seq<Seq<char>> {
    seq![
        formatting::overview(
            "Online"@,
            if online {
                "✅ **Yes**"@
            } else {
                "❌ **No**"@
            },
        ),
        formatting::overview(
            "Playtime"@,
            formatting::bold_text(formatting::duration_text(stats.playtime_ms as int)),
        ),
        ""@,
        formatting::overview_number("Messages"@, stats.messages as int),
        formatting::overview_number("Joins"@, stats.joins as int),
        formatting::overview_number("Leaves"@, stats.leaves as int),
        ""@,
        formatting::overview_number("Deaths"@, stats.deaths as int),
        formatting::overview_number("PvP kills"@, stats.kills as int),
        formatting::overview_number("Advancements"@, stats.advancements as int),
        ""@,
        formatting::overview("Chat rank"@, rank_text(text::opt_text(stats.chat_rank))),
        formatting::overview(
            "Join date"@,
            match stats.first_seen {
                Some(t) => formatting::bold_text(formatting::time_tag(t as int, "D"@)),
                None => "**Unknown**"@,
            },
        ),
        formatting::overview("Last seen"@, last_seen_text(online, stats.last_seen)),
        formatting::overview(
            "UUID"@,
            match text::opt_text(stats.uuid) {
                Some(u) => formatting::code_text(u),
                None => "**Unknown**"@,
            },
        ),
    ]
}

fn make_player_lines(stats: &PlayerStats, online: bool) -> (r: Vec<String>)
    ensures
        text::texts(r@) == player_lines(*stats, online),
{
    let rank = match &stats.chat_rank {
        Some(r) => {
            let t = text::trim(r);
            if t.as_str().is_empty() {
                text::copy("**None**")
            } else {
                formatting::bold(&t)
            }
        },
        None => text::copy("**None**"),
    };
    let joined = match stats.first_seen {
        Some(t) => formatting::bold(&formatting::date_only(t)),
        None => text::copy("**Unknown**"),
    };
    let seen = if online {
        text::copy("**Now**")
    } else {
        match stats.last_seen {
            Some(t) => text::cat4(
                &formatting::bold(&formatting::time_ago(t)),
                " (",
                &formatting::date_time(t),
                ")",
            ),
            None => text::copy("**Never seen**"),
        }
    };
    let uuid = match &stats.uuid {
        Some(u) => formatting::code(u),
        None => text::copy("**Unknown**"),
    };
    let mut all = lines();
    line(&mut all, formatting::overview_line("Online", formatting::yes_no(online)));
    line(
        &mut all,
        formatting::overview_line(
            "Playtime",
            &formatting::bold(&formatting::duration_hm(stats.playtime_ms)),
        ),
    );
    line(&mut all, text::copy(""));
    line(&mut all, formatting::overview_num("Messages", stats.messages));
    line(&mut all, formatting::overview_num("Joins", stats.joins));
    line(&mut all, formatting::overview_num("Leaves", stats.leaves));
    line(&mut all, text::copy(""));
    line(&mut all, formatting::overview_num("Deaths", stats.deaths));
    line(&mut all, formatting::overview_num("PvP kills", stats.kills));
    line(&mut all, formatting::overview_num("Advancements", stats.advancements));
    line(&mut all, text::copy(""));
    line(&mut all, formatting::overview_line("Chat rank", &rank));
    line(&mut all, formatting::overview_line("Join date", &joined));
    line(&mut all, formatting::overview_line("Last seen", &seen));
    line(&mut all, formatting::overview_line("UUID", &uuid));
    all
}

pub open spec fn player_overview(
    stats: PlayerStats,
    online: bool,
    footer: Seq<char>,
    config: config::ConfigText,
    now_us: i64,
) -> EmbedText {
    EmbedText {
        author: Some(embeds::author_of_player(stats.name@, config)),
        thumbnail: Some(config::body_url(stats.name@)),
        ..log_page(
            Palette::BRAND,
            stats.name@ + "'s stats"@,
            text::join_text(player_lines(stats, online), "\n"@),
            footer,
            now_us,
        )
    }
}

pub fn build_player_overview_embed(
    stats: &PlayerStats,
    online: bool,
    p: &PageInfo,
    config: &Config,
    now_us: i64,
) -> (e: Embed)
    requires
        p.page < u64::MAX,
    ensures
        e@ == player_overview(*stats, online, page_footer(*p), config@, now_us),
{
    make_page(
        Palette::BRAND,
        text::cat2(&stats.name, "'s stats"),
        text::join(&make_player_lines(stats, online), "\n"),
        pager_footer(p),
        now_us,
    ).authored(&stats.name, config).picturing(&stats.name, config)
}

pub open spec fn database_lines(stats: DatabaseStats) -> Seq<Seq<char>> {
    let all = seq![
        formatting::overview("Database"@, formatting::bold_text(stats.database@)),
        formatting::overview("On disk"@, formatting::bold_text(stats.size@)),
        formatting::overview_number("Players"@, stats.players as int),
        formatting::overview_number("Messages"@, stats.chat as int),
        formatting::overview_number("Joins"@, stats.joins as int),
        formatting::overview_number("Leaves"@, stats.leaves as int),
        formatting::overview_number("Deaths"@, stats.deaths as int),
        formatting::overview_number("PvP kills"@, stats.kills as int),
        formatting::overview_number("Advancements"@, stats.goals as int),
        formatting::overview_number("Sessions"@, stats.sessions as int),
    ];
    let since = match stats.oldest {
        Some(t) => all.push(
            formatting::overview(
                "Since"@,
                formatting::bold_text(formatting::time_tag(t as int, "f"@)),
            ),
        ),
        None => all,
    };
    match stats.newest {
        Some(t) => since.push(
            formatting::overview(
                "Newest"@,
                formatting::bold_text(formatting::time_tag(t as int, "f"@)),
            ),
        ),
        None => since,
    }
}

/// The page on what is stored.
pub open spec fn database_page(
    stats: DatabaseStats,
    server_label: Seq<char>,
    elapsed: Seq<char>,
    now_us: i64,
) -> EmbedText {
    log_page(
        Palette::BRAND,
        server_label + "'s stored data"@,
        text::join_text(database_lines(stats), "\n"@),
        pager_text(0, 1, server_label, ""@, elapsed),
        now_us,
    )
}

pub fn build_database_embed(stats: &DatabaseStats, server_label: &str, elapsed: &str, now_us: i64) -> (e:
    Embed)
    ensures
        e@ == database_page(*stats, server_label@, elapsed@, now_us),
{
    let mut all = lines();
    line(
        &mut all,
        formatting::overview_line("Database", &formatting::bold(&stats.database)),
    );
    line(&mut all, formatting::overview_line("On disk", &formatting::bold(&stats.size)));
    line(&mut all, formatting::overview_num("Players", stats.players));
    line(&mut all, formatting::overview_num("Messages", stats.chat));
    line(&mut all, formatting::overview_num("Joins", stats.joins));
    line(&mut all, formatting::overview_num("Leaves", stats.leaves));
    line(&mut all, formatting::overview_num("Deaths", stats.deaths));
    line(&mut all, formatting::overview_num("PvP kills", stats.kills));
    line(&mut all, formatting::overview_num("Advancements", stats.goals));
    line(&mut all, formatting::overview_num("Sessions", stats.sessions));
    if let Some(t) = stats.oldest {
        line(
            &mut all,
            formatting::overview_line("Since", &formatting::bold(&formatting::date_time(t))),
        );
    }
    if let Some(t) = stats.newest {
        line(
            &mut all,
            formatting::overview_line("Newest", &formatting::bold(&formatting::date_time(t))),
        );
    }
    assert(text::texts(all@) =~= database_lines(*stats));
    let footer = pager_footer(
        &PageInfo { page: 0, page_count: 1, server_label, window_label: "", elapsed },
    );
    make_page(
        Palette::BRAND,
        text::cat2(server_label, "'s stored data"),
        text::join(&all, "\n"),
        footer,
        now_us,
    )
}

// ---------------------------------------------------------------------------
// Leaderboards
// ---------------------------------------------------------------------------

/// Thousandths as the nearest whole number.
pub open spec fn nearest(milli: int) -> int {
    if milli >= 0 {
        (milli + 500) / 1000
    } else {
        -((-milli + 500) / 1000)
    }
}

fn to_nearest(milli: i64) -> (n: i64)
    ensures
        n == nearest(milli as int),
{
    if milli >= 0 {
        ((milli as u64 + 500) / 1000) as i64
    } else {
        let size: u64 = (-(milli + 1)) as u64 + 1;
        -(((size + 500) / 1000) as i64)
    }
}

/// Thousandths without what is behind the point.
pub open spec fn whole(milli: int) -> int {
    if milli >= 0 {
        milli / 1000
    } else {
        -((-milli) / 1000)
    }
}

fn to_whole(milli: i64) -> (n: i64)
    ensures
        n == whole(milli as int),
{
    if milli >= 0 {
        milli / 1000
    } else {
        let size: u64 = (-(milli + 1)) as u64 + 1;
        -((size / 1000) as i64)
    }
}

pub open spec fn board_title(metric: LeaderMetric) -> Seq<char> {
    match metric {
        LeaderMetric::Kills => "PvP kills"@,
        LeaderMetric::Deaths => "Deaths"@,
        LeaderMetric::Kd => "Kill/death ratio"@,
        LeaderMetric::Messages => "Messages sent"@,
        LeaderMetric::Joins => "Server joins"@,
        LeaderMetric::Playtime => "Total playtime"@,
    }
}

pub open spec fn board_note(metric: LeaderMetric) -> Seq<char> {
    match metric {
        LeaderMetric::Kills => "player-versus-player only"@,
        LeaderMetric::Deaths => "mobs and environment included"@,
        LeaderMetric::Kd => "at least "@ + text::decimal(MIN_KILLS_FOR_KD as int)
            + " kills to qualify"@,
        LeaderMetric::Messages => "public chat only"@,
        LeaderMetric::Joins => "from the in-game tab list"@,
        LeaderMetric::Playtime => "time logged in, lifetime"@,
    }
}

fn note_of(metric: LeaderMetric) -> (r: String)
    ensures
        r@ == board_note(metric),
{
    match metric {
        LeaderMetric::Kills => text::copy("player-versus-player only"),
        LeaderMetric::Deaths => text::copy("mobs and environment included"),
        LeaderMetric::Kd => text::cat3(
            "at least ",
            &text::number(MIN_KILLS_FOR_KD as u64),
            " kills to qualify",
        ),
        LeaderMetric::Messages => text::copy("public chat only"),
        LeaderMetric::Joins => text::copy("from the in-game tab list"),
        LeaderMetric::Playtime => text::copy("time logged in, lifetime"),
    }
}

pub open spec fn or_zero(o: Option<i64>) -> int {
    match o {
        Some(n) => n as int,
        None => 0,
    }
}

/// A place on a board.
pub open spec fn board_line(metric: LeaderMetric, rank: int, row: LeaderRow) -> Seq<char> {
    let head = "`#"@ + text::decimal(rank) + "` **"@ + row.name@ + "** — **"@;
    match metric {
        LeaderMetric::Kd => head + row.ratio@ + "** · "@ + formatting::grouped(or_zero(row.kills))
            + " / "@ + formatting::grouped(or_zero(row.deaths)),
        LeaderMetric::Kills => head + formatting::grouped(
            match row.kills {
                Some(n) => n as int,
                None => whole(row.value_milli as int),
            },
        ) + "** · "@ + formatting::grouped(or_zero(row.deaths)) + " deaths"@,
        LeaderMetric::Playtime => head + formatting::duration_text(row.value_milli as int)
            + "**"@,
        _ => head + formatting::grouped(nearest(row.value_milli as int)) + "**"@,
    }
}

fn make_board_line(metric: LeaderMetric, rank: u64, row: &LeaderRow) -> (r: String)
    ensures
        r@ == board_line(metric, rank as int, *row),
{
    let deaths: i64 = match row.deaths {
        Some(n) => n,
        None => 0,
    };
    let mut s = text::cat5("`#", &text::number(rank), "` **", &row.name, "** — **");
    match metric {
        LeaderMetric::Kd => {
            let kills: i64 = match row.kills {
                Some(n) => n,
                None => 0,
            };
            s.append(&row.ratio);
            s.append("** · ");
            s.append(&formatting::fmt(kills));
            s.append(" / ");
            s.append(&formatting::fmt(deaths));
        },
        LeaderMetric::Kills => {
            let kills: i64 = match row.kills {
                Some(n) => n,
                None => to_whole(row.value_milli),
            };
            s.append(&formatting::fmt(kills));
            s.append("** · ");
            s.append(&formatting::fmt(deaths));
            s.append(" deaths");
        },
        LeaderMetric::Playtime => {
            s.append(&formatting::duration_hm(row.value_milli));
            s.append("**");
        },
        _ => {
            s.append(&formatting::fmt(to_nearest(row.value_milli)));
            s.append("**");
        },
    }
    s
}

/// The lines of a board, from a rank on.
pub open spec fn board_lines(metric: LeaderMetric, first_rank: int, rows: Seq<LeaderRow>) -> Seq<
    Seq<char>,
> {
    if rows.len() == 0 {
        seq![formatting::italic_text("Nothing on this board yet."@)]
    } else {
        Seq::new(rows.len(), |i: int| board_line(metric, first_rank + i, rows[i]))
    }
}

/// A page of a leaderboard. The first player on it is shown.
pub open spec fn board_page(
    metric: LeaderMetric,
    first_rank: int,
    rows: Seq<LeaderRow>,
    footer: Seq<char>,
    config: config::ConfigText,
    now_us: i64,
) -> EmbedText {
    EmbedText {
        author: if rows.len() > 0 {
            Some(embeds::author_of_player(rows[0].name@, config))
        } else {
            None
        },
        thumbnail: if rows.len() > 0 {
            Some(config::body_url(rows[0].name@))
        } else {
            None
        },
        ..log_page(
            Palette::BRAND,
            board_title(metric),
            formatting::joined_lines(
                board_lines(metric, first_rank, rows),
                Limits::DESCRIPTION as int,
            ),
            footer,
            now_us,
        )
    }
}

/// A page among the pages of a board.
pub struct BoardInfo<'a> {
    pub page: u64,
    pub page_count: u64,
    pub per_page: u64,
    pub server_label: &'a str,
    /// How many are ranked, in short.
    pub total: &'a str,
    /// How many seconds it took, with two decimals.
    pub elapsed: &'a str,
}

pub fn build_leaderboard_embed(
    metric: LeaderMetric,
    rows: &Vec<LeaderRow>,
    b: &BoardInfo,
    config: &Config,
    now_us: i64,
) -> (e: Embed)
    requires
        b.page < u64::MAX,
        b.page * b.per_page + rows.len() < u64::MAX,
    ensures
        e@ == board_page(
            metric,
            b.page * b.per_page + 1,
            rows@,
            pager_text(
                b.page as int,
                b.page_count as int,
                b.server_label@,
                b.total@ + " ranked · "@ + board_note(metric),
                b.elapsed@,
            ),
            config@,
            now_us,
        ),
{
    let ghost first = b.page * b.per_page + 1;
    assert(0 <= b.page * b.per_page) by (nonlinear_arith)
        requires
            0 <= b.page,
            0 <= b.per_page,
    ;
    let start: u64 = b.page * b.per_page + 1;
    let ghost goal = board_lines(metric, first, rows@);
    let mut all = lines();
    if rows.len() == 0 {
        line(&mut all, formatting::italic("Nothing on this board yet."));
        assert(text::texts(all@) =~= goal);
    } else {
        assert(goal.take(0) =~= Seq::<Seq<char>>::empty());
        for i in 0..rows.len()
            invariant
                rows.len() > 0,
                start == first,
                start + rows.len() <= u64::MAX,
                goal == board_lines(metric, first, rows@),
                text::texts(all@) == goal.take(i as int),
        {
            let l = make_board_line(metric, start + i as u64, &rows[i]);
            assert(goal[i as int] == l@);
            line(&mut all, l);
            assert(text::texts(all@) =~= goal.take(i + 1));
        }
        assert(goal.take(goal.len() as int) =~= goal);
    }
    let title = match metric {
        LeaderMetric::Kills => "PvP kills",
        LeaderMetric::Deaths => "Deaths",
        LeaderMetric::Kd => "Kill/death ratio",
        LeaderMetric::Messages => "Messages sent",
        LeaderMetric::Joins => "Server joins",
        LeaderMetric::Playtime => "Total playtime",
    };
    let window = text::cat3(b.total, " ranked · ", &note_of(metric));
    let footer = pager_footer(
        &PageInfo {
            page: b.page,
            page_count: b.page_count,
            server_label: b.server_label,
            window_label: &window,
            elapsed: b.elapsed,
        },
    );
    let page = make_page(
        Palette::BRAND,
        text::copy(title),
        formatting::join_lines(&all, Limits::DESCRIPTION),
        footer,
        now_us,
    );
    if rows.len() > 0 {
        page.authored(&rows[0].name, config).picturing(&rows[0].name, config)
    } else {
        page
    }
}

// ---------------------------------------------------------------------------
// Top players
// ---------------------------------------------------------------------------

pub open spec fn rank_columns(columns: Seq<Column>, value_header: Seq<char>) -> bool {
    &&& columns.len() == 3
    &&& columns[0].header@ == "#"@ && columns[0].align_right && columns[0].width is None
    &&& columns[1].header@ == "player"@ && !columns[1].align_right && columns[1].width == Some(
        16usize,
    )
    &&& columns[2].header@ == value_header && columns[2].align_right && columns[2].width is None
}

pub open spec fn rank_row(i: int, row: LeaderRow) -> Seq<Seq<char>> {
    seq![
        text::decimal(i + 1),
        row.name@,
        formatting::grouped(nearest(row.value_milli as int)),
    ]
}

/// Whether the cells are those of a small board.
pub open spec fn rank_cells(cells: Seq<Vec<String>>, rows: Seq<LeaderRow>) -> bool {
    cells.len() == rows.len() && forall|i: int|
        0 <= i < rows.len() ==> text::texts((#[trigger] cells[i])@) == rank_row(i, rows[i])
}

/// Whether a text is a small board as a table.
pub open spec fn rank_table_text(s: Seq<char>, rows: Seq<LeaderRow>, value_header: Seq<char>) -> bool {
    exists|columns: Seq<Column>, cells: Seq<Vec<String>>| #[trigger]
        rank_columns(columns, value_header) && #[trigger] rank_cells(cells, rows) && s
            == formatting::fenced_text(
            formatting::table_lines(columns, cells),
            Limits::FIELD as int,
        )
}

fn rank_table(rows: &Vec<LeaderRow>, value_header: &str) -> (r: String)
    requires
        rows.len() < u64::MAX,
    ensures
        rank_table_text(r@, rows@, value_header@),
{
    let mut columns: Vec<Column> = Vec::new();
    columns.push(Column::new("#").right());
    columns.push(Column::new("player").width(16));
    columns.push(Column::new(value_header).right());
    let mut cells: Vec<Vec<String>> = Vec::new();
    for i in 0..rows.len()
        invariant
            rows.len() < u64::MAX,
            cells.len() == i,
            forall|k: int|
                0 <= k < i ==> text::texts((#[trigger] cells[k])@) == rank_row(k, rows[k]),
    {
        let mut row = lines();
        line(&mut row, text::number(i as u64 + 1));
        line(&mut row, rows[i].name.clone());
        line(&mut row, formatting::fmt(to_nearest(rows[i].value_milli)));
        cells.push(row);
    }
    assert(rank_columns(columns@, value_header@));
    assert(rank_cells(cells@, rows@));
    formatting::table(&columns, &cells, Limits::FIELD)
}

/// What a board of the top players shows.
pub open spec fn board_field(s: Seq<char>, rows: Seq<LeaderRow>, value_header: Seq<char>) -> bool {
    if rows.len() == 0 {
        s == formatting::italic_text("Nothing here yet."@)
    } else {
        rank_table_text(s, rows, value_header)
    }
}

fn make_board_field(rows: &Vec<LeaderRow>, value_header: &str) -> (r: String)
    requires
        rows.len() < u64::MAX,
    ensures
        board_field(r@, rows@, value_header@),
{
    if rows.len() == 0 {
        formatting::italic("Nothing here yet.")
    } else {
        rank_table(rows, value_header)
    }
}

/// Whether an embed shows the best of the boards side by side.
pub open spec fn shows_boards(
    e: EmbedText,
    server_label: Seq<char>,
    top_chatters: Seq<LeaderRow>,
    top_killers: Seq<LeaderRow>,
    top_deaths: Seq<LeaderRow>,
    top_kd: Seq<LeaderRow>,
    now_us: i64,
) -> bool {
    let f = e.fields;
    &&& f.len() == 4
    &&& f[0].0 == "Most talkative"@ && board_field(f[0].1, top_chatters, "lines"@)
    &&& f[1].0 == "Deadliest"@ && board_field(f[1].1, top_killers, "count"@)
    &&& f[2].0 == "Most deaths"@ && board_field(f[2].1, top_deaths, "count"@)
    &&& f[3].0 == "Highest K/D"@ && board_field(f[3].1, top_kd, "K/D"@)
    &&& f[0].2 && f[1].2 && f[2].2 && f[3].2
    &&& e == (EmbedText {
        title: Some(server_label + " — top players"@),
        description: Some("Preview of `/leaderboard`. Open that command for the full boards."@),
        fields: f,
        footer: Some(
            (formatting::footer_text(server_label, seq!["full boards in /leaderboard"@]), None),
        ),
        ..embeds::skeleton_text(Category::Stats, now_us)
    })
}

/// The best of a few boards side by side.
pub fn build_top_boards_embed(
    server_label: &str,
    top_chatters: &Vec<LeaderRow>,
    top_killers: &Vec<LeaderRow>,
    top_deaths: &Vec<LeaderRow>,
    top_kd: &Vec<LeaderRow>,
    now_us: i64,
) -> (e: Embed)
    requires
        top_chatters.len() < u64::MAX,
        top_killers.len() < u64::MAX,
        top_deaths.len() < u64::MAX,
        top_kd.len() < u64::MAX,
    ensures
        shows_boards(
            e@,
            server_label@,
            top_chatters@,
            top_killers@,
            top_deaths@,
            top_kd@,
            now_us,
        ),
{
    let mut extra = lines();
    line(&mut extra, text::copy("full boards in /leaderboard"));
    assert(text::texts(extra@) =~= seq!["full boards in /leaderboard"@]);
    let base = embeds::skeleton(Category::Stats, now_us).titled(
        text::cat2(server_label, " — top players"),
    ).described(
        text::copy("Preview of `/leaderboard`. Open that command for the full boards."),
    );
    let boards = base.field("Most talkative", make_board_field(top_chatters, "lines"), true).field(
        "Deadliest",
        make_board_field(top_killers, "count"),
        true,
    ).field("Most deaths", make_board_field(top_deaths, "count"), true).field(
        "Highest K/D",
        make_board_field(top_kd, "K/D"),
        true,
    );
    embeds::with_context(boards, server_label, &extra)
}

// ---------------------------------------------------------------------------
// What the numbers are
// ---------------------------------------------------------------------------

/// A line with a label and the count that belongs to it.
pub open spec fn counts(label: Seq<char>, n: int) -> Seq<char> {
    "`"@ + label + ":` **"@ + formatting::grouped(n) + "**"@
}

proof fn lemma_count_line(label: Seq<char>, n: int)
    ensures
        formatting::overview_number(label, n) == counts(label, n),
{
    reveal_strlit(":` ");
    reveal_strlit("**");
    reveal_strlit(":` **");
    assert(":` "@ + "**"@ =~= ":` **"@);
    assert(formatting::overview_number(label, n) =~= counts(label, n));
}

proof fn lemma_count_shown(all: Seq<Seq<char>>, i: int, label: Seq<char>, n: int)
    requires
        0 <= i < all.len(),
        all[i] == formatting::overview_number(label, n),
    ensures
        text::has_text(text::join_text(all, "\n"@), counts(label, n)),
{
    let none = Seq::<char>::empty();
    let line = counts(label, n);
    lemma_count_line(label, n);
    text::lemma_has_inside(none, line, none);
    assert(none + line + none =~= line);
    text::lemma_joined_has(all, "\n"@, i, line);
}

proof fn lemma_line_shown(all: Seq<Seq<char>>, i: int, before: Seq<char>, part: Seq<char>, after: Seq<char>)
    requires
        0 <= i < all.len(),
        all[i] == before + part + after,
    ensures
        text::has_text(text::join_text(all, "\n"@), part),
{
    text::lemma_has_inside(before, part, after);
    text::lemma_joined_has(all, "\n"@, i, part);
}

/// The overview of a player shows each count of the player behind its own label, says
/// whether they are online, and is about nobody else.
pub proof fn lemma_player_counts_are_shown(
    stats: PlayerStats,
    online: bool,
    footer: Seq<char>,
    config: config::ConfigText,
    now_us: i64,
)
    ensures
        ({
            let e = player_overview(stats, online, footer, config, now_us);
            &&& e.title == Some(stats.name@ + "'s stats"@)
            &&& e.author matches Some((name, _)) && name == stats.name@
            &&& e.description matches Some(d) && {
                &&& text::has_text(d, counts("Messages"@, stats.messages as int))
                &&& text::has_text(d, counts("Joins"@, stats.joins as int))
                &&& text::has_text(d, counts("Leaves"@, stats.leaves as int))
                &&& text::has_text(d, counts("Deaths"@, stats.deaths as int))
                &&& text::has_text(d, counts("PvP kills"@, stats.kills as int))
                &&& text::has_text(d, counts("Advancements"@, stats.advancements as int))
                &&& text::has_text(
                    d,
                    "`Online:` "@ + (if online {
                        "✅ **Yes**"@
                    } else {
                        "❌ **No**"@
                    }),
                )
                &&& text::has_text(
                    d,
                    "`Playtime:` **"@ + formatting::duration_text(stats.playtime_ms as int) + "**"@,
                )
                &&& online ==> text::has_text(d, "`Last seen:` **Now**"@)
                &&& !online && stats.last_seen is Some ==> text::has_text(
                    d,
                    "`Last seen:` **"@ + formatting::time_tag(stats.last_seen->0 as int, "R"@),
                )
                &&& stats.first_seen matches Some(t) ==> text::has_text(
                    d,
                    "`Join date:` **"@ + formatting::time_tag(t as int, "D"@),
                )
            }
        }),
{
    let all = player_lines(stats, online);
    let none = Seq::<char>::empty();
    lemma_count_shown(all, 3, "Messages"@, stats.messages as int);
    lemma_count_shown(all, 4, "Joins"@, stats.joins as int);
    lemma_count_shown(all, 5, "Leaves"@, stats.leaves as int);
    lemma_count_shown(all, 7, "Deaths"@, stats.deaths as int);
    lemma_count_shown(all, 8, "PvP kills"@, stats.kills as int);
    lemma_count_shown(all, 9, "Advancements"@, stats.advancements as int);
    reveal_strlit("`");
    reveal_strlit(":` ");
    reveal_strlit("**");
    reveal_strlit("Online");
    reveal_strlit("`Online:` ");
    reveal_strlit("Playtime");
    reveal_strlit("`Playtime:` **");
    reveal_strlit("Last seen");
    reveal_strlit("`Last seen:` **Now**");
    reveal_strlit("`Last seen:` **");
    reveal_strlit("**Now**");
    reveal_strlit("Join date");
    reveal_strlit("`Join date:` **");
    let yes = if online {
        "✅ **Yes**"@
    } else {
        "❌ **No**"@
    };
    assert(all[0] =~= none + ("`Online:` "@ + yes) + none);
    lemma_line_shown(all, 0, none, "`Online:` "@ + yes, none);
    let long = formatting::duration_text(stats.playtime_ms as int);
    assert(all[1] =~= none + ("`Playtime:` **"@ + long + "**"@) + none);
    lemma_line_shown(all, 1, none, "`Playtime:` **"@ + long + "**"@, none);
    if online {
        assert(all[13] =~= none + "`Last seen:` **Now**"@ + none);
        lemma_line_shown(all, 13, none, "`Last seen:` **Now**"@, none);
    } else if let Some(t) = stats.last_seen {
        let when = formatting::time_tag(t as int, "R"@);
        let rest = "**"@ + " ("@ + formatting::time_tag(t as int, "f"@) + ")"@;
        assert(all[13] =~= none + ("`Last seen:` **"@ + when) + rest);
        lemma_line_shown(all, 13, none, "`Last seen:` **"@ + when, rest);
    }
    if let Some(t) = stats.first_seen {
        let when = formatting::time_tag(t as int, "D"@);
        assert(all[12] =~= none + ("`Join date:` **"@ + when) + "**"@);
        lemma_line_shown(all, 12, none, "`Join date:` **"@ + when, "**"@);
    }
}

/// A count of a player that changes changes its own line and no other.
pub proof fn lemma_each_count_has_its_line(stats: PlayerStats, online: bool, n: i64)
    ensures
        player_lines(PlayerStats { messages: n, ..stats }, online) == player_lines(
            stats,
            online,
        ).update(3, counts("Messages"@, n as int)),
        player_lines(PlayerStats { joins: n, ..stats }, online) == player_lines(
            stats,
            online,
        ).update(4, counts("Joins"@, n as int)),
        player_lines(PlayerStats { leaves: n, ..stats }, online) == player_lines(
            stats,
            online,
        ).update(5, counts("Leaves"@, n as int)),
        player_lines(PlayerStats { deaths: n, ..stats }, online) == player_lines(
            stats,
            online,
        ).update(7, counts("Deaths"@, n as int)),
        player_lines(PlayerStats { kills: n, ..stats }, online) == player_lines(
            stats,
            online,
        ).update(8, counts("PvP kills"@, n as int)),
        player_lines(PlayerStats { advancements: n, ..stats }, online) == player_lines(
            stats,
            online,
        ).update(9, counts("Advancements"@, n as int)),
{
    lemma_count_line("Messages"@, n as int);
    lemma_count_line("Joins"@, n as int);
    lemma_count_line("Leaves"@, n as int);
    lemma_count_line("Deaths"@, n as int);
    lemma_count_line("PvP kills"@, n as int);
    lemma_count_line("Advancements"@, n as int);
    let all = player_lines(stats, online);
    assert(player_lines(PlayerStats { messages: n, ..stats }, online) =~= all.update(
        3,
        counts("Messages"@, n as int),
    ));
    assert(player_lines(PlayerStats { joins: n, ..stats }, online) =~= all.update(
        4,
        counts("Joins"@, n as int),
    ));
    assert(player_lines(PlayerStats { leaves: n, ..stats }, online) =~= all.update(
        5,
        counts("Leaves"@, n as int),
    ));
    assert(player_lines(PlayerStats { deaths: n, ..stats }, online) =~= all.update(
        7,
        counts("Deaths"@, n as int),
    ));
    assert(player_lines(PlayerStats { kills: n, ..stats }, online) =~= all.update(
        8,
        counts("PvP kills"@, n as int),
    ));
    assert(player_lines(PlayerStats { advancements: n, ..stats }, online) =~= all.update(
        9,
        counts("Advancements"@, n as int),
    ));
}

proof fn lemma_trend_shown(
    all: Seq<Seq<char>>,
    i: int,
    label: Seq<char>,
    n: int,
    was: Option<(int, Seq<char>)>,
    window_label: Seq<char>,
)
    requires
        0 <= i < all.len(),
        all[i] == formatting::overview(label, trending(n, was, window_label)),
    ensures
        text::has_text(text::join_text(all, "\n"@), counts(label, n)),
        window_label != "all time"@ ==> (was matches Some((before, size)) ==> text::has_text(
            text::join_text(all, "\n"@),
            counts(label, n) + " · "@ + formatting::trend_text(n, before, size),
        )),
{
    let none = Seq::<char>::empty();
    let rest = match was {
        Some((before, size)) => if window_label != "all time"@ {
            " · "@ + formatting::trend_text(n, before, size)
        } else {
            none
        },
        None => none,
    };
    lemma_count_line(label, n);
    assert(all[i] =~= none + counts(label, n) + rest);
    lemma_line_shown(all, i, none, counts(label, n), rest);
    if let Some((before, size)) = was {
        if window_label != "all time"@ {
            let part = counts(label, n) + " · "@ + formatting::trend_text(n, before, size);
            assert(all[i] =~= none + part + none);
            lemma_line_shown(all, i, none, part, none);
        }
    }
}

/// The overview of a server shows each count of the window behind its own label, and
/// beside it how that count changed.
pub proof fn lemma_server_counts_are_shown(
    server_label: Seq<char>,
    window_label: Seq<char>,
    now: WindowStats,
    before: Option<(WindowStats, TrendSizes)>,
    online: int,
    last_seen: Option<i64>,
    now_us: i64,
)
    ensures
        ({
            let e = stats_page(
                server_label,
                window_label,
                now,
                before,
                online,
                last_seen,
                now_us,
            );
            let compared = window_label != "all time"@;
            &&& e.title == Some(server_label + "'s stats"@)
            &&& e.description matches Some(d) && {
                &&& text::has_text(d, counts("Online"@, online))
                &&& text::has_text(d, counts("Players"@, now.players as int))
                &&& text::has_text(d, counts("Messages"@, now.chat as int))
                &&& text::has_text(d, counts("Joins"@, now.joins as int))
                &&& text::has_text(d, counts("Leaves"@, now.leaves as int))
                &&& text::has_text(d, counts("Advancements"@, now.goals as int))
                &&& text::has_text(d, counts("Deaths"@, now.deaths as int))
                &&& text::has_text(d, counts("PvP kills"@, now.kills as int))
                &&& compared ==> (before matches Some((w, t)) ==> {
                    &&& text::has_text(
                        d,
                        counts("Messages"@, now.chat as int) + " · "@ + formatting::trend_text(
                            now.chat as int,
                            w.chat as int,
                            t.chat@,
                        ),
                    )
                    &&& text::has_text(
                        d,
                        counts("Joins"@, now.joins as int) + " · "@ + formatting::trend_text(
                            now.joins as int,
                            w.joins as int,
                            t.joins@,
                        ),
                    )
                    &&& text::has_text(
                        d,
                        counts("Leaves"@, now.leaves as int) + " · "@ + formatting::trend_text(
                            now.leaves as int,
                            w.leaves as int,
                            t.leaves@,
                        ),
                    )
                    &&& text::has_text(
                        d,
                        counts("Deaths"@, now.deaths as int) + " · "@ + formatting::trend_text(
                            now.deaths as int,
                            w.deaths as int,
                            t.deaths@,
                        ),
                    )
                    &&& text::has_text(
                        d,
                        counts("PvP kills"@, now.kills as int) + " · "@ + formatting::trend_text(
                            now.kills as int,
                            w.kills as int,
                            t.kills@,
                        ),
                    )
                })
                &&& last_seen matches Some(t) ==> text::has_text(
                    d,
                    formatting::time_tag(t as int, "f"@),
                )
            }
        }),
{
    let all = stats_lines(window_label, now, before, online, last_seen);
    lemma_count_shown(all, 0, "Online"@, online);
    lemma_count_shown(all, 1, "Players"@, now.players as int);
    lemma_count_shown(all, 6, "Advancements"@, now.goals as int);
    let chat = match before {
        Some((w, t)) => Some((w.chat as int, t.chat@)),
        None => None,
    };
    let joins = match before {
        Some((w, t)) => Some((w.joins as int, t.joins@)),
        None => None,
    };
    let leaves = match before {
        Some((w, t)) => Some((w.leaves as int, t.leaves@)),
        None => None,
    };
    let deaths = match before {
        Some((w, t)) => Some((w.deaths as int, t.deaths@)),
        None => None,
    };
    let kills = match before {
        Some((w, t)) => Some((w.kills as int, t.kills@)),
        None => None,
    };
    lemma_trend_shown(all, 3, "Messages"@, now.chat as int, chat, window_label);
    lemma_trend_shown(all, 4, "Joins"@, now.joins as int, joins, window_label);
    lemma_trend_shown(all, 5, "Leaves"@, now.leaves as int, leaves, window_label);
    lemma_trend_shown(all, 8, "Deaths"@, now.deaths as int, deaths, window_label);
    lemma_trend_shown(all, 9, "PvP kills"@, now.kills as int, kills, window_label);
    if let Some(t) = last_seen {
        let tag = formatting::time_tag(t as int, "f"@);
        let front = "`"@ + "Latest"@ + ":` "@ + "**"@;
        assert(all[11] =~= front + tag + "**"@);
        lemma_line_shown(all, 11, front, tag, "**"@);
    }
}

/// The page on what is stored shows each count behind its own label.
pub proof fn lemma_stored_counts_are_shown(
    stats: DatabaseStats,
    server_label: Seq<char>,
    elapsed: Seq<char>,
    now_us: i64,
)
    ensures
        database_page(stats, server_label, elapsed, now_us).description matches Some(d) && {
            &&& text::has_text(d, counts("Players"@, stats.players as int))
            &&& text::has_text(d, counts("Messages"@, stats.chat as int))
            &&& text::has_text(d, counts("Joins"@, stats.joins as int))
            &&& text::has_text(d, counts("Leaves"@, stats.leaves as int))
            &&& text::has_text(d, counts("Deaths"@, stats.deaths as int))
            &&& text::has_text(d, counts("PvP kills"@, stats.kills as int))
            &&& text::has_text(d, counts("Advancements"@, stats.goals as int))
            &&& text::has_text(d, counts("Sessions"@, stats.sessions as int))
            &&& text::has_text(d, "`"@ + "Database"@ + ":` **"@ + stats.database@ + "**"@)
            &&& text::has_text(d, "`"@ + "On disk"@ + ":` **"@ + stats.size@ + "**"@)
            &&& stats.oldest matches Some(t) ==> text::has_text(
                d,
                "`"@ + "Since"@ + ":` **"@ + formatting::time_tag(t as int, "f"@),
            )
            &&& stats.newest matches Some(t) ==> text::has_text(
                d,
                "`"@ + "Newest"@ + ":` **"@ + formatting::time_tag(t as int, "f"@),
            )
        },
{
    let all = database_lines(stats);
    let none = Seq::<char>::empty();
    lemma_count_shown(all, 2, "Players"@, stats.players as int);
    lemma_count_shown(all, 3, "Messages"@, stats.chat as int);
    lemma_count_shown(all, 4, "Joins"@, stats.joins as int);
    lemma_count_shown(all, 5, "Leaves"@, stats.leaves as int);
    lemma_count_shown(all, 6, "Deaths"@, stats.deaths as int);
    lemma_count_shown(all, 7, "PvP kills"@, stats.kills as int);
    lemma_count_shown(all, 8, "Advancements"@, stats.goals as int);
    lemma_count_shown(all, 9, "Sessions"@, stats.sessions as int);
    reveal_strlit(":` ");
    reveal_strlit("**");
    reveal_strlit(":` **");
    let base = "`"@ + "Database"@ + ":` **"@ + stats.database@ + "**"@;
    assert(all[0] =~= none + base + none);
    lemma_line_shown(all, 0, none, base, none);
    let size = "`"@ + "On disk"@ + ":` **"@ + stats.size@ + "**"@;
    assert(all[1] =~= none + size + none);
    lemma_line_shown(all, 1, none, size, none);
    if let Some(t) = stats.oldest {
        let part = "`"@ + "Since"@ + ":` **"@ + formatting::time_tag(t as int, "f"@);
        assert(all[10] =~= none + part + "**"@);
        lemma_line_shown(all, 10, none, part, "**"@);
    }
    if let Some(t) = stats.newest {
        let part = "`"@ + "Newest"@ + ":` **"@ + formatting::time_tag(t as int, "f"@);
        let i = all.len() - 1;
        assert(all[i] =~= none + part + "**"@);
        lemma_line_shown(all, i, none, part, "**"@);
    }
}

/// A board ranks its rows in order from its first rank on, and the line of a row shows
/// the player and what the board ranks by.
pub proof fn lemma_boards_rank_in_order(
    metric: LeaderMetric,
    first_rank: int,
    rows: Seq<LeaderRow>,
    i: int,
)
    requires
        0 <= i < rows.len(),
    ensures
        ({
            let all = board_lines(metric, first_rank, rows);
            let row = rows[i];
            let head = "`#"@ + text::decimal(first_rank + i) + "` **"@ + row.name@ + "** — **"@;
            &&& all.len() == rows.len()
            &&& text::begins(all[i], head)
            &&& metric == LeaderMetric::Kd ==> text::begins(all[i], head + row.ratio@ + "** · "@)
            &&& metric == LeaderMetric::Kd && row.kills is Some && row.deaths is Some ==> all[i]
                == head + row.ratio@ + "** · "@ + formatting::grouped(row.kills->0 as int) + " / "@
                + formatting::grouped(row.deaths->0 as int)
            &&& metric == LeaderMetric::Kills && row.kills is Some && row.deaths is Some ==> all[i]
                == head + formatting::grouped(row.kills->0 as int) + "** · "@
                + formatting::grouped(row.deaths->0 as int) + " deaths"@
            &&& metric == LeaderMetric::Playtime ==> all[i] == head + formatting::duration_text(
                row.value_milli as int,
            ) + "**"@
            &&& (metric == LeaderMetric::Deaths || metric == LeaderMetric::Messages || metric
                == LeaderMetric::Joins) && row.value_milli >= 0 && row.value_milli % 1000 == 0
                ==> all[i] == head + formatting::grouped(row.value_milli / 1000) + "**"@
        }),
{
    let row = rows[i];
    let all = board_lines(metric, first_rank, rows);
    let head = "`#"@ + text::decimal(first_rank + i) + "` **"@ + row.name@ + "** — **"@;
    assert(all[i] == board_line(metric, first_rank + i, row));
    assert(all[i].take(head.len() as int) =~= head);
    if metric == LeaderMetric::Kd {
        let more = head + row.ratio@ + "** · "@;
        assert(all[i].take(more.len() as int) =~= more);
    }
}

/// The page of a board is headed by what it ranks and shows the first player of it.
pub proof fn lemma_boards_are_named(
    first_rank: int,
    rows: Seq<LeaderRow>,
    footer: Seq<char>,
    config: config::ConfigText,
    now_us: i64,
)
    ensures
        board_page(LeaderMetric::Kills, first_rank, rows, footer, config, now_us).title == Some(
            "PvP kills"@,
        ),
        board_page(LeaderMetric::Deaths, first_rank, rows, footer, config, now_us).title == Some(
            "Deaths"@,
        ),
        board_page(LeaderMetric::Kd, first_rank, rows, footer, config, now_us).title == Some(
            "Kill/death ratio"@,
        ),
        board_page(LeaderMetric::Messages, first_rank, rows, footer, config, now_us).title == Some(
            "Messages sent"@,
        ),
        board_page(LeaderMetric::Joins, first_rank, rows, footer, config, now_us).title == Some(
            "Server joins"@,
        ),
        board_page(LeaderMetric::Playtime, first_rank, rows, footer, config, now_us).title == Some(
            "Total playtime"@,
        ),
        rows.len() > 0 ==> (board_page(
            LeaderMetric::Kills,
            first_rank,
            rows,
            footer,
            config,
            now_us,
        ).author matches Some((name, _)) && name == rows[0].name@),
{
}

/// A page of events shows one line for each row, with its time, its player and what
/// happened: who joined, left, died, was killed, or what was said.
pub proof fn lemma_events_are_listed(kind: EventKind, rows: Seq<EventRow>, i: int)
    requires
        0 <= i < rows.len(),
    ensures
        ({
            let line = log_lines(kind, rows)[i];
            let row = rows[i];
            let head = formatting::time_tag(row.occurred_at as int, "f"@) + " "@
                + formatting::code_text(row.player_name@) + " » "@;
            let detail = text::opt_text(row.detail);
            &&& log_lines(kind, rows).len() == rows.len()
            &&& kind == EventKind::Join ==> line == head + "joined"@
            &&& kind == EventKind::Leave ==> line == head + "left"@
            &&& kind == EventKind::Kill && detail is Some ==> line == head + formatting::clamped(
                "killed "@ + detail->0,
                80,
            )
            &&& kind == EventKind::Death ==> line == head + formatting::clamped(
                match detail {
                    Some(d) => d,
                    None => "died"@,
                },
                80,
            )
            &&& (kind == EventKind::Chat || kind == EventKind::Advancement) && detail is Some
                ==> line == head + formatting::clamped(detail->0, 80)
        }),
{
    reveal_strlit("joined");
    reveal_strlit("left");
}

/// Each of the boards stands under its own heading.
pub proof fn lemma_boards_stand_under_their_heading(
    e: EmbedText,
    server_label: Seq<char>,
    top_chatters: Seq<LeaderRow>,
    top_killers: Seq<LeaderRow>,
    top_deaths: Seq<LeaderRow>,
    top_kd: Seq<LeaderRow>,
    now_us: i64,
)
    requires
        shows_boards(e, server_label, top_chatters, top_killers, top_deaths, top_kd, now_us),
    ensures
        exists|i: int|
            0 <= i < e.fields.len() && (#[trigger] e.fields[i]).0 == "Most talkative"@ && board_field(
                e.fields[i].1,
                top_chatters,
                "lines"@,
            ),
        exists|i: int|
            0 <= i < e.fields.len() && (#[trigger] e.fields[i]).0 == "Deadliest"@ && board_field(
                e.fields[i].1,
                top_killers,
                "count"@,
            ),
        exists|i: int|
            0 <= i < e.fields.len() && (#[trigger] e.fields[i]).0 == "Most deaths"@ && board_field(
                e.fields[i].1,
                top_deaths,
                "count"@,
            ),
        exists|i: int|
            0 <= i < e.fields.len() && (#[trigger] e.fields[i]).0 == "Highest K/D"@ && board_field(
                e.fields[i].1,
                top_kd,
                "K/D"@,
            ),
        e.title == Some(server_label + " — top players"@),
{
    assert(e.fields[0].0 == "Most talkative"@);
    assert(e.fields[1].0 == "Deadliest"@);
    assert(e.fields[2].0 == "Most deaths"@);
    assert(e.fields[3].0 == "Highest K/D"@);
}

/// A row of a board has its rank, its player and its value; a board without rows says so.
pub proof fn lemma_rows_of_boards(s: Seq<char>, header: Seq<char>, rows: Seq<LeaderRow>, i: int)
    requires
        0 <= i < rows.len(),
    ensures
        board_field(s, Seq::empty(), header) ==> s == "*"@ + "Nothing here yet."@ + "*"@,
        rank_row(i, rows[i]).len() == 3,
        rank_row(i, rows[i])[0] == text::decimal(i + 1),
        rank_row(i, rows[i])[1] == rows[i].name@,
{
}

/// A page of events is headed by its kind, with the name of the player where it is about
/// one, and has the colour of its kind; without rows it says so.
pub proof fn lemma_pages_of_events(
    kind: EventKind,
    rows: Seq<EventRow>,
    footer: Seq<char>,
    player: Option<Seq<char>>,
    config: config::ConfigText,
    now_us: i64,
)
    ensures
        ({
            let e = events_page(kind, rows, footer, player, config, now_us);
            &&& kind == EventKind::Join ==> e.colour == Palette::JOIN
            &&& kind == EventKind::Leave ==> e.colour == Palette::LEAVE
            &&& kind == EventKind::Death || kind == EventKind::Kill ==> e.colour == Palette::DEATH
            &&& kind == EventKind::Chat || kind == EventKind::Advancement ==> e.colour
                == Palette::ADVANCEMENT
            &&& player is None ==> e.author is None && e.title == Some(event_title(kind))
            &&& player matches Some(name) ==> (e.author matches Some((shown, _)) && shown == name)
                && e.title == Some(name + "'s "@ + text::unicode_lower(event_title(kind)))
            &&& rows.len() == 0 ==> e.description == Some("*"@ + event_empty(kind) + "*"@)
            &&& (e.footer matches Some((foot, icon)) && foot == footer && icon is None)
        }),
        event_title(EventKind::Chat) == "Messages"@ && event_title(EventKind::Join) == "Joins"@,
        event_title(EventKind::Leave) == "Leaves"@ && event_title(EventKind::Death) == "Deaths"@,
        event_title(EventKind::Kill) == "Kills"@,
        event_title(EventKind::Advancement) == "Advancements"@,
        event_empty(EventKind::Join) == "No joins in this window."@,
        event_empty(EventKind::Leave) == "No leaves in this window."@,
        event_empty(EventKind::Death) == "No deaths in this window."@,
        event_empty(EventKind::Kill) == "No kills in this window."@,
{
}

/// A page of messages shows its lines, under the head of the player where it is about one.
pub proof fn lemma_pages_of_messages(
    title: Seq<char>,
    all: Seq<Seq<char>>,
    footer: Seq<char>,
    player: Option<Seq<char>>,
    config: config::ConfigText,
    now_us: i64,
)
    ensures
        ({
            let e = messages_page(title, all, footer, player, config, now_us);
            &&& e.title == Some(title)
            &&& player matches Some(name) ==> (e.author matches Some((shown, _)) && shown == name)
                && e.thumbnail == Some(config::body_url(name))
            &&& player is None ==> e.author is None && e.thumbnail is None
            &&& all.len() == 0 ==> e.description == Some("*"@ + "No messages in this window."@ + "*"@)
            &&& all.len() > 0 ==> e.description == Some(
                formatting::joined_lines(all, Limits::DESCRIPTION as int),
            )
        }),
{
}

/// The foot of a page counts the pages from one.
pub proof fn lemma_feet_of_pages(p: PageInfo)
    ensures
        text::has_text(page_footer(p), "Page "@ + text::decimal(p.page + 1) + "/"@),
        text::begins(page_footer(p), p.server_label@),
{
    let count = text::decimal(
        if p.page_count > 1 {
            p.page_count as int
        } else {
            1
        },
    );
    let page = "Page "@ + text::decimal(p.page + 1) + "/"@ + count;
    let extra = seq![p.window_label@, page, "Done in "@ + p.elapsed@ + "s"@];
    reveal_strlit("Page ");
    reveal_strlit("Done in ");
    let part = "Page "@ + text::decimal(p.page + 1) + "/"@;
    reveal_with_fuel(formatting::filled, 4);
    let one = extra.drop_last().drop_last();
    let two = extra.drop_last();
    assert(two.last() == page);
    assert(one.last() == p.window_label@);
    assert(one.drop_last().len() == 0);
    let a = formatting::filled(one);
    let all = formatting::filled(extra);
    assert(formatting::filled(two) == a.push(page));
    let lines = seq![p.server_label@] + all;
    let i = (a.len() + 1) as int;
    assert(lines[i] == page);
    text::lemma_has_inside(Seq::empty(), part, count);
    assert(Seq::empty() + part + count =~= page);
    text::lemma_joined_has(lines, "  ·  "@, i, part);
    text::lemma_join_front(p.server_label@, all, "  ·  "@);
    assert(page_footer(p).take(p.server_label@.len() as int) =~= p.server_label@);
}

/// What is looked for is marked where it stands, in either case, and the rest stays.
pub proof fn lemma_finds_are_marked(s: Seq<char>, pin: Seq<char>, k: int)
    requires
        text::trimmed(pin) == pin,
        pin.len() > 0,
        !messy(pin),
        !messy(s),
        text::find_text(text::lowered(s), text::lowered(pin)) == Some(k),
    ensures
        highlighted(s, Some(pin)) == s.take(k) + ("**"@ + s.subrange(k, k + pin.len()) + "**"@) + s.skip(
            k + pin.len(),
        ),
        highlighted(s, None) == s,
{
}

} // verus!
