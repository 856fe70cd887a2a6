//! What the other commands show and answer.
use vstd::prelude::*;
use vstd::string::*;

use crate::boards;
use crate::boards::PageInfo;
use crate::config::Config;
use crate::embeds;
use crate::embeds::{Embed, EmbedText};
use crate::formatting;
use crate::formatting::{Category, Limits, Palette};
use crate::models::{ChatHistoryRow, ChatQuery, LeaderMetric};
use crate::shared;
use crate::shared::{RangeChoice, EVENTS_PER_SCREEN};
use crate::text;

verus! {

// ---------------------------------------------------------------------------
// Help
// ---------------------------------------------------------------------------

/// Some commands under a heading, each with what it does.
pub struct HelpGroup {
    pub title: &'static str,
    pub entries: Vec<(&'static str, &'static str)>,
}

pub open spec fn entry_texts(v: Seq<(&'static str, &'static str)>) -> Seq<(Seq<char>, Seq<char>)> {
    Seq::new(v.len(), |i: int| (v[i].0@, v[i].1@))
}

pub open spec fn group_text(g: HelpGroup) -> (Seq<char>, Seq<(Seq<char>, Seq<char>)>) {
    (g.title@, entry_texts(g.entries@))
}

pub open spec fn group_texts(v: Seq<HelpGroup>) -> Seq<(Seq<char>, Seq<(Seq<char>, Seq<char>)>)> {
    Seq::new(v.len(), |i: int| group_text(v[i]))
}

pub open spec fn lookup_help() -> Seq<(Seq<char>, Seq<char>)> {
    seq![
        ("/stats"@, "player or server numbers; 30d / 60d / 90d / all"@),
        ("/keyword"@, "chat lines that contain a letter or word"@),
        ("/chat"@, "server chat log, or one player's messages"@),
        ("/leaderboard"@, "top kills, deaths, chat, joins, playtime"@),
    ]
}

pub open spec fn feed_help() -> Seq<(Seq<char>, Seq<char>)> {
    seq![
        ("/chatbridge"@, "live chat feed (needs Administrator)"@),
        ("/chatbridge set"@, "point the feed at a channel — start here"@),
        ("/chatbridge customize"@, "feed style, rainbow mode, which events post and where"@),
        ("/chatbridge reset"@, "restore default kinds and routes; keep the main channel"@),
        ("/chatbridge remove"@, "disable the feed and clear it until set up again"@),
        (
            "/watchbridge"@,
            "embed here when a watched player joins/leaves (needs Administrator)"@,
        ),
        ("/watchbridge set"@, "point it at a channel"@),
        ("/watchbridge add"@, "add a player to the watchlist"@),
    ]
}

pub open spec fn server_help() -> Seq<(Seq<char>, Seq<char>)> {
    seq![
        ("/database"@, "stored totals and disk size"@),
        ("/commandchannel"@, "restrict commands to one channel (needs Administrator)"@),
    ]
}

pub open spec fn multi_help() -> Seq<(Seq<char>, Seq<char>)> {
    seq![
        ("server:"@, "pick which log on any command"@),
        ("player search"@, "shows Name · Server in autocomplete"@),
    ]
}

/// All commands.
pub open spec fn help_text(multi: bool) -> Seq<(Seq<char>, Seq<(Seq<char>, Seq<char>)>)> {
    let all = seq![
        ("Look things up"@, lookup_help()),
        ("Feed"@, feed_help()),
        ("Server"@, server_help()),
    ];
    if multi {
        all.push(("Multiple servers"@, multi_help()))
    } else {
        all
    }
}

pub fn help(multi: bool) -> (v: Vec<HelpGroup>)
    ensures
        group_texts(v@) == help_text(multi),
{
    let lookup = HelpGroup {
        title: "Look things up",
        entries: vec![
            ("/stats", "player or server numbers; 30d / 60d / 90d / all"),
            ("/keyword", "chat lines that contain a letter or word"),
            ("/chat", "server chat log, or one player's messages"),
            ("/leaderboard", "top kills, deaths, chat, joins, playtime"),
        ],
    };
    assert(entry_texts(lookup.entries@) =~= lookup_help());
    let feed = HelpGroup {
        title: "Feed",
        entries: vec![
            ("/chatbridge", "live chat feed (needs Administrator)"),
            ("/chatbridge set", "point the feed at a channel — start here"),
            ("/chatbridge customize", "feed style, rainbow mode, which events post and where"),
            ("/chatbridge reset", "restore default kinds and routes; keep the main channel"),
            ("/chatbridge remove", "disable the feed and clear it until set up again"),
            ("/watchbridge", "embed here when a watched player joins/leaves (needs Administrator)"),
            ("/watchbridge set", "point it at a channel"),
            ("/watchbridge add", "add a player to the watchlist"),
        ],
    };
    assert(entry_texts(feed.entries@) =~= feed_help());
    let server = HelpGroup {
        title: "Server",
        entries: vec![
            ("/database", "stored totals and disk size"),
            ("/commandchannel", "restrict commands to one channel (needs Administrator)"),
        ],
    };
    assert(entry_texts(server.entries@) =~= server_help());
    let mut v: Vec<HelpGroup> = Vec::new();
    v.push(lookup);
    v.push(feed);
    v.push(server);
    if multi {
        let more = HelpGroup {
            title: "Multiple servers",
            entries: vec![
                ("server:", "pick which log on any command"),
                ("player search", "shows Name · Server in autocomplete"),
            ],
        };
        assert(entry_texts(more.entries@) =~= multi_help());
        v.push(more);
    }
    assert(group_texts(v@) =~= help_text(multi));
    v
}

/// The lines of some commands.
pub open spec fn entry_lines(entries: Seq<(Seq<char>, Seq<char>)>) -> Seq<Seq<char>> {
    Seq::new(
        entries.len(),
        |i: int| formatting::overview(entries[i].0, formatting::bold_text(entries[i].1)),
    )
}

/// The lines of all groups, an empty one behind each.
pub open spec fn help_lines(groups: Seq<(Seq<char>, Seq<(Seq<char>, Seq<char>)>)>) -> Seq<Seq<char>>
    decreases groups.len(),
{
    if groups.len() == 0 {
        seq![
            "Commands read the logger database. Live feeds post into a channel."@,
            "Player and log replies use `<<` `<` `>` `>>` `X` and a timeframe menu."@,
            ""@,
        ]
    } else {
        let (title, entries) = groups.last();
        help_lines(groups.drop_last()).push(formatting::bold_text(title)) + entry_lines(entries)
            + seq![""@]
    }
}

pub open spec fn help_embed(groups: Seq<(Seq<char>, Seq<(Seq<char>, Seq<char>)>)>, now_us: i64) -> EmbedText {
    boards::log_page(
        Palette::BRAND,
        "Commands"@,
        formatting::joined_lines(help_lines(groups), Limits::DESCRIPTION as int),
        "Names autocomplete across every logged server"@,
        now_us,
    )
}

fn push_line(all: &mut Vec<String>, line: String)
    ensures
        text::texts(final(all)@) == text::texts(old(all)@).push(line@),
{
    proof {
        text::lemma_texts_push(all@, line);
    }
    all.push(line);
}

fn push_group(all: &mut Vec<String>, group: &HelpGroup)
    ensures
        text::texts(final(all)@) == text::texts(old(all)@).push(
            formatting::bold_text(group.title@),
        ) + entry_lines(entry_texts(group.entries@)) + seq![""@],
{
    let ghost start = text::texts(all@).push(formatting::bold_text(group.title@));
    let ghost goal = entry_lines(entry_texts(group.entries@));
    push_line(all, formatting::bold(group.title));
    assert(start + goal.take(0) =~= start);
    for i in 0..group.entries.len()
        invariant
            goal == entry_lines(entry_texts(group.entries@)),
            text::texts(all@) == start + goal.take(i as int),
    {
        let (name, what) = group.entries[i];
        let l = formatting::overview_line(name, &formatting::bold(what));
        assert(goal[i as int] == l@);
        push_line(all, l);
        assert(text::texts(all@) =~= start + goal.take(i + 1));
    }
    assert(goal.take(goal.len() as int) =~= goal);
    push_line(all, text::copy(""));
    assert(text::texts(all@) =~= start + goal + seq![""@]);
}

pub fn build_help_embed(groups: &Vec<HelpGroup>, now_us: i64) -> (e: Embed)
    ensures
        e@ == help_embed(group_texts(groups@), now_us),
{
    let ghost shown = group_texts(groups@);
    let mut all: Vec<String> = Vec::new();
    push_line(
        &mut all,
        text::copy("Commands read the logger database. Live feeds post into a channel."),
    );
    push_line(
        &mut all,
        text::copy("Player and log replies use `<<` `<` `>` `>>` `X` and a timeframe menu."),
    );
    push_line(&mut all, text::copy(""));
    assert(text::texts(all@) =~= help_lines(shown.take(0)));
    for i in 0..groups.len()
        invariant
            shown == group_texts(groups@),
            text::texts(all@) == help_lines(shown.take(i as int)),
    {
        assert(shown.take(i + 1).drop_last() =~= shown.take(i as int));
        assert(shown.take(i + 1).last() == group_text(groups[i as int]));
        push_group(&mut all, &groups[i]);
    }
    assert(shown.take(shown.len() as int) =~= shown);
    Embed::new(Palette::BRAND).titled(text::copy("Commands")).described(
        formatting::join_lines(&all, Limits::DESCRIPTION),
    ).with_footer(text::copy("Names autocomplete across every logged server")).at(now_us)
}

// ---------------------------------------------------------------------------
// Leaderboards
// ---------------------------------------------------------------------------

/// How many rows a page of a board has where nothing else was asked for.
pub const DEFAULT_PER_PAGE: u64 = 15;

/// The board at a position of the menu; the last beyond its end.
pub open spec fn metric_at(i: int) -> LeaderMetric {
    if i <= 0 {
        LeaderMetric::Kills
    } else if i == 1 {
        LeaderMetric::Kd
    } else if i == 2 {
        LeaderMetric::Deaths
    } else if i == 3 {
        LeaderMetric::Messages
    } else if i == 4 {
        LeaderMetric::Joins
    } else {
        LeaderMetric::Playtime
    }
}

pub fn board_metric(select: u64) -> (m: LeaderMetric)
    ensures
        m == metric_at(select as int),
{
    match select {
        0 => LeaderMetric::Kills,
        1 => LeaderMetric::Kd,
        2 => LeaderMetric::Deaths,
        3 => LeaderMetric::Messages,
        4 => LeaderMetric::Joins,
        _ => LeaderMetric::Playtime,
    }
}

/// Which rows of how many a page shows.
#[derive(Debug, Clone, Copy, PartialEq, Eq, Structural)]
pub struct PagePlan {
    pub page: u64,
    pub pages: u64,
    pub offset: u64,
    pub limit: u64,
}

pub open spec fn page_plan(page: int, total: int, per_page: int) -> (int, int, int) {
    let pages = shared::pages_for(total, per_page);
    let shown = shared::shown_page(page, pages);
    (shown, pages, shown * per_page)
}

/// The rows of a page: the last page where one beyond it was asked for.
pub fn plan_page(page: u64, total: i64, per_page: u64) -> (p: PagePlan)
    requires
        per_page * shared::MAX_PAGES <= u64::MAX,
    ensures
        (p.page as int, p.pages as int, p.offset as int) == page_plan(
            page as int,
            total as int,
            per_page as int,
        ),
        p.limit == per_page,
        p.page < p.pages <= shared::MAX_PAGES,
{
    let pages: u64 = shared::page_count_for(total, per_page);
    let shown: u64 = if page < pages {
        page
    } else {
        pages - 1
    };
    assert(0 <= shown * per_page <= per_page * shared::MAX_PAGES) by (nonlinear_arith)
        requires
            0 <= shown <= shared::MAX_PAGES,
            0 <= per_page,
    ;
    PagePlan { page: shown, pages, offset: shown * per_page, limit: per_page }
}

// ---------------------------------------------------------------------------
// Messages
// ---------------------------------------------------------------------------

/// The most characters of what was searched for in a title.
pub const TITLE_QUERY_CHARS: usize = 40;

/// What was searched for, as a title shows it.
pub open spec fn shown_query(search: Seq<char>) -> Seq<char> {
    "`"@ + formatting::clamped(
        text::kept(search, |c: char| c != '`'),
        TITLE_QUERY_CHARS as int,
    ) + "`"@
}

/// The title of a log of messages.
pub open spec fn log_heading(player: Option<Seq<char>>, search: Option<Seq<char>>) -> Seq<char> {
    match (player, search) {
        (Some(name), Some(q)) => shown_query(q) + " in "@ + name + "'s messages"@,
        (None, Some(q)) => "Messages matching "@ + shown_query(q),
        (Some(name), None) => name + "'s messages"@,
        (None, None) => "Messages"@,
    }
}

pub fn log_title(player: Option<&str>, search: Option<&str>) -> (r: String)
    ensures
        r@ == log_heading(text::opt_str(player), text::opt_str(search)),
{
    match search {
        Some(q) => {
            let plain = text::without(q, '`');
            let query = text::cat3("`", &formatting::clamp(&plain, TITLE_QUERY_CHARS), "`");
            match player {
                Some(name) => text::cat4(&query, " in ", name, "'s messages"),
                None => text::cat2("Messages matching ", &query),
            }
        },
        None => match player {
            Some(name) => text::cat2(name, "'s messages"),
            None => text::copy("Messages"),
        },
    }
}

/// Which messages are looked at.
pub struct MessageLog {
    pub player: Option<String>,
    pub search: Option<String>,
    pub server_label: String,
}

pub open spec fn message_line(row: ChatHistoryRow, search: Option<Seq<char>>) -> Seq<char> {
    boards::log_line_text(
        match row.sender_name {
            Some(n) => n@,
            None => "?"@,
        },
        row.received_at as int,
        row.plain_text@,
        search,
    )
}

pub open spec fn message_lines(rows: Seq<ChatHistoryRow>, search: Option<Seq<char>>) -> Seq<Seq<char>> {
    Seq::new(rows.len(), |i: int| message_line(rows[i], search))
}

fn opt_as_str(o: &Option<String>) -> (r: Option<&str>)
    ensures
        text::opt_str(r) == text::opt_text(*o),
{
    match o {
        Some(s) => Some(s.as_str()),
        None => None,
    }
}

impl MessageLog {
    /// What is asked of the database for a page; nothing where nothing matches.
    pub fn query(&self, plan: &PagePlan, total: i64, window: RangeChoice) -> (q: Option<ChatQuery>)
        requires
            plan.offset <= i64::MAX,
        ensures
            match q {
                Some(q) => total != 0 && text::opt_text(q.player) == text::opt_text(self.player)
                    && text::opt_text(q.search) == text::opt_text(self.search) && q.limit
                    == EVENTS_PER_SCREEN && q.offset == plan.offset && q.since_days
                    == shared::range_days(window),
                None => total == 0,
            },
    {
        if total == 0 {
            return None;
        }
        Some(
            ChatQuery {
                player: text::copy_opt(&self.player),
                search: text::copy_opt(&self.search),
                limit: EVENTS_PER_SCREEN as i64,
                offset: plan.offset as i64,
                since_days: window.days(),
            },
        )
    }

    /// A page of messages.
    pub fn send_message_log(
        &self,
        rows: &Vec<ChatHistoryRow>,
        plan: &PagePlan,
        window: RangeChoice,
        elapsed: &str,
        config: &Config,
        now_us: i64,
    ) -> (e: Embed)
        requires
            plan.page < u64::MAX,
        ensures
            e@ == boards::messages_page(
                log_heading(text::opt_text(self.player), text::opt_text(self.search)),
                message_lines(rows@, text::opt_text(self.search)),
                boards::pager_text(
                    plan.page as int,
                    plan.pages as int,
                    self.server_label@,
                    shared::range_label(window),
                    elapsed@,
                ),
                text::opt_text(self.player),
                config@,
                now_us,
            ),
    {
        let ghost goal = message_lines(rows@, text::opt_text(self.search));
        let search = opt_as_str(&self.search);
        let player = opt_as_str(&self.player);
        let mut all: Vec<String> = Vec::new();
        assert(text::texts(all@) =~= goal.take(0));
        for i in 0..rows.len()
            invariant
                goal == message_lines(rows@, text::opt_text(self.search)),
                text::opt_str(search) == text::opt_text(self.search),
                text::texts(all@) == goal.take(i as int),
        {
            let row = &rows[i];
            let name: &str = match &row.sender_name {
                Some(n) => n.as_str(),
                None => "?",
            };
            let l = boards::player_log_line_marked(name, row.received_at, &row.plain_text, search);
            assert(goal[i as int] == l@);
            push_line(&mut all, l);
            assert(text::texts(all@) =~= goal.take(i + 1));
        }
        assert(goal.take(goal.len() as int) =~= goal);
        let p = PageInfo {
            page: plan.page,
            page_count: plan.pages,
            server_label: &self.server_label,
            window_label: window.label(),
            elapsed,
        };
        boards::build_message_log_embed(
            &log_title(player, search),
            &all,
            &p,
            player,
            config,
            now_us,
        )
    }
}

/// What is searched for; nothing where only white space was given.
pub fn keyword(raw: &str) -> (r: Option<String>)
    ensures
        text::opt_text(r) == (if text::trimmed(raw@).len() == 0 {
            None
        } else {
            Some(text::trimmed(raw@))
        }),
{
    let search = text::trim(raw);
    if search.as_str().is_empty() {
        None
    } else {
        Some(search)
    }
}

/// What is answered to a search for nothing.
pub fn nothing_to_search(now_us: i64) -> (e: Embed)
    ensures
        e@ == embeds::notice_text(
            formatting::category_colour(Category::Server),
            "Nothing to search for"@,
            "Give `/keyword` some text, e.g. `/keyword text:diamond`."@,
            now_us,
        ),
{
    embeds::notice(
        "Nothing to search for",
        "Give `/keyword` some text, e.g. `/keyword text:diamond`.",
        now_us,
    )
}

// ---------------------------------------------------------------------------
// Where commands work
// ---------------------------------------------------------------------------

/// Whether a channel can be posted to by a feed or a command.
#[derive(Debug, Clone, Copy, PartialEq, Eq, Structural)]
pub enum ChannelSort {
    Text,
    News,
    Other,
}

/// The channel that a command means: the one that was named, or the one it was
/// used in where that is a text or announcement channel.
pub open spec fn meant_channel(named: Option<u64>, here: Option<(u64, ChannelSort)>) -> Option<u64> {
    match named {
        Some(id) => Some(id),
        None => match here {
            Some((id, sort)) if sort != ChannelSort::Other => Some(id),
            _ => None,
        },
    }
}

pub fn pick_channel(named: Option<u64>, here: Option<(u64, ChannelSort)>) -> (r: Option<u64>)
    ensures
        r == meant_channel(named, here),
{
    match named {
        Some(id) => Some(id),
        None => match here {
            Some((id, sort)) => match sort {
                ChannelSort::Other => None,
                _ => Some(id),
            },
            None => None,
        },
    }
}

/// What is answered where no channel is meant.
pub fn need_channel(now_us: i64) -> (e: Embed)
    ensures
        e@ == embeds::notice_text(
            embeds::WARNING_COLOUR,
            "Need a channel"@,
            "Pick a text or announcement channel."@,
            now_us,
        ),
{
    embeds::warning("Need a channel", "Pick a text or announcement channel.", now_us)
}

pub fn commands_restricted(channel_id: u64) -> (r: String)
    ensures
        r@ == "Commands are now restricted to <#"@ + text::decimal(channel_id as int)
            + ">. This command still works everywhere so you can change it later."@,
{
    text::cat3(
        "Commands are now restricted to <#",
        &text::number(channel_id),
        ">. This command still works everywhere so you can change it later.",
    )
}

/// Where commands work; `channel_id` is zero where they work everywhere.
pub fn restriction(channel_id: u64) -> (r: String)
    ensures
        r@ == told_restriction(channel_id),
{
    if channel_id == 0 {
        text::copy("No restriction — commands work in any channel.")
    } else {
        text::cat3("Commands are restricted to <#", &text::number(channel_id), ">.")
    }
}

/// Whether a command works in a channel: anywhere without a restriction, else in
/// that channel alone. The command that restricts always works, so that the
/// restriction can be changed.
pub open spec fn allowed(restricted_to: u64, here: u64, command: Seq<char>) -> bool {
    restricted_to == 0 || here == restricted_to || command == "commandchannel"@
}

pub fn works_here(restricted_to: u64, here: u64, command: &str) -> (b: bool)
    ensures
        b == allowed(restricted_to, here, command@),
{
    restricted_to == 0 || here == restricted_to || text::same(command, "commandchannel")
}

/// A restriction can be changed from every channel, and leaves each other command
/// one channel to work in.
pub proof fn lemma_restriction_can_be_changed(restricted_to: u64, here: u64, command: Seq<char>)
    ensures
        allowed(restricted_to, here, "commandchannel"@),
        allowed(restricted_to, restricted_to, command),
        restricted_to != 0 && here != restricted_to && command != "commandchannel"@ ==> !allowed(
            restricted_to,
            here,
            command,
        ),
{
}

/// The restriction as it is stored: a channel, or zero.
pub fn stored_restriction(channel_id: &Option<String>) -> (id: u64)
    ensures
        id == restricted_to(text::opt_text(*channel_id)),
{
    match channel_id {
        Some(s) => match text::parse_u64(s) {
            Some(n) => n,
            None => 0,
        },
        None => 0,
    }
}

// ---------------------------------------------------------------------------
// Players that are watched
// ---------------------------------------------------------------------------

pub fn watch_set(label: &str, channel_id: u64) -> (r: String)
    ensures
        r@ == "Watchlist embeds for **"@ + label@ + "** go to <#"@ + text::decimal(
            channel_id as int,
        ) + ">. Add players with `/watchbridge add`."@,
{
    text::cat5(
        "Watchlist embeds for **",
        label,
        "** go to <#",
        &text::number(channel_id),
        ">. Add players with `/watchbridge add`.",
    )
}

pub fn watch_added(name: &str, label: &str) -> (r: String)
    ensures
        r@ == "Watching **"@ + name@ + "** on **"@ + label@ + "**."@,
{
    text::cat5("Watching **", name, "** on **", label, "**.")
}

pub fn watch_removed(name: &str, label: &str, removed: bool) -> (r: String)
    ensures
        r@ == (if removed {
            "No longer watching **"@ + name@ + "** on **"@ + label@ + "**."@
        } else {
            "**"@ + name@ + "** wasn't on the watchlist for **"@ + label@ + "**."@
        }),
{
    if removed {
        text::cat5("No longer watching **", name, "** on **", label, "**.")
    } else {
        text::cat5("**", name, "** wasn't on the watchlist for **", label, "**.")
    }
}

/// Names in bold, in order.
pub open spec fn bold_names(names: Seq<Seq<char>>) -> Seq<Seq<char>> {
    Seq::new(names.len(), |i: int| formatting::bold_text(names[i]))
}

/// Who is watched, and where that is posted.
pub open spec fn watch_list_text(channel_id: Option<Seq<char>>, players: Seq<Seq<char>>) -> Seq<char> {
    "`Channel:` "@ + match channel_id {
        Some(id) => "<#"@ + id + ">"@,
        None => "not set — run `/watchbridge set`"@,
    } + "\n`Players:` "@ + if players.len() == 0 {
        "none — add one with `/watchbridge add`"@
    } else {
        text::join_text(bold_names(players), ", "@)
    }
}

pub fn watch_list(
    label: &str,
    channel_id: &Option<String>,
    players: &Vec<String>,
    now_us: i64,
) -> (e: Embed)
    ensures
        e@ == embeds::notice_text(
            formatting::category_colour(Category::Server),
            "Watchlist for "@ + label@,
            watch_list_text(text::opt_text(*channel_id), text::texts(players@)),
            now_us,
        ),
{
    let channel_line = match channel_id {
        Some(id) => text::cat3("<#", id, ">"),
        None => text::copy("not set — run `/watchbridge set`"),
    };
    let players_line = if players.len() == 0 {
        text::copy("none — add one with `/watchbridge add`")
    } else {
        let ghost goal = bold_names(text::texts(players@));
        let mut names: Vec<String> = Vec::new();
        assert(text::texts(names@) =~= goal.take(0));
        for i in 0..players.len()
            invariant
                goal == bold_names(text::texts(players@)),
                text::texts(names@) == goal.take(i as int),
        {
            let name = formatting::bold(&players[i]);
            assert(goal[i as int] == name@);
            push_line(&mut names, name);
            assert(text::texts(names@) =~= goal.take(i + 1));
        }
        assert(goal.take(goal.len() as int) =~= goal);
        text::join(&names, ", ")
    };
    let body = text::cat4("`Channel:` ", &channel_line, "\n`Players:` ", &players_line);
    embeds::notice(&text::cat2("Watchlist for ", label), &body, now_us)
}

// ---------------------------------------------------------------------------
// Commands that fail
// ---------------------------------------------------------------------------

/// What is answered to a command that failed. It says less once something was
/// answered already.
pub fn command_failed(name: &str, answered: bool, now_us: i64) -> (e: Embed)
    ensures
        e@ == embeds::notice_text(
            Palette::LEAVE,
            "That did not work"@,
            "`/"@ + name@ + (if answered {
                "` could not finish. Try `/server status`."@
            } else {
                "` could not finish. The database may be unreachable — try `/server status`."@
            }),
            now_us,
        ),
{
    let why = if answered {
        "` could not finish. Try `/server status`."
    } else {
        "` could not finish. The database may be unreachable — try `/server status`."
    };
    embeds::failure("That did not work", &text::cat3("`/", name, why), now_us)
}

pub fn server_only(name: &str, now_us: i64) -> (e: Embed)
    ensures
        e@ == embeds::notice_text(
            Palette::LEAVE,
            "Server-only command"@,
            "`/"@ + name@ + "` only works in a server."@,
            now_us,
        ),
{
    embeds::failure(
        "Server-only command",
        &text::cat3("`/", name, "` only works in a server."),
        now_us,
    )
}

pub fn admins_only(name: &str, now_us: i64) -> (e: Embed)
    ensures
        e@ == embeds::notice_text(
            Palette::LEAVE,
            "Admins only"@,
            "`/"@ + name@ + "` needs the Administrator permission."@,
            now_us,
        ),
{
    embeds::failure(
        "Admins only",
        &text::cat3("`/", name, "` needs the Administrator permission."),
        now_us,
    )
}

/// How often the bot's status is refreshed, in seconds.
pub const STATUS_SECS: u64 = 15;

pub open spec fn sum_of(counts: Seq<i64>) -> int
    decreases counts.len(),
{
    if counts.len() == 0 {
        0
    } else {
        sum_of(counts.drop_last()) + counts.last()
    }
}

/// The bot's status: how many players the servers have together.
pub fn bot_status(counts: &Vec<i64>) -> (r: String)
    requires
        forall|i: int|
            0 <= i <= counts.len() ==> i64::MIN <= sum_of(#[trigger] counts@.take(i)) <= i64::MAX,
    ensures
        r@ == text::signed_decimal(sum_of(counts@)) + " players · /help"@,
{
    let mut online: i64 = 0;
    assert(counts@.take(0) =~= Seq::<i64>::empty());
    for i in 0..counts.len()
        invariant
            forall|k: int|
                0 <= k <= counts.len() ==> i64::MIN <= sum_of(#[trigger] counts@.take(k))
                    <= i64::MAX,
            online == sum_of(counts@.take(i as int)),
    {
        assert(counts@.take(i + 1).drop_last() =~= counts@.take(i as int));
        online = online + counts[i];
    }
    assert(counts@.take(counts.len() as int) =~= counts@);
    text::cat2(&text::signed_number(online), " players · /help")
}

// ---------------------------------------------------------------------------
// What commands answer
// ---------------------------------------------------------------------------

/// The boards are opened in the order in which they are offered.
pub proof fn lemma_boards_as_offered()
    ensures
        metric_at(0) == LeaderMetric::Kills,
        metric_at(1) == LeaderMetric::Kd,
        metric_at(2) == LeaderMetric::Deaths,
        metric_at(3) == LeaderMetric::Messages,
        metric_at(4) == LeaderMetric::Joins,
        metric_at(5) == LeaderMetric::Playtime,
{
}

/// A page starts where the pages before it end.
pub proof fn lemma_pages_follow_each_other(page: int, total: int, per_page: int)
    requires
        0 <= page,
        0 < per_page,
        (page + 1) * per_page < total <= 25 * per_page,
    ensures
        page_plan(page, total, per_page).0 == page,
        page_plan(page, total, per_page).2 == page * per_page,
        page_plan(page + 1, total, per_page).2 == page_plan(page, total, per_page).2 + per_page,
{
    assert(page * per_page >= 0) by (nonlinear_arith)
        requires
            0 <= page,
            0 < per_page,
    ;
    assert((page + 1) * per_page == page * per_page + per_page) by (nonlinear_arith);
    shared::lemma_as_many_pages_as_it_takes(total, per_page, page);
    let n = shared::pages_for(total, per_page);
    assert(page + 1 < n) by (nonlinear_arith)
        requires
            (page + 1) * per_page < total,
            total <= n * per_page,
            0 < per_page,
    ;
}

/// The heading of a log says whose messages it shows and what they match.
pub proof fn lemma_headings_of_logs(name: Seq<char>, q: Seq<char>)
    ensures
        log_heading(None, None) == "Messages"@,
        log_heading(Some(name), None) == name + "'s messages"@,
        log_heading(None, Some(q)) == "Messages matching "@ + shown_query(q),
        log_heading(Some(name), Some(q)) == shown_query(q) + " in "@ + name + "'s messages"@,
{
}

/// Each message has its line, in order, with its sender, its time and its words.
pub proof fn lemma_messages_have_lines(rows: Seq<ChatHistoryRow>, search: Option<Seq<char>>, i: int)
    requires
        0 <= i < rows.len(),
    ensures
        message_lines(rows, search).len() == rows.len(),
        rows[i].sender_name is Some ==> message_lines(rows, search)[i] == boards::log_line_text(
            rows[i].sender_name->0@,
            rows[i].received_at as int,
            rows[i].plain_text@,
            search,
        ),
        rows[i].sender_name is None ==> message_lines(rows, search)[i] == boards::log_line_text(
            "?"@,
            rows[i].received_at as int,
            rows[i].plain_text@,
            search,
        ),
{
}

/// A channel that was named is meant, and else the one where the command was given, where
/// it is one to post in.
pub proof fn lemma_meant_channels(named: u64, here: u64)
    ensures
        meant_channel(Some(named), Some((here, ChannelSort::Text))) == Some(named),
        meant_channel(None, Some((here, ChannelSort::Text))) == Some(here),
        meant_channel(None, Some((here, ChannelSort::News))) == Some(here),
        meant_channel(None, Some((here, ChannelSort::Other))) is None,
        meant_channel(None, None) is None,
{
}

/// The list of watched players names the channel and each player.
pub proof fn lemma_watch_lists(id: Seq<char>, players: Seq<Seq<char>>, i: int)
    ensures
        text::begins(watch_list_text(Some(id), players), "`Channel:` "@ + ("<#"@ + id + ">"@)),
        players.len() == 0 ==> text::ends(
            watch_list_text(Some(id), players),
            "none — add one with `/watchbridge add`"@,
        ),
        0 <= i < players.len() ==> text::has_text(watch_list_text(Some(id), players), players[i]),
{
    let whole = watch_list_text(Some(id), players);
    let a = "`Channel:` "@ + ("<#"@ + id + ">"@);
    assert(whole.take(a.len() as int) =~= a);
    if players.len() == 0 {
        let b = "none — add one with `/watchbridge add`"@;
        assert(whole.skip(whole.len() - b.len()) =~= b);
    }
    if 0 <= i < players.len() {
        let names = bold_names(players);
        text::lemma_has_inside("**"@, players[i], "**"@);
        text::lemma_joined_has(names, ", "@, i, players[i]);
        let front = a + "\n`Players:` "@;
        text::lemma_has_within(front, text::join_text(names, ", "@), Seq::empty(), players[i]);
        assert(front + text::join_text(names, ", "@) + Seq::empty() =~= whole);
    }
}

/// A total is the sum of its counts.
pub proof fn lemma_totals(counts: Seq<i64>, n: i64)
    ensures
        sum_of(Seq::empty()) == 0,
        sum_of(counts.push(n)) == sum_of(counts) + n,
{
    assert(counts.push(n).drop_last() =~= counts);
}

/// The help names every command with what it does.
pub proof fn lemma_help_lists_commands(
    groups: Seq<(Seq<char>, Seq<(Seq<char>, Seq<char>)>)>,
    title: Seq<char>,
    entries: Seq<(Seq<char>, Seq<char>)>,
    i: int,
)
    requires
        0 <= i < entries.len(),
    ensures
        help_lines(groups.push((title, entries))).contains(
            "`"@ + entries[i].0 + ":` "@ + ("**"@ + entries[i].1 + "**"@),
        ),
        help_lines(groups.push((title, entries))).contains("**"@ + title + "**"@),
{
    let all = groups.push((title, entries));
    assert(all.drop_last() =~= groups);
    let front = help_lines(groups).push(formatting::bold_text(title));
    let whole = help_lines(all);
    assert(whole =~= front + entry_lines(entries) + seq![""@]);
    assert(whole[front.len() + i] == entry_lines(entries)[i]);
    assert(whole[front.len() - 1] == formatting::bold_text(title));
}

/// What is said of where commands may be given.
pub open spec fn told_restriction(channel_id: u64) -> Seq<char> {
    if channel_id == 0 {
        "No restriction — commands work in any channel."@
    } else {
        "Commands are restricted to <#"@ + text::decimal(channel_id as int) + ">."@
    }
}

/// The channel that commands are restricted to, as it is stored.
pub open spec fn restricted_to(raw: Option<Seq<char>>) -> int {
    match raw {
        Some(s) => match text::parsed_u64(s) {
            Some(n) => n,
            None => 0,
        },
        None => 0,
    }
}

/// A restriction that is stored as its number is read back, and none is read as none.
pub proof fn lemma_restrictions_read_back(n: u64)
    requires
        n > 0,
        n <= i64::MAX,
    ensures
        restricted_to(Some(text::decimal(n as int))) == n,
        restricted_to(None) == 0,
        told_restriction(0) == "No restriction — commands work in any channel."@,
        told_restriction(n) == "Commands are restricted to <#"@ + text::decimal(n as int) + ">."@,
{
    text::lemma_numbers_are_read(n as int);
}

} // verus!
