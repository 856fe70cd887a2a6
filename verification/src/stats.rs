//! The pages of a server's and of a player's statistics.
use vstd::prelude::*;
use vstd::string::*;

use crate::boards;
use crate::boards::PageInfo;
use crate::config;
use crate::config::{Config, ServerConfig};
use crate::embeds;
use crate::embeds::{Embed, EmbedText};
use crate::formatting;
use crate::formatting::{Category, Palette};
use crate::models::{ChatHistoryRow, ChatQuery, EventKind, EventRow, PlayerHit, PlayerStats};
use crate::shared;
use crate::shared::{RangeChoice, EVENTS_PER_SCREEN};
use crate::text;

verus! {

// ---------------------------------------------------------------------------
// Whose statistics
// ---------------------------------------------------------------------------

/// Whose statistics are shown.
pub enum StatsTarget<'a> {
    /// The name is known on several servers: ask which one.
    Ask(Vec<(String, String)>),
    Show(&'a ServerConfig),
}

pub open spec fn pair_texts(v: Seq<(String, String)>) -> Seq<(Seq<char>, Seq<char>)> {
    Seq::new(v.len(), |i: int| (v[i].0@, v[i].1@))
}

/// Where a name is known, as choices.
pub open spec fn hit_pairs(hits: Seq<PlayerHit>) -> Seq<(Seq<char>, Seq<char>)> {
    Seq::new(hits.len(), |i: int| (hits[i].server_key@, hits[i].server_label@))
}

/// The server with a key, or another one without it.
pub open spec fn keyed_or(
    servers: Seq<config::ServerText>,
    key: Seq<char>,
    otherwise: config::ServerText,
) -> config::ServerText {
    match config::key_at(servers, key) {
        Some(i) => servers[i],
        None => otherwise,
    }
}

/// Whether the servers that know a name decide: only where none was named and there
/// are several.
pub open spec fn hits_decide(servers: Seq<config::ServerText>, server_given: bool) -> bool {
    !server_given && servers.len() > 1
}

pub open spec fn target_shown(
    t: StatsTarget,
    servers: Seq<config::ServerText>,
    resolved: config::ServerText,
    server_given: bool,
    hits: Seq<PlayerHit>,
) -> bool {
    if hits_decide(servers, server_given) && hits.len() > 1 {
        t matches StatsTarget::Ask(choices) && pair_texts(choices@) == hit_pairs(hits)
    } else if hits_decide(servers, server_given) && hits.len() == 1 {
        t matches StatsTarget::Show(s) && s@ == keyed_or(servers, hits[0].server_key@, resolved)
    } else {
        t matches StatsTarget::Show(s) && s@ == resolved
    }
}

/// Picks the server for a player. `hits` are the servers that know the name.
pub fn stats<'a>(
    config: &'a Config,
    resolved: &'a ServerConfig,
    server_given: bool,
    hits: &Vec<PlayerHit>,
) -> (t: StatsTarget<'a>)
    ensures
        target_shown(t, config@.servers, resolved@, server_given, hits@),
{
    if !server_given && config.multi_server() {
        if hits.len() > 1 {
            let ghost goal = hit_pairs(hits@);
            let mut choices: Vec<(String, String)> = Vec::new();
            assert(pair_texts(choices@) =~= goal.take(0));
            for i in 0..hits.len()
                invariant
                    goal == hit_pairs(hits@),
                    pair_texts(choices@) == goal.take(i as int),
            {
                let ghost before = choices@;
                choices.push((hits[i].server_key.clone(), hits[i].server_label.clone()));
                assert(pair_texts(choices@) =~= pair_texts(before).push(goal[i as int]));
                assert(pair_texts(choices@) =~= goal.take(i + 1));
            }
            assert(goal.take(goal.len() as int) =~= goal);
            return StatsTarget::Ask(choices);
        }
        if hits.len() == 1 {
            return match config.server_by_key(&hits[0].server_key) {
                Some(s) => StatsTarget::Show(s),
                None => StatsTarget::Show(resolved),
            };
        }
    }
    StatsTarget::Show(resolved)
}

/// The server of the choice that was made; the first where that is gone.
pub fn chosen_server<'a>(config: &'a Config, key: &str) -> (s: &'a ServerConfig)
    requires
        config.servers.len() > 0,
    ensures
        s@ == keyed_or(config@.servers, key@, config@.servers[0]),
{
    match config.server_by_key(key) {
        Some(s) => s,
        None => &config.servers[0],
    }
}

/// The question which server is meant.
pub fn which_server(name: &str, now_us: i64) -> (e: Embed)
    ensures
        e@ == embeds::notice_text(
            formatting::category_colour(Category::Server),
            "Which server for "@ + name@ + "?"@,
            "That name appears on more than one logged server."@,
            now_us,
        ),
{
    embeds::notice(
        &text::cat3("Which server for ", name, "?"),
        "That name appears on more than one logged server.",
        now_us,
    )
}

/// Names as code, in order.
pub open spec fn coded_names(hits: Seq<PlayerHit>) -> Seq<Seq<char>> {
    Seq::new(hits.len(), |i: int| "`"@ + hits[i].name@ + "`"@)
}

/// What is said about a player that is not known.
pub open spec fn unknown_player(suggestions: Seq<PlayerHit>) -> Seq<char> {
    if suggestions.len() == 0 {
        "No player by that name."@
    } else {
        "No exact match. Did you mean "@ + text::join_text(coded_names(suggestions), ", "@) + "?"@
    }
}

pub fn player_not_found(suggestions: &Vec<PlayerHit>) -> (r: String)
    ensures
        r@ == unknown_player(suggestions@),
{
    if suggestions.len() == 0 {
        return text::copy("No player by that name.");
    }
    let ghost goal = coded_names(suggestions@);
    let mut names: Vec<String> = Vec::new();
    assert(text::texts(names@) =~= goal.take(0));
    for i in 0..suggestions.len()
        invariant
            goal == coded_names(suggestions@),
            text::texts(names@) == goal.take(i as int),
    {
        let name = text::cat3("`", &suggestions[i].name, "`");
        proof {
            text::lemma_texts_push(names@, name);
            assert(goal[i as int] == name@);
            assert(goal.take(i + 1) =~= goal.take(i as int).push(name@));
        }
        names.push(name);
    }
    assert(goal.take(goal.len() as int) =~= goal);
    text::cat3("No exact match. Did you mean ", &text::join(&names, ", "), "?")
}

// ---------------------------------------------------------------------------
// Events that were read
// ---------------------------------------------------------------------------

/// Events that were read, by what they were read for.
pub struct EventCache {
    pub entries: Vec<((u64, u64), Vec<EventRow>)>,
}

/// What a cache holds for a key.
pub open spec fn cached(entries: Seq<((u64, u64), Vec<EventRow>)>, key: (u64, u64)) -> Option<
    Seq<EventRow>,
>
    decreases entries.len(),
{
    if entries.len() == 0 {
        None
    } else {
        match cached(entries.drop_last(), key) {
            Some(rows) => Some(rows),
            None => if entries.last().0 == key {
                Some(entries.last().1@)
            } else {
                None
            },
        }
    }
}

impl EventCache {
    pub open spec fn holds(self, key: (u64, u64)) -> Option<Seq<EventRow>> {
        cached(self.entries@, key)
    }

    pub fn new() -> (c: Self)
        ensures
            forall|key: (u64, u64)| #[trigger] c.holds(key) is None,
    {
        EventCache { entries: Vec::new() }
    }

    pub fn get(&self, key: (u64, u64)) -> (r: Option<&Vec<EventRow>>)
        ensures
            match r {
                Some(rows) => self.holds(key) == Some(rows@),
                None => self.holds(key) is None,
            },
    {
        let mut i: usize = 0;
        assert(cached(self.entries@.take(0), key) is None);
        while i < self.entries.len()
            invariant
                i <= self.entries.len(),
                cached(self.entries@.take(i as int), key) is None,
            decreases self.entries.len() - i,
        {
            assert(self.entries@.take(i + 1).drop_last() =~= self.entries@.take(i as int));
            assert(self.entries@.take(i + 1).last() == self.entries[i as int]);
            let entry = &self.entries[i];
            let (range, page) = entry.0;
            if range == key.0 && page == key.1 {
                proof {
                    lemma_cached_stays(self.entries@, i + 1, key);
                }
                return Some(&entry.1);
            }
            i = i + 1;
        }
        assert(self.entries@.take(self.entries.len() as int) =~= self.entries@);
        None
    }

    /// Keeps what was read, unless there is something for the key.
    pub fn put(&mut self, key: (u64, u64), rows: Vec<EventRow>)
        ensures
            forall|k: (u64, u64)| #[trigger]
                final(self).holds(k) == (if k == key && old(self).holds(k) is None {
                    Some(rows@)
                } else {
                    old(self).holds(k)
                }),
    {
        let ghost before = self.entries@;
        self.entries.push((key, rows));
        assert(self.entries@.drop_last() =~= before);
    }

    /// Forgets everything.
    pub fn clear(&mut self)
        ensures
            forall|key: (u64, u64)| #[trigger] final(self).holds(key) is None,
    {
        self.entries = Vec::new();
    }
}

proof fn lemma_cached_stays(entries: Seq<((u64, u64), Vec<EventRow>)>, n: int, key: (u64, u64))
    requires
        0 <= n <= entries.len(),
        cached(entries.take(n), key) is Some,
    ensures
        cached(entries, key) == cached(entries.take(n), key),
    decreases entries.len() - n,
{
    if n < entries.len() {
        assert(entries.take(n + 1).drop_last() =~= entries.take(n));
        lemma_cached_stays(entries, n + 1, key);
    } else {
        assert(entries.take(n) =~= entries);
    }
}

// ---------------------------------------------------------------------------
// A server
// ---------------------------------------------------------------------------

/// The tabs of a server.
pub fn server_tabs() -> (v: Vec<&'static str>)
    ensures
        crate::models::str_texts(v@) == tab_labels(),
{
    let v = vec!["Totals", "Top", "Chat", "Joins", "Leaves", "Deaths", "Kills", "Advancements"];
    assert(crate::models::str_texts(v@) =~= tab_labels());
    v
}

/// What the tabs of a server are called.
pub open spec fn tab_labels() -> Seq<Seq<char>> {
    seq![
        "Totals"@,
        "Top"@,
        "Chat"@,
        "Joins"@,
        "Leaves"@,
        "Deaths"@,
        "Kills"@,
        "Advancements"@,
    ]
}

/// The events on a tab. The first two tabs have none.
pub open spec fn events_on(tab: int) -> Option<EventKind> {
    if tab == 2 {
        Some(EventKind::Chat)
    } else if tab == 3 {
        Some(EventKind::Join)
    } else if tab == 4 {
        Some(EventKind::Leave)
    } else if tab == 5 {
        Some(EventKind::Death)
    } else if tab == 6 {
        Some(EventKind::Kill)
    } else if tab == 7 {
        Some(EventKind::Advancement)
    } else {
        None
    }
}

pub fn tab_kind(tab: u64) -> (k: Option<EventKind>)
    ensures
        k == events_on(tab as int),
{
    match tab {
        2 => Some(EventKind::Chat),
        3 => Some(EventKind::Join),
        4 => Some(EventKind::Leave),
        5 => Some(EventKind::Death),
        6 => Some(EventKind::Kill),
        7 => Some(EventKind::Advancement),
        _ => None,
    }
}

/// The tabs of a server with what was read for them.
pub struct ServerPages {
    pub cache: EventCache,
}

impl ServerPages {
    pub fn open() -> (p: Self)
        ensures
            forall|key: (u64, u64)| #[trigger] p.cache.holds(key) is None,
    {
        ServerPages { cache: EventCache::new() }
    }

    /// What has to be read before a tab can be shown.
    pub fn missing(&self, tab: u64) -> (k: Option<EventKind>)
        ensures
            k == (if self.cache.holds((0, tab)) is None {
                events_on(tab as int)
            } else {
                None
            }),
    {
        match self.cache.get((0, tab)) {
            Some(_) => None,
            None => tab_kind(tab),
        }
    }

    /// How many screens a tab has.
    pub fn screens(&self, tab: u64) -> (n: u64)
        ensures
            n == (match (events_on(tab as int), self.cache.holds((0, tab))) {
                (Some(_), Some(rows)) => shared::screens(rows.len() as int),
                _ => 1,
            }),
    {
        if tab_kind(tab).is_none() {
            return 1;
        }
        match self.cache.get((0, tab)) {
            Some(rows) => shared::screens_for(rows.len()),
            None => 1,
        }
    }

    /// A screen of events.
    pub fn events(
        &self,
        kind: EventKind,
        tab: u64,
        screen: u64,
        server_label: &str,
        window_label: &str,
        elapsed: &str,
        config: &Config,
        now_us: i64,
    ) -> (e: Embed)
        requires
            screen < u64::MAX,
        ensures
            ({
                let rows = match self.cache.holds((0, tab)) {
                    Some(rows) => rows,
                    None => Seq::empty(),
                };
                e@ == boards::events_page(
                    kind,
                    on_screen(rows, screen as int),
                    boards::pager_text(
                        screen as int,
                        shared::screens(rows.len() as int),
                        server_label@,
                        window_label@,
                        elapsed@,
                    ),
                    None,
                    config@,
                    now_us,
                )
            }),
    {
        let none: Vec<EventRow> = Vec::new();
        let rows: &Vec<EventRow> = match self.cache.get((0, tab)) {
            Some(rows) => rows,
            None => &none,
        };
        assert(none@ =~= Seq::<EventRow>::empty());
        let shown = screen_of(rows, screen);
        let p = PageInfo {
            page: screen,
            page_count: shared::screens_for(rows.len()),
            server_label,
            window_label,
            elapsed,
        };
        boards::build_events_page_embed(kind, &shown, &p, None, config, now_us)
    }
}

/// The events on a screen.
pub open spec fn on_screen(rows: Seq<EventRow>, screen: int) -> Seq<EventRow> {
    let from = screen * EVENTS_PER_SCREEN;
    if from >= rows.len() {
        Seq::empty()
    } else if from + EVENTS_PER_SCREEN >= rows.len() {
        rows.subrange(from, rows.len() as int)
    } else {
        rows.subrange(from, from + EVENTS_PER_SCREEN)
    }
}

fn copy_row(row: &EventRow) -> (r: EventRow)
    ensures
        r == *row,
{
    let detail = match &row.detail {
        Some(d) => Some(d.clone()),
        None => None,
    };
    EventRow { occurred_at: row.occurred_at, player_name: row.player_name.clone(), detail }
}

fn screen_of(rows: &Vec<EventRow>, screen: u64) -> (r: Vec<EventRow>)
    ensures
        r@ == on_screen(rows@, screen as int),
{
    let ghost goal = on_screen(rows@, screen as int);
    let mut r: Vec<EventRow> = Vec::new();
    let start: u128 = screen as u128 * EVENTS_PER_SCREEN as u128;
    if start >= rows.len() as u128 {
        assert(r@ =~= goal);
        return r;
    }
    let from: usize = start as usize;
    let to: usize = if rows.len() - from <= EVENTS_PER_SCREEN as usize {
        rows.len()
    } else {
        from + EVENTS_PER_SCREEN as usize
    };
    for i in from..to
        invariant
            from <= to <= rows.len(),
            r@ == rows@.subrange(from as int, i as int),
    {
        r.push(copy_row(&rows[i]));
        assert(r@ =~= rows@.subrange(from as int, i + 1));
    }
    assert(r@ =~= goal);
    r
}

/// The screens of a tab show every event, each on one screen.
pub proof fn lemma_screens_show_all(rows: Seq<EventRow>, i: int)
    requires
        0 <= i < rows.len(),
    ensures
        ({
            let screen = i / (EVENTS_PER_SCREEN as int);
            &&& 0 <= screen < shared::screens(rows.len() as int)
            &&& 0 <= i % (EVENTS_PER_SCREEN as int) < on_screen(rows, screen).len()
            &&& on_screen(rows, screen)[i % (EVENTS_PER_SCREEN as int)] == rows[i]
        }),
{
}

// ---------------------------------------------------------------------------
// A player
// ---------------------------------------------------------------------------

/// The pages of a player.
pub const PLAYER_PAGES: u64 = 5;

/// The most lines on a page of a player.
pub const LOG_LIMIT: i64 = 50;

/// The numbers of a player in a window. What does not depend on the window comes
/// from all time.
pub open spec fn windowed(stats: PlayerStats, lifetime: PlayerStats, all_time: bool) -> PlayerText {
    PlayerText {
        uuid: text::opt_text(lifetime.uuid),
        first_seen: lifetime.first_seen,
        last_seen: lifetime.last_seen,
        kill_rank: lifetime.kill_rank,
        chat_rank: text::opt_text(lifetime.chat_rank),
        last_message_at: if all_time {
            lifetime.last_message_at
        } else {
            stats.last_message_at
        },
        ..player_text(stats)
    }
}

/// The contents of a [`PlayerStats`].
#[verifier::ext_equal]
pub struct PlayerText {
    pub name: Seq<char>,
    pub uuid: Option<Seq<char>>,
    pub messages: i64,
    pub deaths: i64,
    pub joins: i64,
    pub leaves: i64,
    pub kills: i64,
    pub advancements: i64,
    pub first_seen: Option<i64>,
    pub last_seen: Option<i64>,
    pub last_message_at: Option<i64>,
    pub kill_rank: Option<i64>,
    pub chat_rank: Option<Seq<char>>,
    pub playtime_ms: i64,
    pub session_count: i64,
}

pub open spec fn player_text(s: PlayerStats) -> PlayerText {
    PlayerText {
        name: s.name@,
        uuid: text::opt_text(s.uuid),
        messages: s.messages,
        deaths: s.deaths,
        joins: s.joins,
        leaves: s.leaves,
        kills: s.kills,
        advancements: s.advancements,
        first_seen: s.first_seen,
        last_seen: s.last_seen,
        last_message_at: s.last_message_at,
        kill_rank: s.kill_rank,
        chat_rank: text::opt_text(s.chat_rank),
        playtime_ms: s.playtime_ms,
        session_count: s.session_count,
    }
}

pub fn copy_stats(s: &PlayerStats) -> (r: PlayerStats)
    ensures
        player_text(r) == player_text(*s),
{
    PlayerStats {
        name: s.name.clone(),
        uuid: text::copy_opt(&s.uuid),
        messages: s.messages,
        deaths: s.deaths,
        joins: s.joins,
        leaves: s.leaves,
        kills: s.kills,
        advancements: s.advancements,
        first_seen: s.first_seen,
        last_seen: s.last_seen,
        last_message_at: s.last_message_at,
        kill_rank: s.kill_rank,
        chat_rank: text::copy_opt(&s.chat_rank),
        playtime_ms: s.playtime_ms,
        session_count: s.session_count,
    }
}

/// Puts the numbers of a window together with what is known of all time.
pub fn windowed_player_stats(stats: PlayerStats, lifetime: &PlayerStats, window: RangeChoice) -> (r:
    PlayerStats)
    ensures
        player_text(r) == windowed(stats, *lifetime, window == RangeChoice::All),
{
    let all_time = match window {
        RangeChoice::All => true,
        _ => false,
    };
    let last_message_at = if all_time {
        lifetime.last_message_at
    } else {
        stats.last_message_at
    };
    PlayerStats {
        uuid: text::copy_opt(&lifetime.uuid),
        first_seen: lifetime.first_seen,
        last_seen: lifetime.last_seen,
        kill_rank: lifetime.kill_rank,
        chat_rank: text::copy_opt(&lifetime.chat_rank),
        last_message_at,
        name: stats.name,
        messages: stats.messages,
        deaths: stats.deaths,
        joins: stats.joins,
        leaves: stats.leaves,
        kills: stats.kills,
        advancements: stats.advancements,
        playtime_ms: stats.playtime_ms,
        session_count: stats.session_count,
    }
}

/// The pages of a player with what was read for them.
pub struct PlayerPages {
    pub name: String,
    /// The numbers of each window that was looked at.
    pub counts: Vec<Option<PlayerStats>>,
    pub events: EventCache,
}

pub open spec fn opt_player(o: Option<PlayerStats>) -> Option<PlayerText> {
    match o {
        Some(s) => Some(player_text(s)),
        None => None,
    }
}

/// What a page of a player needs from the database.
#[derive(Debug, Clone, Copy, PartialEq, Eq, Structural)]
pub enum PlayerNeed {
    /// The numbers of the last days.
    Stats(i32),
    /// Whether the player is in the game.
    Online,
    /// The last events.
    Events(EventKind),
    Nothing,
}

/// The events on a page.
pub open spec fn page_events(page: int) -> EventKind {
    if page == 1 {
        EventKind::Chat
    } else if page == 2 {
        EventKind::Death
    } else if page == 3 {
        EventKind::Join
    } else {
        EventKind::Leave
    }
}

impl PlayerPages {
    pub open spec fn wf(self) -> bool {
        self.counts.len() == 5 && self.counts[shared::range_index(RangeChoice::All)] is Some
    }

    /// The numbers for a window, once they were read.
    pub open spec fn counted(self, range: RangeChoice) -> Option<PlayerText> {
        opt_player(self.counts[shared::range_index(range)])
    }

    pub fn open(lifetime: &PlayerStats) -> (p: Self)
        ensures
            p.wf(),
            p.name@ == lifetime.name@,
            p.counted(RangeChoice::All) == Some(player_text(*lifetime)),
            forall|r: RangeChoice| r != RangeChoice::All ==> #[trigger] p.counted(r) is None,
            forall|key: (u64, u64)| #[trigger] p.events.holds(key) is None,
    {
        let mut counts: Vec<Option<PlayerStats>> = Vec::new();
        let all: usize = RangeChoice::All.as_index();
        for i in 0..5usize
            invariant
                counts.len() == i,
                all == shared::range_index(RangeChoice::All),
                forall|k: int|
                    0 <= k < i ==> opt_player(#[trigger] counts[k]) == (if k == all {
                        Some(player_text(*lifetime))
                    } else {
                        None
                    }),
        {
            if i == all {
                counts.push(Some(copy_stats(lifetime)));
            } else {
                counts.push(None);
            }
        }
        PlayerPages { name: lifetime.name.clone(), counts, events: EventCache::new() }
    }

    /// What has to be read next for a page.
    pub fn need(&self, page: u64, range: RangeChoice) -> (n: PlayerNeed)
        requires
            self.wf(),
        ensures
            n == needed(*self, page as int, range),
    {
        let i: usize = range.as_index();
        if self.counts[i].is_none() {
            if let Some(days) = range.days() {
                return PlayerNeed::Stats(days);
            }
        }
        if page == 0 {
            return PlayerNeed::Online;
        }
        match self.events.get((i as u64, page)) {
            Some(_) => PlayerNeed::Nothing,
            None => PlayerNeed::Events(kind_on(page)),
        }
    }

    /// Takes the numbers of a window.
    pub fn count(&mut self, range: RangeChoice, stats: PlayerStats)
        requires
            old(self).wf(),
        ensures
            final(self).wf(),
            final(self).name == old(self).name,
            final(self).events == old(self).events,
            final(self).counted(range) == Some(
                windowed(stats, old(self).counts[4]->0, range == RangeChoice::All),
            ),
            forall|r: RangeChoice|
                r != range ==> #[trigger] final(self).counted(r) == old(self).counted(r),
    {
        let i: usize = range.as_index();
        let merged = match &self.counts[4] {
            Some(lifetime) => windowed_player_stats(stats, lifetime, range),
            None => stats,
        };
        self.counts.set(i, Some(merged));
    }

    /// Takes the events of a page.
    pub fn take_events(&mut self, page: u64, range: RangeChoice, rows: Vec<EventRow>)
        requires
            old(self).wf(),
        ensures
            final(self).wf(),
            final(self).name == old(self).name,
            final(self).counts == old(self).counts,
            forall|k: (u64, u64)| #[trigger]
                final(self).events.holds(k) == (if k == (
                    shared::range_index(range) as u64,
                    page,
                ) && old(self).events.holds(k) is None {
                    Some(rows@)
                } else {
                    old(self).events.holds(k)
                }),
    {
        self.events.put((range.as_index() as u64, page), rows);
    }

    /// The page with the numbers.
    pub fn overview(
        &self,
        range: RangeChoice,
        online: bool,
        server_label: &str,
        elapsed: &str,
        config: &Config,
        now_us: i64,
    ) -> (e: Embed)
        requires
            self.wf(),
            self.counted(range) is Some,
        ensures
            e@ == boards::player_overview(
                self.counts[shared::range_index(range)]->0,
                online,
                boards::pager_text(
                    0,
                    PLAYER_PAGES as int,
                    server_label@,
                    shared::range_label(range),
                    elapsed@,
                ),
                config@,
                now_us,
            ),
    {
        let p = PageInfo {
            page: 0,
            page_count: PLAYER_PAGES,
            server_label,
            window_label: range.label(),
            elapsed,
        };
        match &self.counts[range.as_index()] {
            Some(s) => boards::build_player_overview_embed(s, online, &p, config, now_us),
            None => {
                assert(false);
                Embed::new(0)
            },
        }
    }

    /// A page with events.
    pub fn log(
        &self,
        page: u64,
        range: RangeChoice,
        server_label: &str,
        elapsed: &str,
        config: &Config,
        now_us: i64,
    ) -> (e: Embed)
        requires
            self.wf(),
            page < u64::MAX,
        ensures
            e@ == player_log(*self, page as int, range, server_label@, elapsed@, config@, now_us),
    {
        let kind = kind_on(page);
        let none: Vec<EventRow> = Vec::new();
        let rows: &Vec<EventRow> = match self.events.get((range.as_index() as u64, page)) {
            Some(rows) => rows,
            None => &none,
        };
        assert(none@ =~= Seq::<EventRow>::empty());
        let (what, colour, empty): (&str, u32, &str) = match kind {
            EventKind::Chat => ("Messages", Palette::ADVANCEMENT, "No messages in this window."),
            EventKind::Death => ("Deaths", Palette::DEATH, "No deaths in this window."),
            EventKind::Join => ("Joins", Palette::JOIN, "No joins in this window."),
            _ => ("Leaves", Palette::LEAVE, "No leaves in this window."),
        };
        let title = text::cat4("Last 50 ", what, " by ", &self.name);
        let all = make_event_lines(kind, rows);
        let p = PageInfo {
            page,
            page_count: PLAYER_PAGES,
            server_label,
            window_label: range.label(),
            elapsed,
        };
        boards::build_player_log_embed(
            &self.name,
            &title,
            colour,
            &all,
            empty,
            &p,
            config,
            now_us,
        )
    }
}

fn kind_on(page: u64) -> (k: EventKind)
    ensures
        k == page_events(page as int),
{
    match page {
        1 => EventKind::Chat,
        2 => EventKind::Death,
        3 => EventKind::Join,
        _ => EventKind::Leave,
    }
}

pub open spec fn event_colour(kind: EventKind) -> u32 {
    match kind {
        EventKind::Chat => Palette::ADVANCEMENT,
        EventKind::Death => Palette::DEATH,
        EventKind::Join => Palette::JOIN,
        _ => Palette::LEAVE,
    }
}

pub open spec fn event_heading(kind: EventKind, name: Seq<char>) -> Seq<char> {
    "Last 50 "@ + match kind {
        EventKind::Chat => "Messages"@,
        EventKind::Death => "Deaths"@,
        EventKind::Join => "Joins"@,
        _ => "Leaves"@,
    } + " by "@ + name
}

pub open spec fn event_none(kind: EventKind) -> Seq<char> {
    match kind {
        EventKind::Chat => "No messages in this window."@,
        EventKind::Death => "No deaths in this window."@,
        EventKind::Join => "No joins in this window."@,
        _ => "No leaves in this window."@,
    }
}

/// What an event of a player reads.
pub open spec fn event_said(kind: EventKind, row: EventRow) -> Seq<char> {
    match kind {
        EventKind::Join => "joined"@,
        EventKind::Leave => "left"@,
        EventKind::Death => match row.detail {
            Some(d) => d@,
            None => "died"@,
        },
        _ => match row.detail {
            Some(d) => d@,
            None => ""@,
        },
    }
}

/// The lines of a page, no more than fit on it.
pub open spec fn event_lines(kind: EventKind, rows: Seq<EventRow>) -> Seq<Seq<char>> {
    Seq::new(
        if rows.len() < LOG_LIMIT {
            rows.len()
        } else {
            LOG_LIMIT as nat
        },
        |i: int|
            boards::log_line_text(
                rows[i].player_name@,
                rows[i].occurred_at as int,
                event_said(kind, rows[i]),
                None,
            ),
    )
}

fn make_event_lines(kind: EventKind, rows: &Vec<EventRow>) -> (all: Vec<String>)
    ensures
        text::texts(all@) == event_lines(kind, rows@),
{
    let ghost goal = event_lines(kind, rows@);
    let n: usize = if rows.len() < LOG_LIMIT as usize {
        rows.len()
    } else {
        LOG_LIMIT as usize
    };
    let mut all: Vec<String> = Vec::new();
    assert(text::texts(all@) =~= goal.take(0));
    for i in 0..n
        invariant
            n <= rows.len(),
            n == goal.len(),
            goal == event_lines(kind, rows@),
            text::texts(all@) == goal.take(i as int),
    {
        let row = &rows[i];
        let said: &str = match kind {
            EventKind::Join => "joined",
            EventKind::Leave => "left",
            EventKind::Death => match &row.detail {
                Some(d) => d.as_str(),
                None => "died",
            },
            _ => match &row.detail {
                Some(d) => d.as_str(),
                None => "",
            },
        };
        let l = boards::player_log_line(&row.player_name, row.occurred_at, said);
        proof {
            text::lemma_texts_push(all@, l);
            assert(goal[i as int] == l@);
            assert(goal.take(i + 1) =~= goal.take(i as int).push(l@));
        }
        all.push(l);
    }
    assert(goal.take(goal.len() as int) =~= goal);
    all
}

/// What is asked of the database for the events of a player.
pub enum EventQuery {
    Chat(ChatQuery),
    Deaths,
    Presence(&'static str),
    Nothing,
}

pub open spec fn query_for(q: EventQuery, name: Seq<char>, kind: EventKind, days: Option<i32>) -> bool {
    match kind {
        EventKind::Chat => q matches EventQuery::Chat(c) && text::opt_text(c.player) == Some(name)
            && c.search is None && c.limit == LOG_LIMIT && c.offset == 0 && c.since_days == days,
        EventKind::Death => q is Deaths,
        EventKind::Join => q matches EventQuery::Presence(t) && t@ == "join"@,
        EventKind::Leave => q matches EventQuery::Presence(t) && t@ == "leave"@,
        _ => q is Nothing,
    }
}

pub fn load_player_events(name: &str, kind: EventKind, days: Option<i32>) -> (q: EventQuery)
    ensures
        query_for(q, name@, kind, days),
{
    match kind {
        EventKind::Chat => EventQuery::Chat(
            ChatQuery {
                player: Some(text::copy(name)),
                search: None,
                limit: LOG_LIMIT,
                offset: 0,
                since_days: days,
            },
        ),
        EventKind::Death => EventQuery::Deaths,
        EventKind::Join => EventQuery::Presence("join"),
        EventKind::Leave => EventQuery::Presence("leave"),
        _ => EventQuery::Nothing,
    }
}

/// Whether an event is what a line of chat says. A line without a name is the
/// player's own.
pub open spec fn chat_as_event(e: EventRow, row: ChatHistoryRow, name: Seq<char>) -> bool {
    e.occurred_at == row.received_at && e.player_name@ == (match row.sender_name {
        Some(n) => n@,
        None => name,
    }) && text::opt_text(e.detail) == Some(row.plain_text@)
}

/// The lines of a player as events.
pub fn chat_events(rows: &Vec<ChatHistoryRow>, name: &str) -> (r: Vec<EventRow>)
    ensures
        r.len() == rows.len(),
        forall|i: int| 0 <= i < r.len() ==> chat_as_event(#[trigger] r[i], rows[i], name@),
{
    let mut r: Vec<EventRow> = Vec::new();
    for i in 0..rows.len()
        invariant
            r.len() == i,
            forall|k: int| 0 <= k < i ==> chat_as_event(#[trigger] r[k], rows[k], name@),
    {
        let row = &rows[i];
        let player_name = match &row.sender_name {
            Some(n) => n.clone(),
            None => text::copy(name),
        };
        r.push(
            EventRow {
                occurred_at: row.received_at,
                player_name,
                detail: Some(row.plain_text.clone()),
            },
        );
    }
    r
}

/// What was read for a page stays on it, whatever is read later.
pub proof fn lemma_read_once(entries: Seq<((u64, u64), Vec<EventRow>)>, more: ((u64, u64), Vec<EventRow>), key: (u64, u64))
    requires
        cached(entries, key) is Some,
    ensures
        cached(entries.push(more), key) == cached(entries, key),
{
    assert(entries.push(more).drop_last() =~= entries);
}

// ---------------------------------------------------------------------------
// Which numbers and events are shown
// ---------------------------------------------------------------------------

/// In a window a player has the counts of the window, and what is known of them for all
/// time stays.
pub proof fn lemma_windows_count(stats: PlayerStats, lifetime: PlayerStats, all_time: bool)
    ensures
        ({
            let w = windowed(stats, lifetime, all_time);
            &&& w.name == stats.name@
            &&& w.messages == stats.messages && w.deaths == stats.deaths && w.joins == stats.joins
            &&& w.leaves == stats.leaves && w.kills == stats.kills
            &&& w.advancements == stats.advancements && w.playtime_ms == stats.playtime_ms
            &&& w.session_count == stats.session_count
            &&& w.first_seen == lifetime.first_seen && w.last_seen == lifetime.last_seen
            &&& w.kill_rank == lifetime.kill_rank
            &&& lifetime.uuid is Some ==> w.uuid == Some(lifetime.uuid->0@)
            &&& lifetime.chat_rank is Some ==> w.chat_rank == Some(lifetime.chat_rank->0@)
            &&& all_time ==> w.last_message_at == lifetime.last_message_at
            &&& !all_time ==> w.last_message_at == stats.last_message_at
        }),
{
}

/// Each tab of a server shows its own events.
pub proof fn lemma_tabs_of_a_server(tab: int)
    ensures
        events_on(2) == Some(EventKind::Chat),
        events_on(3) == Some(EventKind::Join),
        events_on(4) == Some(EventKind::Leave),
        events_on(5) == Some(EventKind::Death),
        events_on(6) == Some(EventKind::Kill),
        events_on(7) == Some(EventKind::Advancement),
        tab < 2 || tab > 7 ==> events_on(tab) is None,
        page_events(1) == EventKind::Chat,
        page_events(2) == EventKind::Death,
        page_events(3) == EventKind::Join,
        page_events(4) == EventKind::Leave,
{
}

/// The page of a player asks for the events it shows: the messages of that player, the
/// deaths, the joins or the leaves.
pub proof fn lemma_pages_ask_for_their_events(q: EventQuery, name: Seq<char>, days: Option<i32>)
    ensures
        query_for(q, name, EventKind::Chat, days) ==> (q matches EventQuery::Chat(c) && c.player is Some
            && c.player->0@ == name && c.search is None && c.limit == 50 && c.offset == 0
            && c.since_days == days),
        query_for(q, name, EventKind::Death, days) ==> q is Deaths,
        query_for(q, name, EventKind::Join, days) ==> (q matches EventQuery::Presence(t) && t@
            == "join"@),
        query_for(q, name, EventKind::Leave, days) ==> (q matches EventQuery::Presence(t) && t@
            == "leave"@),
{
}

/// A page of events says what it shows: its heading, its colour, what it says of a row
/// and what it says where there is none.
pub proof fn lemma_pages_are_headed(name: Seq<char>, row: EventRow)
    ensures
        event_heading(EventKind::Chat, name) == "Last 50 "@ + "Messages"@ + " by "@ + name,
        event_heading(EventKind::Death, name) == "Last 50 "@ + "Deaths"@ + " by "@ + name,
        event_heading(EventKind::Join, name) == "Last 50 "@ + "Joins"@ + " by "@ + name,
        event_heading(EventKind::Leave, name) == "Last 50 "@ + "Leaves"@ + " by "@ + name,
        event_none(EventKind::Chat) == "No messages in this window."@,
        event_none(EventKind::Death) == "No deaths in this window."@,
        event_none(EventKind::Join) == "No joins in this window."@,
        event_none(EventKind::Leave) == "No leaves in this window."@,
        event_said(EventKind::Join, row) == "joined"@,
        event_said(EventKind::Leave, row) == "left"@,
        row.detail is Some ==> event_said(EventKind::Death, row) == row.detail->0@,
        row.detail is None ==> event_said(EventKind::Death, row) == "died"@,
        row.detail is Some ==> event_said(EventKind::Chat, row) == row.detail->0@,
        event_colour(EventKind::Death) == Palette::DEATH,
        event_colour(EventKind::Join) == Palette::JOIN,
        event_colour(EventKind::Leave) == Palette::LEAVE,
        event_colour(EventKind::Chat) == Palette::ADVANCEMENT,
{
}

/// Each row has its line, in order, with its own player and time, up to the most that a
/// page shows.
pub proof fn lemma_rows_have_lines(kind: EventKind, rows: Seq<EventRow>, i: int)
    requires
        0 <= i < rows.len(),
        i < 50,
    ensures
        event_lines(kind, rows).len() <= 50,
        i < event_lines(kind, rows).len(),
        event_lines(kind, rows)[i] == boards::log_line_text(
            rows[i].player_name@,
            rows[i].occurred_at as int,
            event_said(kind, rows[i]),
            None,
        ),
{
}

/// A player who is known on one server is shown there, and one who is known on several
/// is asked about; a server that was named decides alone.
pub proof fn lemma_where_a_player_is_shown(
    t: StatsTarget,
    servers: Seq<config::ServerText>,
    resolved: config::ServerText,
    hits: Seq<PlayerHit>,
    given: bool,
)
    ensures
        target_shown(t, servers, resolved, true, hits) ==> (t matches StatsTarget::Show(s) && s@
            == resolved),
        hits.len() == 0 && target_shown(t, servers, resolved, given, hits) ==> (t
            matches StatsTarget::Show(s) && s@ == resolved),
        servers.len() > 1 && hits.len() > 1 && target_shown(t, servers, resolved, false, hits) ==> (t
            matches StatsTarget::Ask(c) && c@.len() == hits.len() && forall|i: int|
            0 <= i < hits.len() ==> (#[trigger] c@[i]).0@ == hits[i].server_key@ && c@[i].1@
                == hits[i].server_label@),
{
    if servers.len() > 1 && hits.len() > 1 && target_shown(t, servers, resolved, false, hits) {
        if let StatsTarget::Ask(c) = t {
            assert(pair_texts(c@) == hit_pairs(hits));
            assert(pair_texts(c@).len() == c@.len());
            assert forall|i: int| 0 <= i < hits.len() implies (#[trigger] c@[i]).0@
                == hits[i].server_key@ && c@[i].1@ == hits[i].server_label@ by {
                assert(pair_texts(c@)[i] == hit_pairs(hits)[i]);
            }
        }
    }
}

/// A player nobody knows gets the names that are close, where there are any.
pub proof fn lemma_unknown_players(hits: Seq<PlayerHit>, i: int)
    ensures
        hits.len() == 0 ==> unknown_player(hits) == "No player by that name."@,
        0 <= i < hits.len() ==> text::has_text(unknown_player(hits), hits[i].name@),
{
    if 0 <= i < hits.len() {
        let all = coded_names(hits);
        text::lemma_has_inside("`"@, hits[i].name@, "`"@);
        text::lemma_joined_has(all, ", "@, i, hits[i].name@);
        text::lemma_has_within(
            "No exact match. Did you mean "@,
            text::join_text(all, ", "@),
            "?"@,
            hits[i].name@,
        );
    }
}

/// A message in the history becomes an event with its time, its sender and its words.
pub proof fn lemma_messages_become_events(e: EventRow, row: ChatHistoryRow, name: Seq<char>)
    requires
        chat_as_event(e, row, name),
    ensures
        e.occurred_at == row.received_at,
        row.sender_name is Some ==> e.player_name@ == row.sender_name->0@,
        row.sender_name is None ==> e.player_name@ == name,
        e.detail is Some && e.detail->0@ == row.plain_text@,
{
}

/// What the page of a player needs before it can be shown.
pub open spec fn needed(p: PlayerPages, page: int, range: RangeChoice) -> PlayerNeed {
    match shared::range_days(range) {
        Some(days) if p.counted(range) is None => PlayerNeed::Stats(days),
        _ => if page == 0 {
            PlayerNeed::Online
        } else if p.events.holds((shared::range_index(range) as u64, page as u64)) is None {
            PlayerNeed::Events(page_events(page))
        } else {
            PlayerNeed::Nothing
        },
    }
}

/// The page of a player with events.
pub open spec fn player_log(
    p: PlayerPages,
    page: int,
    range: RangeChoice,
    server_label: Seq<char>,
    elapsed: Seq<char>,
    c: config::ConfigText,
    now_us: i64,
) -> EmbedText {
    let kind = page_events(page);
    let rows = match p.events.holds((shared::range_index(range) as u64, page as u64)) {
        Some(rows) => rows,
        None => Seq::empty(),
    };
    EmbedText {
        author: Some(embeds::author_of_player(p.name@, c)),
        ..boards::log_page(
            event_colour(kind),
            event_heading(kind, p.name@),
            boards::page_body(event_lines(kind, rows), event_none(kind)),
            boards::pager_text(
                page,
                PLAYER_PAGES as int,
                server_label,
                shared::range_label(range),
                elapsed,
            ),
            now_us,
        )
    }
}

/// The counts of a window are read first; the first page needs to know who is online, and
/// any other the events that it shows, once.
pub proof fn lemma_pages_need(p: PlayerPages, range: RangeChoice)
    ensures
        range == RangeChoice::D7 && p.counted(range) is None ==> needed(p, 0, range)
            == PlayerNeed::Stats(7),
        range == RangeChoice::D30 && p.counted(range) is None ==> needed(p, 0, range)
            == PlayerNeed::Stats(30),
        needed(p, 0, RangeChoice::All) == PlayerNeed::Online,
        p.events.holds((4, 1)) is None ==> needed(p, 1, RangeChoice::All) == PlayerNeed::Events(
            EventKind::Chat,
        ),
        p.events.holds((4, 2)) is None ==> needed(p, 2, RangeChoice::All) == PlayerNeed::Events(
            EventKind::Death,
        ),
        p.events.holds((4, 3)) is None ==> needed(p, 3, RangeChoice::All) == PlayerNeed::Events(
            EventKind::Join,
        ),
        p.events.holds((4, 4)) is None ==> needed(p, 4, RangeChoice::All) == PlayerNeed::Events(
            EventKind::Leave,
        ),
        p.events.holds((4, 1)) is Some ==> needed(p, 1, RangeChoice::All) == PlayerNeed::Nothing,
{
}

/// The page of a player is headed by what it shows, and names the player.
pub proof fn lemma_logs_of_players(
    p: PlayerPages,
    range: RangeChoice,
    server_label: Seq<char>,
    elapsed: Seq<char>,
    c: config::ConfigText,
    now_us: i64,
)
    ensures
        ({
            let page = |n: int| player_log(p, n, range, server_label, elapsed, c, now_us);
            &&& page(1).title == Some("Last 50 "@ + "Messages"@ + " by "@ + p.name@)
            &&& page(2).title == Some("Last 50 "@ + "Deaths"@ + " by "@ + p.name@)
            &&& page(3).title == Some("Last 50 "@ + "Joins"@ + " by "@ + p.name@)
            &&& page(4).title == Some("Last 50 "@ + "Leaves"@ + " by "@ + p.name@)
            &&& page(2).colour == Palette::DEATH
            &&& page(3).colour == Palette::JOIN
            &&& page(4).colour == Palette::LEAVE
            &&& page(1).author matches Some((name, _)) && name == p.name@
        }),
{
}

/// A tab with events is called by what it shows.
pub proof fn lemma_tabs_are_called_by_their_events(tab: int)
    requires
        0 <= tab < tab_labels().len(),
    ensures
        tab_labels().len() == 8,
        events_on(tab) matches Some(kind) ==> (kind != EventKind::Chat ==> tab_labels()[tab]
            == boards::event_title(kind)),
        events_on(tab) == Some(EventKind::Chat) ==> tab_labels()[tab] == "Chat"@,
        tab_labels()[0] == "Totals"@ && tab_labels()[1] == "Top"@,
{
}

} // verus!
