//! What is asked of the logger's database, and what its rows mean.
use vstd::prelude::*;
use vstd::string::*;

use crate::chatbridge;
use crate::config;
use crate::config::{BridgeStyle, Config};
use crate::models;
use crate::models::{
    BridgeSettings, ChatRow, ChatRowText, EventKind, EventRoute, PlayerHit, PlayerStats, RouteKind,
    RouteText, ROUTE_KIND_COUNT,
};
use crate::text;

verus! {

// ---------------------------------------------------------------------------
// Routes
// ---------------------------------------------------------------------------

/// Whether a kind of line is posted where nothing else was chosen: every kind where
/// none is configured.
pub open spec fn on_by_default(kinds: Seq<Seq<char>>, kind: RouteKind) -> bool {
    kinds.len() == 0 || exists|i: int|
        0 <= i < kinds.len() && #[trigger] models::canonical(kinds[i]) == Some(kind)
}

fn names_kind(kinds: &Vec<String>, kind: RouteKind) -> (b: bool)
    ensures
        b == exists|i: int|
            0 <= i < kinds.len() && #[trigger] models::canonical(text::texts(kinds@)[i]) == Some(
                kind,
            ),
{
    let ghost all = text::texts(kinds@);
    for i in 0..kinds.len()
        invariant
            all == text::texts(kinds@),
            forall|k: int| 0 <= k < i ==> #[trigger] models::canonical(all[k]) != Some(kind),
    {
        if let Some(name) = models::canonical_route_kind(&kinds[i]) {
            if text::same(name, kind.as_str()) {
                proof {
                    models::lemma_kinds_are_told_apart(
                        models::canonical(all[i as int])->0,
                        kind,
                    );
                }
                return true;
            }
        }
    }
    false
}

/// Which kinds of lines are posted where nothing else was chosen.
pub fn ensure_event_routes(kinds: &Vec<String>) -> (r: Vec<(&'static str, bool)>)
    ensures
        r.len() == ROUTE_KIND_COUNT,
        forall|i: int|
            #![trigger r[i]]
            0 <= i < ROUTE_KIND_COUNT ==> r[i].0@ == models::route_name(models::route_kind(i))
                && r[i].1 == on_by_default(text::texts(kinds@), models::route_kind(i)),
{
    let mut r: Vec<(&'static str, bool)> = Vec::new();
    for i in 0..ROUTE_KIND_COUNT
        invariant
            r.len() == i,
            forall|k: int|
                #![trigger r[k]]
                0 <= k < i ==> r[k].0@ == models::route_name(models::route_kind(k)) && r[k].1
                    == on_by_default(text::texts(kinds@), models::route_kind(k)),
    {
        let kind = RouteKind::at(i);
        let on = kinds.len() == 0 || names_kind(kinds, kind);
        r.push((kind.as_str(), on));
    }
    r
}

/// The route of a kind among the stored ones; one that is off where none is stored.
pub open spec fn stored_route(rows: Seq<RouteText>, kind: Seq<char>) -> RouteText {
    match chatbridge::route_of(rows, kind) {
        Some(route) => RouteText { kind, enabled: route.enabled, channel_id: route.channel_id },
        None => RouteText { kind, enabled: false, channel_id: None },
    }
}

/// The routes of all kinds, from those that are stored.
pub fn get_event_routes(rows: &Vec<EventRoute>) -> (r: Vec<EventRoute>)
    ensures
        models::route_texts(r@) == Seq::new(
            ROUTE_KIND_COUNT as nat,
            |i: int|
                stored_route(
                    models::route_texts(rows@),
                    models::route_name(models::route_kind(i)),
                ),
        ),
{
    let ghost stored = models::route_texts(rows@);
    let mut r: Vec<EventRoute> = Vec::new();
    for i in 0..ROUTE_KIND_COUNT
        invariant
            stored == models::route_texts(rows@),
            r.len() == i,
            forall|k: int|
                0 <= k < i ==> (#[trigger] r[k])@ == stored_route(
                    stored,
                    models::route_name(models::route_kind(k)),
                ),
    {
        let name = RouteKind::at(i).as_str();
        let route = match chatbridge::find_route(rows, name) {
            Some(route) => EventRoute {
                kind: text::copy(name),
                enabled: route.enabled,
                channel_id: text::copy_opt(&route.channel_id),
            },
            None => EventRoute { kind: text::copy(name), enabled: false, channel_id: None },
        };
        r.push(route);
    }
    assert(models::route_texts(r@) =~= Seq::new(
        ROUTE_KIND_COUNT as nat,
        |i: int| stored_route(stored, models::route_name(models::route_kind(i))),
    ));
    r
}

/// What is stored about a feed.
pub struct SettingsRow {
    pub channel_id: Option<String>,
    pub enabled: bool,
    pub style: String,
    pub rainbow: bool,
}

/// The settings of a feed; of one that nothing is stored about the usual ones.
pub fn get_bridge_settings(row: Option<SettingsRow>) -> (s: BridgeSettings)
    ensures
        reads_as(s, row),
{
    match row {
        Some(r) => BridgeSettings {
            style: BridgeStyle::parse(&r.style),
            channel_id: r.channel_id,
            enabled: r.enabled,
            rainbow: r.rainbow,
        },
        None => BridgeSettings {
            channel_id: None,
            enabled: true,
            style: BridgeStyle::Rich,
            rainbow: false,
        },
    }
}

// ---------------------------------------------------------------------------
// Rows
// ---------------------------------------------------------------------------

/// A stored join or leave.
pub struct PresenceRow {
    pub id: i64,
    pub occurred_at: i64,
    pub event_type: String,
    pub player_name: String,
    pub server_host: Option<String>,
}

/// A stored join or leave as a line; nothing for any other event.
pub open spec fn presence_as_chat(row: PresenceRow) -> Option<ChatRowText> {
    match models::presence_line(row.event_type@) {
        Some(kind) => Some(
            ChatRowText {
                id: row.id,
                received_at: row.occurred_at,
                kind,
                sender_name: None,
                sender_label: None,
                subject_name: Some(row.player_name@),
                killer_name: None,
                plain_text: Seq::empty(),
                server_host: text::opt_text(row.server_host),
            },
        ),
        None => None,
    }
}

pub open spec fn presences_as_chat(rows: Seq<PresenceRow>) -> Seq<ChatRowText>
    decreases rows.len(),
{
    if rows.len() == 0 {
        Seq::empty()
    } else {
        let before = presences_as_chat(rows.drop_last());
        match presence_as_chat(rows.last()) {
            Some(row) => before.push(row),
            None => before,
        }
    }
}

/// Stored joins and leaves as lines.
pub fn fetch_new_presence_as_chat(rows: &Vec<PresenceRow>) -> (r: Vec<ChatRow>)
    ensures
        models::row_texts(r@) == presences_as_chat(rows@),
{
    let mut r: Vec<ChatRow> = Vec::new();
    assert(models::row_texts(r@) =~= presences_as_chat(rows@.take(0)));
    for i in 0..rows.len()
        invariant
            models::row_texts(r@) == presences_as_chat(rows@.take(i as int)),
    {
        assert(rows@.take(i + 1).drop_last() =~= rows@.take(i as int));
        assert(rows@.take(i + 1).last() == rows[i as int]);
        let row = &rows[i];
        if let Some(kind) = models::presence_kind(&row.event_type) {
            let line = ChatRow {
                id: row.id,
                received_at: row.occurred_at,
                kind: text::copy(kind),
                sender_name: None,
                sender_label: None,
                subject_name: Some(row.player_name.clone()),
                killer_name: None,
                plain_text: String::new(),
                server_host: text::copy_opt(&row.server_host),
            };
            let ghost before = r@;
            r.push(line);
            assert(models::row_texts(r@) =~= models::row_texts(before).push(line@));
        }
    }
    assert(rows@.take(rows.len() as int) =~= rows@);
    r
}

/// The name of a player, where it is known.
pub fn name_or_unknown(name: Option<String>) -> (r: String)
    ensures
        r@ == (match name {
            Some(n) => n@,
            None => "?"@,
        }),
{
    match name {
        Some(n) => n,
        None => text::copy("?"),
    }
}

/// Whether a player was ever there.
pub open spec fn ever_seen(s: PlayerStats) -> bool {
    !(s.messages == 0 && s.deaths == 0 && s.joins == 0 && s.leaves == 0 && s.kills == 0
        && s.first_seen is None)
}

/// What is known of a player; nothing of one that was never there.
pub fn player_stats(stats: PlayerStats) -> (r: Option<PlayerStats>)
    ensures
        r == (if ever_seen(stats) {
            Some(stats)
        } else {
            None
        }),
{
    if stats.messages == 0 && stats.deaths == 0 && stats.joins == 0 && stats.leaves == 0
        && stats.kills == 0 && stats.first_seen.is_none() {
        None
    } else {
        Some(stats)
    }
}

/// Where the rows of a kind stand.
#[derive(Debug, Clone, Copy, PartialEq, Eq, Structural)]
pub enum EventSource {
    HotChat,
    AllChat,
    HotEvents,
    AllEvents,
}

/// Where recent events are looked for: among the newest first, in the archive where
/// those are too few.
pub open spec fn source_of(kind: EventKind, archive: bool) -> EventSource {
    match kind {
        EventKind::Join | EventKind::Leave => if archive {
            EventSource::AllEvents
        } else {
            EventSource::HotEvents
        },
        _ => if archive {
            EventSource::AllChat
        } else {
            EventSource::HotChat
        },
    }
}

/// Where recent events were looked for last, and how many were found there.
#[derive(Debug, Clone, Copy, PartialEq, Eq, Structural)]
pub enum Looked {
    Nowhere,
    Hot(usize),
    Archive,
}

/// Where the next look is.
pub open spec fn next_look(kind: EventKind, looked: Looked, limit: i64) -> Option<EventSource> {
    match looked {
        Looked::Nowhere => Some(source_of(kind, false)),
        Looked::Hot(n) => if n < limit {
            Some(source_of(kind, true))
        } else {
            None
        },
        Looked::Archive => None,
    }
}

/// Where to look next: among the newest first, then in the archive where those were
/// too few, and then nowhere.
pub fn recent_events(kind: EventKind, looked: Looked, limit: i64) -> (r: Option<EventSource>)
    ensures
        r == next_look(kind, looked, limit),
{
    let archive = match looked {
        Looked::Nowhere => false,
        Looked::Hot(n) => {
            if limit < 0 || n as u64 >= limit as u64 {
                return None;
            }
            true
        },
        Looked::Archive => {
            return None;
        },
    };
    match kind {
        EventKind::Join | EventKind::Leave => if archive {
            Some(EventSource::AllEvents)
        } else {
            Some(EventSource::HotEvents)
        },
        _ => if archive {
            Some(EventSource::AllChat)
        } else {
            Some(EventSource::HotChat)
        },
    }
}

/// What was looked at once so many rows came from a source.
pub open spec fn looked_at(source: EventSource, found: usize) -> Looked {
    match source {
        EventSource::HotChat | EventSource::HotEvents => Looked::Hot(found),
        EventSource::AllChat | EventSource::AllEvents => Looked::Archive,
    }
}

impl Looked {
    pub fn after(source: EventSource, found: usize) -> (l: Looked)
        ensures
            l == looked_at(source, found),
    {
        match source {
            EventSource::HotChat | EventSource::HotEvents => Looked::Hot(found),
            EventSource::AllChat | EventSource::AllEvents => Looked::Archive,
        }
    }
}

/// A search ends after two looks at the most, whatever they find, and the second is
/// in the archive.
pub proof fn lemma_two_looks_at_most(kind: EventKind, limit: i64, first: usize, second: usize)
    ensures
        next_look(kind, Looked::Nowhere, limit) == Some(source_of(kind, false)),
        ({
            let after_one = looked_at(source_of(kind, false), first);
            next_look(kind, after_one, limit) matches Some(source) ==> source == source_of(
                kind,
                true,
            ) && first < limit && next_look(kind, looked_at(source, second), limit) is None
        }),
{
}

/// The types under which a join or leave may be stored.
pub open spec fn join_leave_types(event_type: Seq<char>) -> Seq<Seq<char>> {
    if event_type == "join"@ || event_type == "j"@ {
        seq!["join"@, "j"@]
    } else if event_type == "leave"@ || event_type == "l"@ {
        seq!["leave"@, "l"@]
    } else {
        seq![event_type]
    }
}

pub fn player_join_leave(event_type: &str) -> (r: Vec<String>)
    ensures
        text::texts(r@) == join_leave_types(event_type@),
{
    let mut r: Vec<String> = Vec::new();
    if text::same(event_type, "join") || text::same(event_type, "j") {
        r.push(text::copy("join"));
        r.push(text::copy("j"));
    } else if text::same(event_type, "leave") || text::same(event_type, "l") {
        r.push(text::copy("leave"));
        r.push(text::copy("l"));
    } else {
        r.push(text::copy(event_type));
    }
    assert(text::texts(r@) =~= join_leave_types(event_type@));
    r
}

/// The windows in which the newest row is looked for.
pub open spec fn newest_windows() -> Seq<Seq<char>> {
    seq!["1 day"@, "30 days"@, "1 year"@]
}

/// The window to look in after so many were looked in without finding a row.
pub fn latest_cursor(tried: usize) -> (r: Option<&'static str>)
    ensures
        text::opt_str(r) == (if tried < 3 {
            Some(newest_windows()[tried as int])
        } else {
            None
        }),
{
    match tried {
        0 => Some("1 day"),
        1 => Some("30 days"),
        2 => Some("1 year"),
        _ => None,
    }
}

// ---------------------------------------------------------------------------
// Players by name
// ---------------------------------------------------------------------------

/// Whether a search for names is repeated anywhere in the name: only where the
/// beginning of a name found nothing.
pub fn search_player_names(found: usize, prefix: &str) -> (again: bool)
    ensures
        again == (found == 0 && prefix@.len() > 0),
{
    found == 0 && !prefix.is_empty()
}

/// The positions of the servers that are searched.
pub open spec fn searched(servers: Seq<config::ServerText>, only: Option<Seq<char>>) -> Seq<int>
    decreases servers.len(),
{
    if servers.len() == 0 {
        Seq::empty()
    } else {
        let before = searched(servers.drop_last(), only);
        match only {
            Some(key) if key != servers.last().key => before,
            _ => before.push(servers.len() - 1),
        }
    }
}

pub open spec fn as_ints(v: Seq<usize>) -> Seq<int> {
    Seq::new(v.len(), |i: int| v[i] as int)
}

/// Which servers are searched: all of them, or the one with a key.
pub fn searched_servers(config: &Config, only: Option<&str>) -> (r: Vec<usize>)
    ensures
        as_ints(r@) == searched(config@.servers, text::opt_str(only)),
{
    let ghost all = config@.servers;
    let mut r: Vec<usize> = Vec::new();
    assert(as_ints(r@) =~= searched(all.take(0), text::opt_str(only)));
    for i in 0..config.servers.len()
        invariant
            all == config@.servers,
            as_ints(r@) == searched(all.take(i as int), text::opt_str(only)),
    {
        assert(all.take(i + 1).drop_last() =~= all.take(i as int));
        assert(all.take(i + 1).last() == config.servers[i as int]@);
        let wanted = match only {
            Some(key) => text::same(key, &config.servers[i].key),
            None => true,
        };
        if wanted {
            let ghost before = r@;
            r.push(i);
            assert(as_ints(r@) =~= as_ints(before).push(i as int));
        }
    }
    assert(all.take(all.len() as int) =~= all);
    r
}

/// The names found on a server.
pub fn hits_on(config: &Config, server: usize, names: &Vec<String>) -> (r: Vec<PlayerHit>)
    requires
        server < config.servers.len(),
    ensures
        r.len() == names.len(),
        forall|i: int|
            #![trigger r[i]]
            0 <= i < r.len() ==> r[i].name@ == names[i]@ && r[i].server_key@
                == config@.servers[server as int].key && r[i].server_label@
                == config@.servers[server as int].label,
{
    let s = &config.servers[server];
    assert(config@.servers[server as int] == s@);
    let mut r: Vec<PlayerHit> = Vec::new();
    for i in 0..names.len()
        invariant
            config@.servers[server as int] == s@,
            r.len() == i,
            forall|k: int|
                #![trigger r[k]]
                0 <= k < i ==> r[k].name@ == names[k]@ && r[k].server_key@
                    == config@.servers[server as int].key && r[k].server_label@
                    == config@.servers[server as int].label,
    {
        r.push(
            PlayerHit {
                name: names[i].clone(),
                server_key: s.key.clone(),
                server_label: s.label.clone(),
            },
        );
    }
    r
}

/// What tells the players of all servers apart.
pub open spec fn hit_key(hit: PlayerHit) -> Seq<char> {
    hit.server_key@ + ":"@ + text::unicode_lower(hit.name@)
}

pub open spec fn has_hit(hits: Seq<PlayerHit>, key: Seq<char>) -> bool {
    exists|i: int| 0 <= i < hits.len() && #[trigger] hit_key(hits[i]) == key
}

pub open spec fn hit_lists(lists: Seq<Vec<PlayerHit>>) -> Seq<Seq<PlayerHit>> {
    Seq::new(lists.len(), |i: int| lists[i]@)
}

/// Takes the name at a position of a list, where it is new and there is room.
pub open spec fn one_more(hits: Seq<PlayerHit>, list: Seq<PlayerHit>, at: int, limit: int) -> Seq<PlayerHit> {
    if at < list.len() && hits.len() < limit && !has_hit(hits, hit_key(list[at])) {
        hits.push(list[at])
    } else {
        hits
    }
}

/// Takes the names at a position of each list.
pub open spec fn one_round(
    hits: Seq<PlayerHit>,
    lists: Seq<Seq<PlayerHit>>,
    at: int,
    limit: int,
) -> Seq<PlayerHit>
    decreases lists.len(),
{
    if lists.len() == 0 {
        hits
    } else {
        one_more(one_round(hits, lists.drop_last(), at, limit), lists.last(), at, limit)
    }
}

/// Takes names from the lists in turn, until a round brings nothing new.
pub open spec fn rounds(hits: Seq<PlayerHit>, lists: Seq<Seq<PlayerHit>>, at: int, limit: int) -> Seq<
    PlayerHit,
>
    decreases
            if hits.len() < limit {
                limit - hits.len()
            } else {
                0
            },
{
    if hits.len() >= limit {
        hits
    } else {
        let next = one_round(hits, lists, at, limit);
        if next.len() <= hits.len() {
            hits
        } else {
            rounds(next, lists, at + 1, limit)
        }
    }
}

fn known_hit(hits: &Vec<PlayerHit>, hit: &PlayerHit) -> (b: bool)
    ensures
        b == has_hit(hits@, hit_key(*hit)),
{
    let key = text::cat3(&hit.server_key, ":", &text::to_lowercase(&hit.name));
    for i in 0..hits.len()
        invariant
            key@ == hit_key(*hit),
            forall|k: int| 0 <= k < i ==> #[trigger] hit_key(hits[k]) != key@,
    {
        let other = text::cat3(&hits[i].server_key, ":", &text::to_lowercase(&hits[i].name));
        if other == key {
            assert(hit_key(hits[i as int]) == key@);
            return true;
        }
    }
    false
}

proof fn lemma_round_grows(hits: Seq<PlayerHit>, lists: Seq<Seq<PlayerHit>>, at: int, limit: int)
    ensures
        one_round(hits, lists, at, limit).len() >= hits.len(),
        one_round(hits, lists, at, limit).len() == hits.len() ==> one_round(
            hits,
            lists,
            at,
            limit,
        ) == hits,
        hits.len() <= limit ==> one_round(hits, lists, at, limit).len() <= limit,
    decreases lists.len(),
{
    if lists.len() > 0 {
        lemma_round_grows(hits, lists.drop_last(), at, limit);
    }
}

/// Puts the names of all servers together: the first of each, then the second of
/// each, and so on. No player of a server comes twice.
pub fn search_players_across_servers(lists: &Vec<Vec<PlayerHit>>, limit: usize) -> (hits: Vec<PlayerHit>)
    ensures
        hits@ == rounds(Seq::empty(), hit_lists(lists@), 0, limit as int),
{
    let ghost all = hit_lists(lists@);
    let ghost goal = rounds(Seq::empty(), all, 0, limit as int);
    let mut hits: Vec<PlayerHit> = Vec::new();
    assert(hits@ =~= Seq::<PlayerHit>::empty());
    let mut at: usize = 0;
    while hits.len() < limit
        invariant
            all == hit_lists(lists@),
            goal == rounds(Seq::empty(), all, 0, limit as int),
            goal == rounds(hits@, all, at as int, limit as int),
            at <= hits.len(),
            hits.len() <= limit,
        decreases limit - hits.len(),
    {
        let ghost before = hits@;
        let n: usize = hits.len();
        assert(one_round(before, all.take(0), at as int, limit as int) == before);
        for j in 0..lists.len()
            invariant
                all == hit_lists(lists@),
                hits@ == one_round(before, all.take(j as int), at as int, limit as int),
                hits.len() <= limit,
                before.len() <= limit,
        {
            proof {
                assert(all.take(j + 1).drop_last() =~= all.take(j as int));
                assert(all.take(j + 1).last() == lists[j as int]@);
            }
            let list = &lists[j];
            if at < list.len() && hits.len() < limit {
                let hit = &list[at];
                if !known_hit(&hits, hit) {
                    hits.push(
                        PlayerHit {
                            name: hit.name.clone(),
                            server_key: hit.server_key.clone(),
                            server_label: hit.server_label.clone(),
                        },
                    );
                }
            }
        }
        proof {
            assert(all.take(all.len() as int) =~= all);
            lemma_round_grows(before, all, at as int, limit as int);
        }
        if hits.len() == n {
            return hits;
        }
        at = at + 1;
    }
    hits
}

/// No two are the same player of the same server.
pub open spec fn all_different(hits: Seq<PlayerHit>) -> bool {
    forall|i: int, j: int|
        0 <= i < j < hits.len() ==> #[trigger] hit_key(hits[i]) != #[trigger] hit_key(hits[j])
}

/// Whether a name stands in one of the lists.
pub open spec fn listed_hit(lists: Seq<Seq<PlayerHit>>, hit: PlayerHit) -> bool {
    exists|l: int, i: int|
        0 <= l < lists.len() && 0 <= i < lists[l].len() && #[trigger] lists[l][i] == hit
}

proof fn lemma_round_sound(
    hits: Seq<PlayerHit>,
    lists: Seq<Seq<PlayerHit>>,
    every: Seq<Seq<PlayerHit>>,
    at: int,
    limit: int,
)
    requires
        at >= 0,
        all_different(hits),
        forall|i: int| 0 <= i < hits.len() ==> listed_hit(every, #[trigger] hits[i]),
        lists.len() <= every.len(),
        lists == every.take(lists.len() as int),
    ensures
        all_different(one_round(hits, lists, at, limit)),
        forall|i: int|
            0 <= i < one_round(hits, lists, at, limit).len() ==> listed_hit(
                every,
                #[trigger] one_round(hits, lists, at, limit)[i],
            ),
    decreases lists.len(),
{
    if lists.len() > 0 {
        let rest = lists.drop_last();
        assert(rest =~= every.take(rest.len() as int));
        lemma_round_sound(hits, rest, every, at, limit);
        let before = one_round(hits, rest, at, limit);
        let after = one_round(hits, lists, at, limit);
        if after != before {
            let added = lists.last()[at];
            let l = lists.len() - 1;
            assert(every[l] == lists.last());
            assert(every[l][at] == added);
            assert(listed_hit(every, added));
            assert forall|i: int, j: int| 0 <= i < j < after.len() implies #[trigger] hit_key(
                after[i],
            ) != #[trigger] hit_key(after[j]) by {
                assert(after[i] == before[i]);
                if j < before.len() {
                    assert(after[j] == before[j]);
                    assert(hit_key(before[i]) != hit_key(before[j]));
                } else {
                    assert(after[j] == added);
                    assert(!has_hit(before, hit_key(added)));
                    assert(hit_key(before[i]) != hit_key(added));
                }
            }
            assert forall|i: int| 0 <= i < after.len() implies listed_hit(
                every,
                #[trigger] after[i],
            ) by {
                if i < before.len() {
                    assert(after[i] == before[i]);
                } else {
                    assert(after[i] == added);
                }
            }
        }
    }
}

/// A search gives no more names than it may, none of them twice, and only names
/// that a server knows.
pub proof fn lemma_hits_are_sound(hits: Seq<PlayerHit>, lists: Seq<Seq<PlayerHit>>, at: int, limit: int)
    requires
        at >= 0,
        hits.len() <= limit,
        all_different(hits),
        forall|i: int| 0 <= i < hits.len() ==> listed_hit(lists, #[trigger] hits[i]),
    ensures
        rounds(hits, lists, at, limit).len() <= limit,
        all_different(rounds(hits, lists, at, limit)),
        forall|i: int|
            0 <= i < rounds(hits, lists, at, limit).len() ==> listed_hit(
                lists,
                #[trigger] rounds(hits, lists, at, limit)[i],
            ),
    decreases limit - hits.len(),
{
    if hits.len() < limit {
        let next = one_round(hits, lists, at, limit);
        lemma_round_grows(hits, lists, at, limit);
        assert(lists =~= lists.take(lists.len() as int));
        lemma_round_sound(hits, lists, lists, at, limit);
        if next.len() > hits.len() {
            lemma_hits_are_sound(next, lists, at + 1, limit);
        }
    }
}

/// The servers that know a name, in order.
pub open spec fn known_on(servers: Seq<config::ServerText>, found: Seq<Option<String>>) -> Seq<
    (Seq<char>, Seq<char>, Seq<char>),
>
    decreases found.len(),
{
    if found.len() == 0 {
        Seq::empty()
    } else {
        let before = known_on(servers, found.drop_last());
        match found.last() {
            Some(name) => before.push(
                (name@, servers[found.len() - 1].key, servers[found.len() - 1].label),
            ),
            None => before,
        }
    }
}

pub open spec fn hit_texts(hits: Seq<PlayerHit>) -> Seq<(Seq<char>, Seq<char>, Seq<char>)> {
    Seq::new(hits.len(), |i: int| (hits[i].name@, hits[i].server_key@, hits[i].server_label@))
}

/// The servers that know a name. `found` is how each server writes it, where it
/// knows it.
pub fn servers_with_player(config: &Config, found: &Vec<Option<String>>) -> (hits: Vec<PlayerHit>)
    requires
        found.len() == config.servers.len(),
    ensures
        hit_texts(hits@) == known_on(config@.servers, found@),
{
    let ghost servers = config@.servers;
    let mut hits: Vec<PlayerHit> = Vec::new();
    assert(hit_texts(hits@) =~= known_on(servers, found@.take(0)));
    for i in 0..found.len()
        invariant
            found.len() == config.servers.len(),
            servers == config@.servers,
            hit_texts(hits@) == known_on(servers, found@.take(i as int)),
    {
        assert(found@.take(i + 1).drop_last() =~= found@.take(i as int));
        assert(found@.take(i + 1).last() == found[i as int]);
        assert(servers[i as int] == config.servers[i as int]@);
        if let Some(name) = &found[i] {
            let hit = PlayerHit {
                name: name.clone(),
                server_key: config.servers[i].key.clone(),
                server_label: config.servers[i].label.clone(),
            };
            let ghost before = hits@;
            let ghost added = (hit.name@, hit.server_key@, hit.server_label@);
            hits.push(hit);
            assert(hit_texts(hits@) =~= hit_texts(before).push(added));
        }
    }
    assert(found@.take(found.len() as int) =~= found@);
    hits
}

// ---------------------------------------------------------------------------
// What is asked for
// ---------------------------------------------------------------------------

/// A kind is shown from the start where it is listed, and every kind where none is.
pub proof fn lemma_kinds_from_the_start(kinds: Seq<Seq<char>>, kind: RouteKind, word: Seq<char>)
    ensures
        on_by_default(Seq::empty(), kind),
        models::canonical(word) == Some(kind) ==> on_by_default(kinds.push(word), kind),
        kinds.len() > 0 && on_by_default(kinds, kind) ==> on_by_default(kinds.push(word), kind),
        kinds.len() > 0 && !on_by_default(kinds, kind) && models::canonical(word) != Some(kind)
            ==> !on_by_default(kinds.push(word), kind),
{
    let more = kinds.push(word);
    if models::canonical(word) == Some(kind) {
        assert(models::canonical(more[kinds.len() as int]) == Some(kind));
    }
    if kinds.len() > 0 && on_by_default(kinds, kind) {
        let i = choose|i: int|
            0 <= i < kinds.len() && #[trigger] models::canonical(kinds[i]) == Some(kind);
        assert(models::canonical(more[i]) == Some(kind));
    }
    if kinds.len() > 0 && !on_by_default(kinds, kind) && models::canonical(word) != Some(kind)
        && on_by_default(more, kind) {
        let i = choose|i: int|
            0 <= i < more.len() && #[trigger] models::canonical(more[i]) == Some(kind);
        assert(models::canonical(kinds[i]) == Some(kind));
    }
}

/// A kind without a row is off; one with a row is as the row says.
pub proof fn lemma_stored_routes(rows: Seq<RouteText>, kind: Seq<char>)
    ensures
        stored_route(rows, kind).kind == kind,
        chatbridge::route_of(rows, kind) matches Some(r) ==> stored_route(rows, kind).enabled
            == r.enabled && stored_route(rows, kind).channel_id == r.channel_id,
        chatbridge::route_of(rows, kind) is None ==> !stored_route(rows, kind).enabled && stored_route(
            rows,
            kind,
        ).channel_id is None,
{
}

/// A stored join or leave becomes a line of that kind about that player.
pub proof fn lemma_presences_become_lines(row: PresenceRow)
    ensures
        ({
            let letter = models::first_letter(row.event_type@);
            &&& letter == Some('j') || letter == Some('l') ==> (presence_as_chat(row) matches Some(line)
                && {
                &&& line.kind == (if letter == Some('j') {
                    "join"@
                } else {
                    "leave"@
                })
                &&& line.id == row.id
                &&& line.received_at == row.occurred_at
                &&& line.subject_name == Some(row.player_name@)
                &&& line.sender_name is None && line.killer_name is None
                &&& row.server_host is Some ==> line.server_host == Some(row.server_host->0@)
            })
            &&& letter != Some('j') && letter != Some('l') ==> presence_as_chat(row) is None
        }),
{
}

/// The lines of stored joins and leaves come in their order.
pub proof fn lemma_presence_lines_in_order(rows: Seq<PresenceRow>, row: PresenceRow)
    ensures
        presence_as_chat(row) matches Some(line) ==> presences_as_chat(rows.push(row))
            == presences_as_chat(rows).push(line),
        presence_as_chat(row) is None ==> presences_as_chat(rows.push(row)) == presences_as_chat(rows),
{
    assert(rows.push(row).drop_last() =~= rows);
}

/// Joins and leaves are looked up among the presence events and everything else in the
/// chat; the archive is asked only where the recent rows do not fill a page.
pub proof fn lemma_where_events_are_looked_up(limit: i64, n: usize)
    ensures
        source_of(EventKind::Join, false) == EventSource::HotEvents,
        source_of(EventKind::Leave, false) == EventSource::HotEvents,
        source_of(EventKind::Join, true) == EventSource::AllEvents,
        source_of(EventKind::Leave, true) == EventSource::AllEvents,
        source_of(EventKind::Chat, false) == EventSource::HotChat,
        source_of(EventKind::Death, false) == EventSource::HotChat,
        source_of(EventKind::Kill, true) == EventSource::AllChat,
        source_of(EventKind::Advancement, true) == EventSource::AllChat,
        n >= limit ==> next_look(EventKind::Chat, Looked::Hot(n), limit) is None,
        n < limit ==> next_look(EventKind::Chat, Looked::Hot(n), limit) == Some(EventSource::AllChat),
        n < limit ==> next_look(EventKind::Join, Looked::Hot(n), limit) == Some(EventSource::AllEvents),
{
}

/// A join is stored under either of its names, and so is a leave, and they share none.
pub proof fn lemma_names_of_joins_and_leaves()
    ensures
        join_leave_types("join"@).contains("join"@) && join_leave_types("join"@).contains("j"@),
        join_leave_types("j"@) == join_leave_types("join"@),
        join_leave_types("leave"@).contains("leave"@) && join_leave_types("leave"@).contains("l"@),
        join_leave_types("l"@) == join_leave_types("leave"@),
        !join_leave_types("join"@).contains("leave"@) && !join_leave_types("join"@).contains("l"@),
        join_leave_types("join"@).len() == 2 && join_leave_types("leave"@).len() == 2,
{
    reveal_strlit("join");
    reveal_strlit("j");
    reveal_strlit("leave");
    reveal_strlit("l");
    assert("join"@[0] == 'j' && "j"@[0] == 'j' && "leave"@[0] == 'l' && "l"@[0] == 'l');
    assert(join_leave_types("join"@)[0] == "join"@ && join_leave_types("join"@)[1] == "j"@);
    assert(join_leave_types("leave"@)[0] == "leave"@ && join_leave_types("leave"@)[1] == "l"@);
}

/// A search goes over the server that was named, or else over all.
pub proof fn lemma_searched_servers(servers: Seq<config::ServerText>, s: config::ServerText, key: Seq<char>)
    ensures
        searched(servers.push(s), None) == searched(servers, None).push(servers.len() as int),
        s.key == key ==> searched(servers.push(s), Some(key)) == searched(servers, Some(key)).push(
            servers.len() as int,
        ),
        s.key != key ==> searched(servers.push(s), Some(key)) == searched(servers, Some(key)),
        searched(Seq::empty(), Some(key)).len() == 0,
{
    assert(servers.push(s).drop_last() =~= servers);
}

/// In a round each server adds its next hit, unless it is there already or the list is
/// full.
pub proof fn lemma_rounds_take_turns(
    hits: Seq<PlayerHit>,
    lists: Seq<Seq<PlayerHit>>,
    list: Seq<PlayerHit>,
    at: int,
    limit: int,
)
    requires
        0 <= at,
    ensures
        ({
            let before = one_round(hits, lists, at, limit);
            let after = one_round(hits, lists.push(list), at, limit);
            &&& at >= list.len() || before.len() >= limit ==> after == before
            &&& at < list.len() && before.len() < limit && !has_hit(before, hit_key(list[at]))
                ==> after == before.push(list[at])
            &&& at < list.len() && has_hit(before, hit_key(list[at])) ==> after == before
        }),
        one_round(hits, Seq::empty(), at, limit) == hits,
{
    assert(lists.push(list).drop_last() =~= lists);
}

/// A player is known on the servers that found the name, each with its key and label.
pub proof fn lemma_known_where_found(
    servers: Seq<config::ServerText>,
    found: Seq<Option<String>>,
    name: String,
)
    requires
        found.len() < servers.len(),
    ensures
        known_on(servers, found.push(Some(name))) == known_on(servers, found).push(
            (name@, servers[found.len() as int].key, servers[found.len() as int].label),
        ),
        known_on(servers, found.push(None)) == known_on(servers, found),
{
    assert(found.push(Some(name)).drop_last() =~= found);
    assert(found.push(None).drop_last() =~= found);
}

/// A player was seen who did anything, or whose first time is known.
pub proof fn lemma_ever_seen(s: PlayerStats)
    ensures
        s.messages > 0 || s.deaths > 0 || s.joins > 0 || s.leaves > 0 || s.kills > 0 ==> ever_seen(s),
        s.first_seen is Some ==> ever_seen(s),
        s.messages == 0 && s.deaths == 0 && s.joins == 0 && s.leaves == 0 && s.kills == 0
            && s.first_seen is None ==> !ever_seen(s),
{
}

/// Whether the settings are those of the row.
pub open spec fn reads_as(s: BridgeSettings, row: Option<SettingsRow>) -> bool {
    match row {
        Some(r) => text::opt_text(s.channel_id) == text::opt_text(r.channel_id) && s.enabled == r.enabled
            && s.style == config::style_of(r.style@) && s.rainbow == r.rainbow,
        None => s.channel_id is None && s.enabled && s.style == BridgeStyle::Rich && !s.rainbow,
    }
}

/// Settings that are stored are as stored; without a row a feed is on, rich, without
/// rainbow and without a channel.
pub proof fn lemma_stored_settings(s: BridgeSettings, row: SettingsRow)
    ensures
        reads_as(s, None) ==> s.enabled && !s.rainbow && s.channel_id is None && s.style
            == BridgeStyle::Rich,
        reads_as(s, Some(row)) ==> s.enabled == row.enabled && s.rainbow == row.rainbow,
        reads_as(s, Some(row)) && row.channel_id is Some ==> s.channel_id is Some && s.channel_id->0@
            == row.channel_id->0@,
        reads_as(s, Some(row)) && row.channel_id is None ==> s.channel_id is None,
        reads_as(s, Some(row)) && row.style@ == "compact"@ ==> s.style == BridgeStyle::Compact,
        reads_as(s, Some(row)) && row.style@ == "rich"@ ==> s.style == BridgeStyle::Rich,
{
    config::lemma_styles(row.style@);
}

} // verus!
