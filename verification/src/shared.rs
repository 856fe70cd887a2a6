//! What several commands share.
use vstd::prelude::*;
use vstd::string::*;

use crate::config;
use crate::config::{Config, ServerConfig};
use crate::formatting;
use crate::models::PlayerHit;
use crate::text;

verus! {

/// What stands between a server and a player.
pub const PLAYER_REF_SEP: &'static str = "::";

pub const MAX_PAGES: u64 = 25;

pub const EVENTS_PER_SCREEN: u64 = 50;

pub const EVENTS_PER_TAB: i64 = 200;

/// How far back to look.
#[derive(Debug, Clone, Copy, PartialEq, Eq, Structural)]
pub enum RangeChoice {
    D7,
    D30,
    D60,
    D90,
    All,
}

pub open spec fn range_days(r: RangeChoice) -> Option<i32> {
    match r {
        RangeChoice::D7 => Some(7),
        RangeChoice::D30 => Some(30),
        RangeChoice::D60 => Some(60),
        RangeChoice::D90 => Some(90),
        RangeChoice::All => None,
    }
}

pub open spec fn range_label(r: RangeChoice) -> Seq<char> {
    match r {
        RangeChoice::D7 => "last 7 days"@,
        RangeChoice::D30 => "last 30 days"@,
        RangeChoice::D60 => "last 60 days"@,
        RangeChoice::D90 => "last 90 days"@,
        RangeChoice::All => "all time"@,
    }
}

pub open spec fn range_index(r: RangeChoice) -> int {
    match r {
        RangeChoice::D7 => 0,
        RangeChoice::D30 => 1,
        RangeChoice::D60 => 2,
        RangeChoice::D90 => 3,
        RangeChoice::All => 4,
    }
}

/// The range at a position of the menu; the shortest where there is none.
pub open spec fn range_at(i: int) -> RangeChoice {
    if i == 1 {
        RangeChoice::D30
    } else if i == 2 {
        RangeChoice::D60
    } else if i == 3 {
        RangeChoice::D90
    } else if i == 4 {
        RangeChoice::All
    } else {
        RangeChoice::D7
    }
}

/// The window of the same length before a range: from so many days ago to so many
/// days ago.
pub open spec fn range_before(r: RangeChoice) -> Option<(i32, i32)> {
    match range_days(r) {
        Some(d) => Some(((d * 2) as i32, d)),
        None => None,
    }
}

impl Default for RangeChoice {
    fn default() -> (r: Self)
        ensures
            r == RangeChoice::D30,
    {
        RangeChoice::D30
    }
}

impl RangeChoice {
    pub fn days(self) -> (d: Option<i32>)
        ensures
            d == range_days(self),
    {
        match self {
            RangeChoice::D7 => Some(7),
            RangeChoice::D30 => Some(30),
            RangeChoice::D60 => Some(60),
            RangeChoice::D90 => Some(90),
            RangeChoice::All => None,
        }
    }

    pub fn label(self) -> (s: &'static str)
        ensures
            s@ == range_label(self),
    {
        match self {
            RangeChoice::D7 => "last 7 days",
            RangeChoice::D30 => "last 30 days",
            RangeChoice::D60 => "last 60 days",
            RangeChoice::D90 => "last 90 days",
            RangeChoice::All => "all time",
        }
    }

    pub fn as_index(self) -> (i: usize)
        ensures
            i == range_index(self),
    {
        match self {
            RangeChoice::D7 => 0,
            RangeChoice::D30 => 1,
            RangeChoice::D60 => 2,
            RangeChoice::D90 => 3,
            RangeChoice::All => 4,
        }
    }

    pub fn from_index(index: usize) -> (r: Self)
        ensures
            r == range_at(index as int),
    {
        if index == 1 {
            RangeChoice::D30
        } else if index == 2 {
            RangeChoice::D60
        } else if index == 3 {
            RangeChoice::D90
        } else if index == 4 {
            RangeChoice::All
        } else {
            RangeChoice::D7
        }
    }

    /// The window of the same length before this one.
    pub fn previous(self) -> (r: Option<(i32, i32)>)
        ensures
            r == range_before(self),
    {
        match self.days() {
            Some(d) => Some((d * 2, d)),
            None => None,
        }
    }
}

/// A range survives its place in the menu.
pub proof fn lemma_ranges_keep_their_place(r: RangeChoice)
    ensures
        range_at(range_index(r)) == r,
        0 <= range_index(r) < 5,
{
}

/// Two windows that follow each other have no gap and no overlap, and one length.
pub proof fn lemma_previous_window_adjoins(r: RangeChoice)
    ensures
        range_before(r) matches Some((since, until)) ==> Some(until) == range_days(r) && since
            - until == until,
{
}

/// A leaderboard to open.
#[derive(Debug, Clone, Copy, PartialEq, Eq, Structural)]
pub enum BoardChoice {
    Kills,
    Kd,
    Deaths,
    Messages,
    Joins,
    Playtime,
}

impl Default for BoardChoice {
    fn default() -> (b: Self)
        ensures
            b == BoardChoice::Kills,
    {
        BoardChoice::Kills
    }
}

pub open spec fn board_index(b: BoardChoice) -> int {
    match b {
        BoardChoice::Kills => 0,
        BoardChoice::Kd => 1,
        BoardChoice::Deaths => 2,
        BoardChoice::Messages => 3,
        BoardChoice::Joins => 4,
        BoardChoice::Playtime => 5,
    }
}

impl BoardChoice {
    /// The position of the board in the menu.
    pub fn as_index(self) -> (i: usize)
        ensures
            i == board_index(self),
    {
        match self {
            BoardChoice::Kills => 0,
            BoardChoice::Kd => 1,
            BoardChoice::Deaths => 2,
            BoardChoice::Messages => 3,
            BoardChoice::Joins => 4,
            BoardChoice::Playtime => 5,
        }
    }
}

// ---------------------------------------------------------------------------
// Players of a server
// ---------------------------------------------------------------------------

/// A player of a server as one text.
pub open spec fn player_ref(server_key: Seq<char>, name: Seq<char>) -> Seq<char> {
    server_key + PLAYER_REF_SEP@ + name
}

pub fn encode_player_ref(server_key: &str, name: &str) -> (r: String)
    ensures
        r@ == player_ref(server_key@, name@),
{
    text::cat3(server_key, PLAYER_REF_SEP, name)
}

/// The server, where one is named, and the player that a text means.
pub open spec fn referred(raw: Option<Seq<char>>) -> Option<(Option<Seq<char>>, Seq<char>)> {
    match raw {
        Some(r) => {
            let t = text::trimmed(r);
            if t.len() == 0 {
                None
            } else {
                match text::split_once_text(t, PLAYER_REF_SEP@) {
                    Some((server, name)) if server.len() > 0 && name.len() > 0 => Some(
                        (Some(server), name),
                    ),
                    _ => Some((None, t)),
                }
            }
        },
        None => None,
    }
}

pub open spec fn ref_text(o: Option<(Option<String>, String)>) -> Option<
    (Option<Seq<char>>, Seq<char>),
> {
    match o {
        Some((server, name)) => Some((text::opt_text(server), name@)),
        None => None,
    }
}

pub fn parse_player_ref(raw: Option<&str>) -> (r: Option<(Option<String>, String)>)
    ensures
        ref_text(r) == referred(text::opt_str(raw)),
{
    let trimmed = match raw {
        Some(s) => text::trim(s),
        None => {
            return None;
        },
    };
    if trimmed.as_str().is_empty() {
        return None;
    }
    if let Some((server, name)) = text::split_once(&trimmed, PLAYER_REF_SEP) {
        if !server.as_str().is_empty() && !name.as_str().is_empty() {
            return Some((Some(server), name));
        }
    }
    Some((None, trimmed))
}

/// The player that a text means.
pub open spec fn referred_name(raw: Option<Seq<char>>) -> Option<Seq<char>> {
    match referred(raw) {
        Some((_, name)) => Some(name),
        None => None,
    }
}

pub fn player_name_arg(raw: Option<&str>) -> (r: Option<String>)
    ensures
        text::opt_text(r) == referred_name(text::opt_str(raw)),
{
    match parse_player_ref(raw) {
        Some((_, name)) => Some(name),
        None => None,
    }
}

/// A key in which the separator does not stand, and which does not end in half of
/// it, ends where the separator starts.
proof fn lemma_separator(key: Seq<char>, rest: Seq<char>)
    requires
        forall|i: int| 0 < i < key.len() && #[trigger] key[i] == ':' ==> key[i - 1] != ':',
        key.len() > 0 ==> key.last() != ':',
    ensures
        text::find_text(key + PLAYER_REF_SEP@ + rest, PLAYER_REF_SEP@) == Some(key.len() as int),
    decreases key.len(),
{
    reveal_strlit("::");
    let sep = PLAYER_REF_SEP@;
    let whole = key + sep + rest;
    if key.len() == 0 {
        assert(whole.take(sep.len() as int) =~= sep);
    } else {
        assert(whole[0] == key[0]);
        assert(!text::begins(whole, sep)) by {
            if text::begins(whole, sep) {
                let front = whole.take(sep.len() as int);
                assert(front[0] == whole[0] && front[1] == whole[1]);
                assert(sep[0] == ':' && sep[1] == ':');
                if key.len() > 1 {
                    assert(whole[1] == key[1]);
                } else {
                    assert(key.last() == ':');
                }
            }
        }
        let shorter = key.skip(1);
        assert forall|i: int| 0 < i < shorter.len() && #[trigger] shorter[i]
            == ':' implies shorter[i - 1] != ':' by {
            assert(key[i + 1] == ':');
        }
        lemma_separator(shorter, rest);
        assert(whole.skip(1) =~= shorter + sep + rest);
    }
}

/// Reading a player of a server back gives both, where the separator does not stand
/// in the key, the key does not end in a colon, the key does not start with space and
/// the name does not end in space.
pub proof fn lemma_player_refs_read_back(server_key: Seq<char>, name: Seq<char>)
    requires
        server_key.len() > 0,
        name.len() > 0,
        !text::has_text(server_key, PLAYER_REF_SEP@),
        server_key.last() != ':',
        !text::is_white(server_key[0]),
        !text::is_white(name.last()),
    ensures
        referred(Some(player_ref(server_key, name))) == Some((Some(server_key), name)),
{
    let whole = player_ref(server_key, name);
    let k = server_key.len() as int;
    assert forall|i: int| 0 < i < k && #[trigger] server_key[i] == ':' implies server_key[i - 1]
        != ':' by {
        if server_key[i - 1] == ':' {
            reveal_strlit("::");
            assert(server_key.subrange(i - 1, i + 1) =~= PLAYER_REF_SEP@);
            text::lemma_has_text(server_key, PLAYER_REF_SEP@, i - 1);
        }
    }
    lemma_separator(server_key, name);
    assert(whole[0] == server_key[0]);
    assert(whole.last() == name.last());
    assert(text::trimmed(whole) == whole);
    assert(whole.take(k) =~= server_key);
    assert(whole.skip(k + PLAYER_REF_SEP@.len()) =~= name);
}

// ---------------------------------------------------------------------------
// Which server
// ---------------------------------------------------------------------------

/// The server that a command is about: the one that is named, or else that of the
/// player, or else the first.
pub open spec fn resolved(
    servers: Seq<config::ServerText>,
    server: Option<Seq<char>>,
    player: Option<Seq<char>>,
) -> int {
    let named = match server {
        Some(key) => config::key_at(servers, key),
        None => None,
    };
    match named {
        Some(i) => i,
        None => match referred(player) {
            Some((Some(key), _)) => match config::key_at(servers, key) {
                Some(i) => i,
                None => 0,
            },
            _ => 0,
        },
    }
}

pub fn resolve_server<'a>(config: &'a Config, server: Option<&str>, player: Option<&str>) -> (r:
    &'a ServerConfig)
    requires
        config.servers.len() > 0,
    ensures
        r@ == config@.servers[resolved(
            config@.servers,
            text::opt_str(server),
            text::opt_str(player),
        )],
{
    if let Some(key) = server {
        if let Some(s) = config.server_by_key(key) {
            return s;
        }
    }
    if let Some((Some(key), _)) = parse_player_ref(player) {
        if let Some(s) = config.server_by_key(&key) {
            return s;
        }
    }
    &config.servers[0]
}

pub open spec fn server_keys(servers: Seq<config::ServerText>) -> Seq<Seq<char>> {
    Seq::new(servers.len(), |i: int| servers[i].key)
}

/// What is said about a server that is not configured.
pub open spec fn unknown_server(servers: Seq<config::ServerText>, key: Seq<char>) -> Seq<char> {
    "\""@ + key + "\" isn't a configured server. Known: "@ + text::join_text(
        server_keys(servers),
        ", "@,
    ) + "."@
}

fn known_keys(config: &Config) -> (r: Vec<String>)
    ensures
        text::texts(r@) == server_keys(config@.servers),
{
    let ghost goal = server_keys(config@.servers);
    let mut r: Vec<String> = Vec::new();
    assert(text::texts(r@) =~= goal.take(0));
    for i in 0..config.servers.len()
        invariant
            goal == server_keys(config@.servers),
            text::texts(r@) == goal.take(i as int),
    {
        let key = config.servers[i].key.clone();
        proof {
            assert(goal[i as int] == key@);
            text::lemma_texts_push(r@, key);
            assert(goal.take(i + 1) =~= goal.take(i as int).push(key@));
        }
        r.push(key);
    }
    assert(goal.take(goal.len() as int) =~= goal);
    r
}

/// As [`resolve_server`], but a named server that is not configured is refused
/// with what to say about it, not passed over.
pub fn resolve_server_checked<'a>(
    config: &'a Config,
    server: Option<&str>,
    player: Option<&str>,
) -> (r: Result<&'a ServerConfig, String>)
    requires
        config.servers.len() > 0,
    ensures
        resolves(
            match r {
                Ok(s) => Ok(s@),
                Err(said) => Err(said@),
            },
            config@.servers,
            text::opt_str(server),
            text::opt_str(player),
        ),
{
    if let Some(key) = server {
        if config.server_by_key(key).is_none() {
            return Err(
                text::cat5(
                    "\"",
                    key,
                    "\" isn't a configured server. Known: ",
                    &text::join(&known_keys(config), ", "),
                    ".",
                ),
            );
        }
    }
    Ok(resolve_server(config, server, player))
}

/// A command is never about a server that is not configured.
pub proof fn lemma_resolved_is_configured(
    servers: Seq<config::ServerText>,
    server: Option<Seq<char>>,
    player: Option<Seq<char>>,
)
    requires
        servers.len() > 0,
    ensures
        0 <= resolved(servers, server, player) < servers.len(),
{
    if let Some(key) = server {
        config::lemma_key_at(servers, key);
    }
    if let Some((Some(key), _)) = referred(player) {
        config::lemma_key_at(servers, key);
    }
}

// ---------------------------------------------------------------------------
// Completion
// ---------------------------------------------------------------------------

/// The most choices that Discord shows.
pub const MAX_CHOICES: usize = 25;

/// The most characters of a choice.
pub const CHOICE_CHARS: usize = 100;

/// A choice: what is shown, and what it stands for.
pub struct Choice {
    pub label: String,
    pub value: String,
}

pub open spec fn choice_text(c: Choice) -> (Seq<char>, Seq<char>) {
    (c.label@, c.value@)
}

pub open spec fn choice_texts(v: Seq<Choice>) -> Seq<(Seq<char>, Seq<char>)> {
    Seq::new(v.len(), |i: int| choice_text(v[i]))
}

/// How a player is offered. With several servers the server is shown too.
pub open spec fn hit_choice(hit: PlayerHit, multi: bool) -> (Seq<char>, Seq<char>) {
    (
        formatting::clamped(
            if multi {
                hit.name@ + " · "@ + hit.server_label@
            } else {
                hit.name@
            },
            CHOICE_CHARS as int,
        ),
        player_ref(hit.server_key@, hit.name@),
    )
}

pub open spec fn hit_choices(hits: Seq<PlayerHit>, multi: bool) -> Seq<(Seq<char>, Seq<char>)> {
    Seq::new(hits.len(), |i: int| hit_choice(hits[i], multi))
}

/// Offers the players that a search found.
pub fn autocomplete_player(hits: &Vec<PlayerHit>, multi: bool) -> (r: Vec<Choice>)
    ensures
        choice_texts(r@) == hit_choices(hits@, multi),
{
    let ghost goal = hit_choices(hits@, multi);
    let mut r: Vec<Choice> = Vec::new();
    assert(choice_texts(r@) =~= goal.take(0));
    for i in 0..hits.len()
        invariant
            goal == hit_choices(hits@, multi),
            choice_texts(r@) == goal.take(i as int),
    {
        let hit = &hits[i];
        let label = if multi {
            text::cat3(&hit.name, " · ", &hit.server_label)
        } else {
            hit.name.clone()
        };
        let choice = Choice {
            label: formatting::clamp(&label, CHOICE_CHARS),
            value: encode_player_ref(&hit.server_key, &hit.name),
        };
        let ghost before = r@;
        assert(goal[i as int] == choice_text(choice));
        r.push(choice);
        assert(choice_texts(r@) =~= choice_texts(before).push(choice_text(choice)));
        assert(choice_texts(r@) =~= goal.take(i + 1));
    }
    assert(goal.take(goal.len() as int) =~= goal);
    r
}

/// Whether a server is offered for what was typed.
pub open spec fn server_matches(s: config::ServerText, partial: Seq<char>) -> bool {
    partial.len() == 0 || text::has_text(s.key, partial) || text::has_text(
        text::unicode_lower(s.label),
        partial,
    )
}

/// The servers that are offered for what was typed.
pub open spec fn server_choices(servers: Seq<config::ServerText>, partial: Seq<char>) -> Seq<
    (Seq<char>, Seq<char>),
>
    decreases servers.len(),
{
    if servers.len() == 0 {
        Seq::empty()
    } else {
        let before = server_choices(servers.drop_last(), partial);
        if server_matches(servers.last(), partial) && before.len() < MAX_CHOICES {
            before.push((servers.last().label, servers.last().key))
        } else {
            before
        }
    }
}

pub fn autocomplete_server(config: &Config, partial: &str) -> (r: Vec<Choice>)
    ensures
        choice_texts(r@) == server_choices(config@.servers, text::unicode_lower(partial@)),
{
    let low = text::to_lowercase(partial);
    let ghost all = config@.servers;
    let mut r: Vec<Choice> = Vec::new();
    assert(choice_texts(r@) =~= server_choices(all.take(0), low@));
    for i in 0..config.servers.len()
        invariant
            all == config::server_texts(config.servers@),
            choice_texts(r@) == server_choices(all.take(i as int), low@),
    {
        assert(all.take(i + 1).drop_last() =~= all.take(i as int));
        let s = &config.servers[i];
        if r.len() < MAX_CHOICES && (low.as_str().is_empty() || text::has(&s.key, &low)
            || text::has(&text::to_lowercase(&s.label), &low)) {
            let ghost before = r@;
            let choice = Choice { label: s.label.clone(), value: s.key.clone() };
            r.push(choice);
            assert(choice_texts(r@) =~= choice_texts(before).push(choice_text(choice)));
        }
    }
    assert(all.take(all.len() as int) =~= all);
    r
}

// ---------------------------------------------------------------------------
// Pages
// ---------------------------------------------------------------------------

/// How many pages so many items take: at least one, and no more than there may be.
/// Pages of no size are as many as there may be.
pub open spec fn pages_for(total: int, per_page: int) -> int {
    if total <= 0 {
        1
    } else if per_page == 0 || (total + per_page - 1) / per_page > MAX_PAGES {
        MAX_PAGES as int
    } else {
        (total + per_page - 1) / per_page
    }
}

pub fn page_count_for(total: i64, per_page: u64) -> (n: u64)
    ensures
        n == pages_for(total as int, per_page as int),
        1 <= n <= MAX_PAGES,
{
    if total <= 0 {
        return 1;
    }
    if per_page == 0 {
        return MAX_PAGES;
    }
    let sum: u128 = total as u128 + per_page as u128 - 1;
    let pages: u128 = sum / (per_page as u128);
    proof {
        let t = total as int;
        let p = per_page as int;
        assert(1 <= (t + p - 1) / p) by (nonlinear_arith)
            requires
                t >= 1,
                p >= 1,
        ;
    }
    if pages > MAX_PAGES as u128 {
        MAX_PAGES
    } else {
        pages as u64
    }
}

/// How many screens so many events take; at least one.
pub open spec fn screens(len: int) -> int {
    if len <= EVENTS_PER_SCREEN {
        1
    } else {
        (len + EVENTS_PER_SCREEN - 1) / (EVENTS_PER_SCREEN as int)
    }
}

pub fn screens_for(len: usize) -> (n: u64)
    ensures
        n == screens(len as int),
        n >= 1,
{
    let n: u64 = len as u64;
    if n <= EVENTS_PER_SCREEN {
        1
    } else if n % EVENTS_PER_SCREEN == 0 {
        n / EVENTS_PER_SCREEN
    } else {
        n / EVENTS_PER_SCREEN + 1
    }
}

/// The page that is shown where another was asked for: the last where that is
/// beyond it.
pub open spec fn shown_page(page: int, pages: int) -> int {
    if page < pages {
        page
    } else {
        pages - 1
    }
}

/// Every item has a page to stand on, as long as there are no more pages than
/// there may be.
pub proof fn lemma_pages_cover(total: int, per_page: int, i: int)
    requires
        0 <= i < total,
        0 < per_page,
        total <= per_page * MAX_PAGES,
    ensures
        0 <= i / per_page < pages_for(total, per_page),
{
    let pages = (total + per_page - 1) / per_page;
    assert(0 <= i / per_page && i / per_page < pages && pages <= MAX_PAGES) by (nonlinear_arith)
        requires
            0 <= i < total,
            0 < per_page,
            total <= per_page * MAX_PAGES,
            pages == (total + per_page - 1) / per_page,
    ;
}

// ---------------------------------------------------------------------------
// Ranges, servers and pages
// ---------------------------------------------------------------------------

/// The days of each range, and what it is called.
pub proof fn lemma_ranges()
    ensures
        range_days(RangeChoice::D7) == Some(7i32) && range_label(RangeChoice::D7) == "last 7 days"@,
        range_days(RangeChoice::D30) == Some(30i32) && range_label(RangeChoice::D30) == "last 30 days"@,
        range_days(RangeChoice::D60) == Some(60i32) && range_label(RangeChoice::D60) == "last 60 days"@,
        range_days(RangeChoice::D90) == Some(90i32) && range_label(RangeChoice::D90) == "last 90 days"@,
        range_days(RangeChoice::All) is None && range_label(RangeChoice::All) == "all time"@,
        range_before(RangeChoice::All) is None,
        range_before(RangeChoice::D7) == Some((14i32, 7i32)),
        range_at(0) == RangeChoice::D7 && range_at(4) == RangeChoice::All,
{
}

/// The boards come in their order.
pub proof fn lemma_boards_in_order()
    ensures
        board_index(BoardChoice::Kills) == 0,
        board_index(BoardChoice::Kd) == 1,
        board_index(BoardChoice::Deaths) == 2,
        board_index(BoardChoice::Messages) == 3,
        board_index(BoardChoice::Joins) == 4,
        board_index(BoardChoice::Playtime) == 5,
{
}

/// A server that was named and is known is the one; else that of the player who was
/// picked, where it is known; else the first.
pub proof fn lemma_which_server(
    servers: Seq<config::ServerText>,
    server: Option<Seq<char>>,
    player: Option<Seq<char>>,
    i: int,
)
    requires
        0 <= i < servers.len(),
        forall|j: int| 0 <= j < i ==> #[trigger] servers[j].key != servers[i].key,
    ensures
        server == Some(servers[i].key) ==> resolved(servers, server, player) == i,
        server is None && (referred(player) matches Some((key, _)) && key == Some(servers[i].key))
            ==> resolved(servers, server, player) == i,
        server is None && player is None ==> resolved(servers, server, player) == 0,
{
    config::lemma_key_at(servers, servers[i].key);
    let at = config::key_at(servers, servers[i].key);
    if at is Some && at->0 > i {
        assert(servers[i].key == servers[i].key);
    }
    if at is Some && at->0 < i {
        assert(servers[at->0].key != servers[i].key);
    }
}

/// A player who is picked comes with the server; where there are several the label says
/// which.
pub proof fn lemma_picked_players(hit: PlayerHit)
    ensures
        hit_choice(hit, true).1 == hit.server_key@ + "::"@ + hit.name@,
        hit_choice(hit, false).1 == hit.server_key@ + "::"@ + hit.name@,
        hit.name@.len() <= 100 ==> hit_choice(hit, false).0 == hit.name@,
        (hit.name@ + " · "@ + hit.server_label@).len() <= 100 ==> hit_choice(hit, true).0 == hit.name@
            + " · "@ + hit.server_label@,
{
}

/// The servers that are offered are those whose key or label has what was typed, in their
/// order and no more than fit.
pub proof fn lemma_offered_servers(
    servers: Seq<config::ServerText>,
    s: config::ServerText,
    partial: Seq<char>,
)
    ensures
        server_matches(s, Seq::empty()),
        text::has_text(s.key, partial) ==> server_matches(s, partial),
        text::has_text(text::unicode_lower(s.label), partial) ==> server_matches(s, partial),
        server_matches(s, partial) && server_choices(servers, partial).len() < 25 ==> server_choices(
            servers.push(s),
            partial,
        ) == server_choices(servers, partial).push((s.label, s.key)),
        !server_matches(s, partial) ==> server_choices(servers.push(s), partial) == server_choices(
            servers,
            partial,
        ),
{
    assert(servers.push(s).drop_last() =~= servers);
}

/// There are as many pages as it takes, at least one and at most twenty-five; a page
/// behind the last is the last.
pub proof fn lemma_as_many_pages_as_it_takes(total: int, per_page: int, page: int)
    requires
        0 < total <= 25 * per_page,
        0 < per_page,
        0 <= page,
    ensures
        pages_for(0, per_page) == 1,
        (pages_for(total, per_page) - 1) * per_page < total <= pages_for(total, per_page) * per_page,
        1 <= pages_for(total, per_page) <= 25,
        page < pages_for(total, per_page) ==> shown_page(page, pages_for(total, per_page)) == page,
        page >= pages_for(total, per_page) ==> shown_page(page, pages_for(total, per_page)) == pages_for(
            total,
            per_page,
        ) - 1,
{
    let n = (total + per_page - 1) / per_page;
    assert(n * per_page >= total && (n - 1) * per_page < total && n >= 1 && n <= 25) by (nonlinear_arith)
        requires
            0 < total <= 25 * per_page,
            0 < per_page,
            n == (total + per_page - 1) / per_page,
    ;
}

/// A server that is not configured is answered with those that are.
pub proof fn lemma_unknown_servers(servers: Seq<config::ServerText>, key: Seq<char>, i: int)
    requires
        0 <= i < servers.len(),
    ensures
        text::begins(unknown_server(servers, key), "\""@ + key + "\""@),
        text::has_text(unknown_server(servers, key), servers[i].key),
{
    reveal_strlit("\"");
    reveal_strlit("\" isn't a configured server. Known: ");
    let whole = unknown_server(servers, key);
    let a = "\""@ + key + "\""@;
    assert(whole.take(a.len() as int) =~= a);
    let keys = server_keys(servers);
    let none = Seq::<char>::empty();
    text::lemma_has_inside(none, keys[i], none);
    assert(none + keys[i] + none =~= keys[i]);
    text::lemma_joined_has(keys, ", "@, i, keys[i]);
    text::lemma_has_within(
        "\""@ + key + "\" isn't a configured server. Known: "@,
        text::join_text(keys, ", "@),
        "."@,
        keys[i],
    );
}

/// Whether that is what a server and a player that were named come to.
pub open spec fn resolves(
    r: Result<config::ServerText, Seq<char>>,
    servers: Seq<config::ServerText>,
    server: Option<Seq<char>>,
    player: Option<Seq<char>>,
) -> bool {
    match r {
        Ok(s) => (server matches Some(key) ==> config::key_at(servers, key) is Some) && s
            == servers[resolved(servers, server, player)],
        Err(said) => server matches Some(key) && config::key_at(servers, key) is None && said
            == unknown_server(servers, key),
    }
}

/// A server that was named is used where it is known and is an error where it is not;
/// without a name there is none.
pub proof fn lemma_named_servers(
    r: Result<config::ServerText, Seq<char>>,
    servers: Seq<config::ServerText>,
    server: Option<Seq<char>>,
    player: Option<Seq<char>>,
    key: Seq<char>,
)
    requires
        resolves(r, servers, server, player),
        servers.len() > 0,
    ensures
        server is None ==> r is Ok,
        server == Some(key) && (forall|i: int|
            0 <= i < servers.len() ==> #[trigger] servers[i].key != key) ==> r == Err::<
            config::ServerText,
            Seq<char>,
        >(unknown_server(servers, key)),
        server == Some(key) ==> (r matches Ok(s) ==> s.key == key),
{
    if server == Some(key) {
        config::lemma_key_at(servers, key);
    }
}

} // verus!
