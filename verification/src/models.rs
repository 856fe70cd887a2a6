//! What the Discord side reads and shows.
use vstd::prelude::*;
use vstd::string::*;

use crate::config::BridgeStyle;
use crate::text;

verus! {

/// With fewer kills nobody has a kill/death ratio.
pub const MIN_KILLS_FOR_KD: i64 = 5;

/// A line of the feed.
pub struct ChatRow {
    pub id: i64,
    /// Microseconds since the epoch.
    pub received_at: i64,
    pub kind: String,
    pub sender_name: Option<String>,
    pub sender_label: Option<String>,
    pub subject_name: Option<String>,
    pub killer_name: Option<String>,
    /// Of chat the message, of an advancement its title or an old full line, of
    /// deaths, joins and leaves nothing: those are put together for display.
    pub plain_text: String,
    pub server_host: Option<String>,
}

/// The contents of a [`ChatRow`].
#[verifier::ext_equal]
pub struct ChatRowText {
    pub id: i64,
    pub received_at: i64,
    pub kind: Seq<char>,
    pub sender_name: Option<Seq<char>>,
    pub sender_label: Option<Seq<char>>,
    pub subject_name: Option<Seq<char>>,
    pub killer_name: Option<Seq<char>>,
    pub plain_text: Seq<char>,
    pub server_host: Option<Seq<char>>,
}

impl View for ChatRow {
    type V = ChatRowText;

    open spec fn view(&self) -> ChatRowText {
        ChatRowText {
            id: self.id,
            received_at: self.received_at,
            kind: self.kind@,
            sender_name: text::opt_text(self.sender_name),
            sender_label: text::opt_text(self.sender_label),
            subject_name: text::opt_text(self.subject_name),
            killer_name: text::opt_text(self.killer_name),
            plain_text: self.plain_text@,
            server_host: text::opt_text(self.server_host),
        }
    }
}

pub open spec fn row_texts(v: Seq<ChatRow>) -> Seq<ChatRowText> {
    Seq::new(v.len(), |i: int| v[i]@)
}

impl ChatRow {
    pub fn copy(&self) -> (r: ChatRow)
        ensures
            r@ == self@,
    {
        ChatRow {
            id: self.id,
            received_at: self.received_at,
            kind: self.kind.clone(),
            sender_name: text::copy_opt(&self.sender_name),
            sender_label: text::copy_opt(&self.sender_label),
            subject_name: text::copy_opt(&self.subject_name),
            killer_name: text::copy_opt(&self.killer_name),
            plain_text: self.plain_text.clone(),
            server_host: text::copy_opt(&self.server_host),
        }
    }
}

pub struct BridgeSettings {
    pub channel_id: Option<String>,
    pub enabled: bool,
    pub style: BridgeStyle,
    pub rainbow: bool,
}

pub struct EventRoute {
    pub kind: String,
    pub enabled: bool,
    pub channel_id: Option<String>,
}

/// The contents of an [`EventRoute`].
#[verifier::ext_equal]
pub struct RouteText {
    pub kind: Seq<char>,
    pub enabled: bool,
    pub channel_id: Option<Seq<char>>,
}

impl View for EventRoute {
    type V = RouteText;

    open spec fn view(&self) -> RouteText {
        RouteText {
            kind: self.kind@,
            enabled: self.enabled,
            channel_id: text::opt_text(self.channel_id),
        }
    }
}

pub open spec fn route_texts(v: Seq<EventRoute>) -> Seq<RouteText> {
    Seq::new(v.len(), |i: int| v[i]@)
}

/// A kind of line that can be sent to a channel of its own.
#[derive(Debug, Clone, Copy, PartialEq, Eq, Structural)]
pub enum RouteKind {
    Chat,
    Join,
    Leave,
    Death,
    Advancement,
    Server,
    Whisper,
}

/// The kinds in the order in which they are shown.
pub open spec fn route_kind(i: int) -> RouteKind {
    if i == 0 {
        RouteKind::Chat
    } else if i == 1 {
        RouteKind::Join
    } else if i == 2 {
        RouteKind::Leave
    } else if i == 3 {
        RouteKind::Death
    } else if i == 4 {
        RouteKind::Advancement
    } else if i == 5 {
        RouteKind::Server
    } else {
        RouteKind::Whisper
    }
}

/// How many kinds there are.
pub const ROUTE_KIND_COUNT: usize = 7;

pub open spec fn route_name(kind: RouteKind) -> Seq<char> {
    match kind {
        RouteKind::Chat => "chat"@,
        RouteKind::Join => "join"@,
        RouteKind::Leave => "leave"@,
        RouteKind::Death => "death"@,
        RouteKind::Advancement => "advancement"@,
        RouteKind::Server => "server"@,
        RouteKind::Whisper => "whisper"@,
    }
}

impl RouteKind {
    /// The kind at a position.
    pub fn at(i: usize) -> (k: Self)
        requires
            i < ROUTE_KIND_COUNT,
        ensures
            k == route_kind(i as int),
    {
        if i == 0 {
            RouteKind::Chat
        } else if i == 1 {
            RouteKind::Join
        } else if i == 2 {
            RouteKind::Leave
        } else if i == 3 {
            RouteKind::Death
        } else if i == 4 {
            RouteKind::Advancement
        } else if i == 5 {
            RouteKind::Server
        } else {
            RouteKind::Whisper
        }
    }

    pub fn as_str(self) -> (s: &'static str)
        ensures
            s@ == route_name(self),
    {
        match self {
            RouteKind::Chat => "chat",
            RouteKind::Join => "join",
            RouteKind::Leave => "leave",
            RouteKind::Death => "death",
            RouteKind::Advancement => "advancement",
            RouteKind::Server => "server",
            RouteKind::Whisper => "whisper",
        }
    }
}

/// Kinds are told apart by their names.
pub proof fn lemma_kinds_are_told_apart(a: RouteKind, b: RouteKind)
    requires
        route_name(a) == route_name(b),
    ensures
        a == b,
{
    reveal_strlit("chat");
    reveal_strlit("join");
    reveal_strlit("leave");
    reveal_strlit("death");
    reveal_strlit("advancement");
    reveal_strlit("server");
    reveal_strlit("whisper");
    assert("chat"@[0] == 'c' && "join"@[0] == 'j' && "leave"@[0] == 'l');
    assert("death"@[0] == 'd' && "advancement"@[0] == 'a');
    assert("server"@[0] == 's' && "whisper"@[0] == 'w');
}

/// The names of the kinds, in order.
pub open spec fn route_names() -> Seq<Seq<char>> {
    Seq::new(ROUTE_KIND_COUNT as nat, |i: int| route_name(route_kind(i)))
}

pub open spec fn route_label(kind: Seq<char>) -> Seq<char> {
    if kind == "chat"@ {
        "Chat"@
    } else if kind == "join"@ {
        "Joins"@
    } else if kind == "leave"@ {
        "Leaves"@
    } else if kind == "death"@ {
        "Deaths"@
    } else if kind == "advancement"@ {
        "Advancements"@
    } else if kind == "server"@ {
        "Server"@
    } else if kind == "whisper"@ {
        "Whispers"@
    } else {
        "Event"@
    }
}

pub fn route_kind_label(kind: &str) -> (s: &'static str)
    ensures
        s@ == route_label(kind@),
{
    if text::same(kind, "chat") {
        "Chat"
    } else if text::same(kind, "join") {
        "Joins"
    } else if text::same(kind, "leave") {
        "Leaves"
    } else if text::same(kind, "death") {
        "Deaths"
    } else if text::same(kind, "advancement") {
        "Advancements"
    } else if text::same(kind, "server") {
        "Server"
    } else if text::same(kind, "whisper") {
        "Whispers"
    } else {
        "Event"
    }
}

/// The first letter of a value, in lower case.
pub open spec fn first_letter(value: Seq<char>) -> Option<char> {
    let t = text::trimmed(value);
    if t.len() == 0 {
        None
    } else {
        Some(text::lower_char(t[0]))
    }
}

pub fn letter_of(value: &str) -> (r: Option<char>)
    ensures
        r == first_letter(value@),
{
    let v = text::chars_of(&text::trim(value));
    if v.len() == 0 {
        None
    } else {
        Some(text::to_lower_char(v[0]))
    }
}

/// The kind that a stored value means, short or long.
pub open spec fn canonical(kind: Seq<char>) -> Option<RouteKind> {
    match first_letter(kind) {
        Some('c') => Some(RouteKind::Chat),
        Some('w') => Some(RouteKind::Whisper),
        Some('j') => Some(RouteKind::Join),
        Some('l') => Some(RouteKind::Leave),
        Some('d') => Some(RouteKind::Death),
        Some('a') => Some(RouteKind::Advancement),
        Some('s') => Some(RouteKind::Server),
        _ => None,
    }
}

pub open spec fn opt_route_name(o: Option<RouteKind>) -> Option<Seq<char>> {
    match o {
        Some(k) => Some(route_name(k)),
        None => None,
    }
}

pub fn canonical_route_kind(kind: &str) -> (r: Option<&'static str>)
    ensures
        text::opt_str(r) == opt_route_name(canonical(kind@)),
{
    match letter_of(kind) {
        Some('c') => Some("chat"),
        Some('w') => Some("whisper"),
        Some('j') => Some("join"),
        Some('l') => Some("leave"),
        Some('d') => Some("death"),
        Some('a') => Some("advancement"),
        Some('s') => Some("server"),
        _ => None,
    }
}

/// The kind of line that a presence event gives. Snapshots give none.
pub open spec fn presence_line(event_type: Seq<char>) -> Option<Seq<char>> {
    match first_letter(event_type) {
        Some('j') => Some("join"@),
        Some('l') => Some("leave"@),
        _ => None,
    }
}

pub fn presence_kind(event_type: &str) -> (r: Option<&'static str>)
    ensures
        text::opt_str(r) == presence_line(event_type@),
{
    match letter_of(event_type) {
        Some('j') => Some("join"),
        Some('l') => Some("leave"),
        _ => None,
    }
}

/// A player on somebody's watch list who came or went.
pub struct WatchHit {
    pub id: i64,
    pub occurred_at: i64,
    pub event_type: String,
    pub player_name: String,
    pub server_host: Option<String>,
    pub user_id: String,
    pub channel_id: String,
}

pub struct OverallStats {
    pub servers: i64,
    pub sessions: i64,
    pub messages: i64,
    pub chat: i64,
    pub players: i64,
    pub joins: i64,
    pub leaves: i64,
    pub deaths: i64,
    pub kills: i64,
    pub goals: i64,
    pub online: i64,
    pub first_seen: Option<i64>,
    pub last_seen: Option<i64>,
}

#[derive(Debug, Clone, Copy, PartialEq, Eq, Structural)]
pub struct WindowStats {
    pub chat: i64,
    pub joins: i64,
    pub leaves: i64,
    pub deaths: i64,
    pub kills: i64,
    pub goals: i64,
    pub players: i64,
}

impl Default for WindowStats {
    fn default() -> (s: Self)
        ensures
            s == (WindowStats {
                chat: 0,
                joins: 0,
                leaves: 0,
                deaths: 0,
                kills: 0,
                goals: 0,
                players: 0,
            }),
    {
        WindowStats { chat: 0, joins: 0, leaves: 0, deaths: 0, kills: 0, goals: 0, players: 0 }
    }
}

/// What a leaderboard ranks by.
#[derive(Debug, Clone, Copy, PartialEq, Eq, Structural)]
pub enum LeaderMetric {
    Kills,
    Deaths,
    Kd,
    Messages,
    Joins,
    Playtime,
}

pub open spec fn metric_of(s: Seq<char>) -> LeaderMetric {
    if s == "deaths"@ {
        LeaderMetric::Deaths
    } else if s == "kd"@ {
        LeaderMetric::Kd
    } else if s == "messages"@ {
        LeaderMetric::Messages
    } else if s == "joins"@ {
        LeaderMetric::Joins
    } else if s == "playtime"@ {
        LeaderMetric::Playtime
    } else {
        LeaderMetric::Kills
    }
}

pub open spec fn metric_name(m: LeaderMetric) -> Seq<char> {
    match m {
        LeaderMetric::Kills => "kills"@,
        LeaderMetric::Deaths => "deaths"@,
        LeaderMetric::Kd => "kd"@,
        LeaderMetric::Messages => "messages"@,
        LeaderMetric::Joins => "joins"@,
        LeaderMetric::Playtime => "playtime"@,
    }
}

impl LeaderMetric {
    pub fn parse(s: &str) -> (m: Self)
        ensures
            m == metric_of(s@),
    {
        if text::same(s, "deaths") {
            LeaderMetric::Deaths
        } else if text::same(s, "kd") {
            LeaderMetric::Kd
        } else if text::same(s, "messages") {
            LeaderMetric::Messages
        } else if text::same(s, "joins") {
            LeaderMetric::Joins
        } else if text::same(s, "playtime") {
            LeaderMetric::Playtime
        } else {
            LeaderMetric::Kills
        }
    }

    pub fn as_str(self) -> (s: &'static str)
        ensures
            s@ == metric_name(self),
    {
        match self {
            LeaderMetric::Kills => "kills",
            LeaderMetric::Deaths => "deaths",
            LeaderMetric::Kd => "kd",
            LeaderMetric::Messages => "messages",
            LeaderMetric::Joins => "joins",
            LeaderMetric::Playtime => "playtime",
        }
    }
}

/// Reading a metric back gives the metric.
pub proof fn lemma_metric_names_read_back(m: LeaderMetric)
    ensures
        metric_of(metric_name(m)) == m,
{
    reveal_strlit("kills");
    reveal_strlit("deaths");
    reveal_strlit("kd");
    reveal_strlit("messages");
    reveal_strlit("joins");
    reveal_strlit("playtime");
    assert("kills"@.len() == 5 && "kills"@[0] == 'k');
    assert("deaths"@.len() == 6);
    assert("kd"@.len() == 2);
    assert("messages"@.len() == 8 && "messages"@[0] == 'm');
    assert("joins"@.len() == 5 && "joins"@[0] == 'j');
    assert("playtime"@.len() == 8 && "playtime"@[0] == 'p');
}

/// A place on a leaderboard.
pub struct LeaderRow {
    pub name: String,
    /// Thousandths of what the board ranks by, rounded down.
    pub value_milli: i64,
    pub kills: Option<i64>,
    pub deaths: Option<i64>,
    /// The kill/death ratio with two decimals.
    pub ratio: String,
}

pub struct PlayerStats {
    pub name: String,
    pub uuid: Option<String>,
    pub messages: i64,
    pub deaths: i64,
    pub joins: i64,
    pub leaves: i64,
    pub kills: i64,
    pub advancements: i64,
    pub first_seen: Option<i64>,
    pub last_seen: Option<i64>,
    pub last_message_at: Option<i64>,
    pub kill_rank: Option<i64>,
    pub chat_rank: Option<String>,
    /// Milliseconds, rounded down.
    pub playtime_ms: i64,
    pub session_count: i64,
}

/// Whether nothing is known of a player: no line, no session and less than a
/// second in the game.
pub open spec fn quiet(s: PlayerStats) -> bool {
    s.messages == 0 && s.deaths == 0 && s.joins == 0 && s.leaves == 0 && s.kills == 0
        && s.advancements == 0 && s.session_count == 0 && s.playtime_ms < 1000
}

impl PlayerStats {
    pub fn is_quiet(&self) -> (b: bool)
        ensures
            b == quiet(*self),
    {
        self.messages == 0 && self.deaths == 0 && self.joins == 0 && self.leaves == 0 && self.kills
            == 0 && self.advancements == 0 && self.session_count == 0 && self.playtime_ms < 1000
    }
}

pub struct RivalRow {
    pub name: String,
    pub count: i64,
}

pub struct PlayerHit {
    pub name: String,
    pub server_key: String,
    pub server_label: String,
}

pub struct ChatHistoryRow {
    pub received_at: i64,
    pub sender_name: Option<String>,
    pub plain_text: String,
    pub server_host: Option<String>,
}

pub struct ChatQuery {
    pub player: Option<String>,
    pub search: Option<String>,
    pub limit: i64,
    pub offset: i64,
    pub since_days: Option<i32>,
}

impl Default for ChatQuery {
    fn default() -> (q: Self)
        ensures
            q == (ChatQuery { player: None, search: None, limit: 0, offset: 0, since_days: None }),
    {
        ChatQuery { player: None, search: None, limit: 0, offset: 0, since_days: None }
    }
}

pub struct TopicStats {
    pub host: Option<String>,
    pub online: i64,
    pub peak_today: i64,
    pub players_24h: i64,
    pub chat_1h: i64,
    pub joins_1h: i64,
    pub deaths_24h: i64,
    pub logger_live: bool,
    pub last_message_at: Option<i64>,
}

pub struct DatabaseStats {
    pub database: String,
    pub size: String,
    pub bytes: i64,
    pub oldest: Option<i64>,
    pub newest: Option<i64>,
    pub chat: i64,
    pub joins: i64,
    pub leaves: i64,
    pub deaths: i64,
    pub kills: i64,
    pub players: i64,
    pub sessions: i64,
    pub goals: i64,
}

pub struct EventRow {
    pub occurred_at: i64,
    pub player_name: String,
    pub detail: Option<String>,
}

#[derive(Debug, Clone, Copy, PartialEq, Eq, Structural)]
pub enum EventKind {
    Chat,
    Join,
    Leave,
    Death,
    Kill,
    Advancement,
}

pub open spec fn event_name(kind: EventKind) -> Seq<char> {
    match kind {
        EventKind::Chat => "chat"@,
        EventKind::Join => "join"@,
        EventKind::Leave => "leave"@,
        EventKind::Death => "death"@,
        EventKind::Kill => "kill"@,
        EventKind::Advancement => "advancement"@,
    }
}

/// The kind that a name or its first letter means.
pub open spec fn event_of(s: Seq<char>) -> EventKind {
    if s == "join"@ || s == "j"@ {
        EventKind::Join
    } else if s == "leave"@ || s == "l"@ {
        EventKind::Leave
    } else if s == "death"@ || s == "d"@ {
        EventKind::Death
    } else if s == "kill"@ {
        EventKind::Kill
    } else if s == "advancement"@ || s == "a"@ {
        EventKind::Advancement
    } else {
        EventKind::Chat
    }
}

/// The values under which a kind is stored: the letter, and the name that older
/// rows have. Kills are no rows of their own.
pub open spec fn stored_codes(kind: EventKind) -> Seq<Seq<char>> {
    match kind {
        EventKind::Chat => seq!["c"@, "chat"@],
        EventKind::Join => seq!["j"@, "join"@],
        EventKind::Leave => seq!["l"@, "leave"@],
        EventKind::Death => seq!["d"@, "death"@],
        EventKind::Advancement => seq!["a"@, "advancement"@],
        EventKind::Kill => Seq::empty(),
    }
}

pub open spec fn str_texts(v: Seq<&'static str>) -> Seq<Seq<char>> {
    Seq::new(v.len(), |i: int| v[i]@)
}

/// The letter that a configured kind means: its first, but for goals, which are
/// advancements.
pub open spec fn filter_code(kind: Seq<char>) -> Option<Seq<char>> {
    let k = text::lowered(text::trimmed(kind));
    if k == "goal"@ || k == "goals"@ {
        Some("a"@)
    } else if k.len() == 0 {
        None
    } else {
        Some(seq![k[0]])
    }
}

fn code_for(kind: &str) -> (r: Option<String>)
    ensures
        text::opt_text(r) == filter_code(kind@),
{
    let k = text::lower(&text::trim(kind));
    if text::same(&k, "goal") || text::same(&k, "goals") {
        return Some(text::copy("a"));
    }
    let v = text::chars_of(&k);
    if v.len() == 0 {
        None
    } else {
        let mut s = String::new();
        s.push(v[0]);
        assert(s@ =~= seq![k@[0]]);
        Some(s)
    }
}

/// The letters that the configured kinds mean.
pub open spec fn filter_set(kinds: Seq<Seq<char>>) -> Set<Seq<char>>
    decreases kinds.len(),
{
    if kinds.len() == 0 {
        Set::empty()
    } else {
        match filter_code(kinds.last()) {
            Some(code) => filter_set(kinds.drop_last()).insert(code),
            None => filter_set(kinds.drop_last()),
        }
    }
}

/// Whether a line of a kind is among the configured ones.
pub open spec fn configured(kinds: Seq<Seq<char>>, event_kind: Seq<char>) -> bool {
    first_letter(event_kind) matches Some(c) && filter_set(kinds).contains(seq![c])
}

impl EventKind {
    pub fn as_str(self) -> (s: &'static str)
        ensures
            s@ == event_name(self),
    {
        match self {
            EventKind::Chat => "chat",
            EventKind::Join => "join",
            EventKind::Leave => "leave",
            EventKind::Death => "death",
            EventKind::Kill => "kill",
            EventKind::Advancement => "advancement",
        }
    }

    /// The values under which the kind is stored.
    pub fn db_codes(self) -> (r: Vec<&'static str>)
        ensures
            str_texts(r@) == stored_codes(self),
    {
        let r: Vec<&'static str> = match self {
            EventKind::Chat => vec!["c", "chat"],
            EventKind::Join => vec!["j", "join"],
            EventKind::Leave => vec!["l", "leave"],
            EventKind::Death => vec!["d", "death"],
            EventKind::Advancement => vec!["a", "advancement"],
            EventKind::Kill => Vec::new(),
        };
        assert(str_texts(r@) =~= stored_codes(self));
        r
    }

    /// The letters that configured kinds mean, sorted and each once.
    pub fn filter_codes(kinds: &Vec<String>) -> (codes: Vec<String>)
        ensures
            text::strictly_sorted(text::texts(codes@)),
            text::texts(codes@).to_set() == filter_set(text::texts(kinds@)),
    {
        let ghost all = text::texts(kinds@);
        let mut codes: Vec<String> = Vec::new();
        assert(text::texts(codes@).to_set() =~= filter_set(all.take(0)));
        for i in 0..kinds.len()
            invariant
                all == text::texts(kinds@),
                text::strictly_sorted(text::texts(codes@)),
                text::texts(codes@).to_set() == filter_set(all.take(i as int)),
        {
            assert(all.take(i + 1).drop_last() =~= all.take(i as int));
            if let Some(code) = code_for(&kinds[i]) {
                text::insert_sorted(&mut codes, code);
            }
        }
        assert(all.take(all.len() as int) =~= all);
        codes
    }

    /// Whether lines of a kind are wanted.
    pub fn matches_name(kinds: &Vec<String>, event_kind: &str) -> (b: bool)
        ensures
            b == configured(text::texts(kinds@), event_kind@),
    {
        let codes = EventKind::filter_codes(kinds);
        match letter_of(event_kind) {
            Some(c) => {
                let mut got = String::new();
                got.push(c);
                assert(got@ =~= seq![c]);
                assert(text::texts(codes@).to_set().contains(got@) == text::texts(codes@).contains(
                    got@,
                ));
                text::listed(&codes, &got)
            },
            None => false,
        }
    }

    pub fn parse(s: &str) -> (k: Self)
        ensures
            k == event_of(s@),
    {
        if text::same(s, "join") || text::same(s, "j") {
            EventKind::Join
        } else if text::same(s, "leave") || text::same(s, "l") {
            EventKind::Leave
        } else if text::same(s, "death") || text::same(s, "d") {
            EventKind::Death
        } else if text::same(s, "kill") {
            EventKind::Kill
        } else if text::same(s, "advancement") || text::same(s, "a") {
            EventKind::Advancement
        } else {
            EventKind::Chat
        }
    }
}

// ---------------------------------------------------------------------------
// The names of kinds
// ---------------------------------------------------------------------------

/// A kind is known by its first letter, in either case.
pub proof fn lemma_kinds_are_known_by_their_letter(kind: Seq<char>)
    ensures
        first_letter(kind) == Some('c') ==> canonical(kind) == Some(RouteKind::Chat),
        first_letter(kind) == Some('w') ==> canonical(kind) == Some(RouteKind::Whisper),
        first_letter(kind) == Some('j') ==> canonical(kind) == Some(RouteKind::Join),
        first_letter(kind) == Some('l') ==> canonical(kind) == Some(RouteKind::Leave),
        first_letter(kind) == Some('d') ==> canonical(kind) == Some(RouteKind::Death),
        first_letter(kind) == Some('a') ==> canonical(kind) == Some(RouteKind::Advancement),
        first_letter(kind) == Some('s') ==> canonical(kind) == Some(RouteKind::Server),
        first_letter(kind) == Some('u') || first_letter(kind) is None ==> canonical(kind) is None,
{
}

proof fn lemma_letter(s: Seq<char>)
    requires
        s.len() > 0,
        'a' <= s[0] <= 'z',
        !text::is_white(s.last()),
    ensures
        first_letter(s) == Some(s[0]),
{
    assert(!text::white_pred()(s[0]));
    assert(!text::white_pred()(s.last()));
    assert(text::drop_front(s, text::white_pred()) == s);
    assert(text::drop_back(s, text::white_pred()) == s);
}

/// The name of a kind is read as that kind.
pub proof fn lemma_kind_names_read_back(kind: RouteKind)
    ensures
        canonical(route_name(kind)) == Some(kind),
{
    reveal_strlit("chat");
    reveal_strlit("join");
    reveal_strlit("leave");
    reveal_strlit("death");
    reveal_strlit("advancement");
    reveal_strlit("server");
    reveal_strlit("whisper");
    lemma_letter(route_name(kind));
}

/// Joins and leaves have the letters that they are stored under, and nothing else is
/// one.
pub proof fn lemma_presence_letters(t: Seq<char>)
    ensures
        first_letter(t) == Some('j') ==> presence_line(t) == Some("join"@),
        first_letter(t) == Some('l') ==> presence_line(t) == Some("leave"@),
        first_letter(t) != Some('j') && first_letter(t) != Some('l') ==> presence_line(t) is None,
{
}

/// The name of an event, and each code that it is stored under, is read as that event.
pub proof fn lemma_event_names_read_back(kind: EventKind, i: int)
    ensures
        event_of(event_name(kind)) == kind,
        0 <= i < stored_codes(kind).len() ==> event_of(stored_codes(kind)[i]) == kind,
        stored_codes(kind).len() == (if kind == EventKind::Kill {
            0nat
        } else {
            2
        }),
{
    reveal_strlit("chat");
    reveal_strlit("join");
    reveal_strlit("leave");
    reveal_strlit("death");
    reveal_strlit("kill");
    reveal_strlit("advancement");
    reveal_strlit("c");
    reveal_strlit("j");
    reveal_strlit("l");
    reveal_strlit("d");
    reveal_strlit("a");
    assert("chat"@[0] == 'c' && "join"@[0] == 'j' && "leave"@[0] == 'l' && "death"@[0] == 'd'
        && "kill"@[0] == 'k' && "advancement"@[0] == 'a');
    assert("c"@[0] == 'c' && "j"@[0] == 'j' && "l"@[0] == 'l' && "d"@[0] == 'd' && "a"@[0] == 'a');
}

/// Each kind has a label of its own.
pub proof fn lemma_kinds_have_labels()
    ensures
        route_label("chat"@) == "Chat"@,
        route_label("join"@) == "Joins"@,
        route_label("leave"@) == "Leaves"@,
        route_label("death"@) == "Deaths"@,
        route_label("advancement"@) == "Advancements"@,
        route_label("server"@) == "Server"@,
        route_label("whisper"@) == "Whispers"@,
{
    reveal_strlit("chat");
    reveal_strlit("join");
    reveal_strlit("leave");
    reveal_strlit("death");
    reveal_strlit("advancement");
    reveal_strlit("server");
    reveal_strlit("whisper");
    assert("chat"@[0] == 'c' && "join"@[0] == 'j' && "leave"@[0] == 'l' && "death"@[0] == 'd'
        && "advancement"@[0] == 'a' && "server"@[0] == 's' && "whisper"@[0] == 'w');
}

/// A player is quiet who has not done anything that is counted, and no other is.
pub proof fn lemma_quiet_players(s: PlayerStats)
    ensures
        quiet(s) ==> s.messages == 0 && s.deaths == 0 && s.joins == 0 && s.leaves == 0 && s.kills == 0
            && s.advancements == 0 && s.session_count == 0,
        s.playtime_ms >= 1000 ==> !quiet(s),
        quiet(
            PlayerStats {
                messages: 0,
                deaths: 0,
                joins: 0,
                leaves: 0,
                kills: 0,
                advancements: 0,
                session_count: 0,
                playtime_ms: 999,
                ..s
            },
        ),
{
}

/// A filter lets a kind through where one of its words begins with the letter of the
/// kind; the word for goals stands for advancements.
pub proof fn lemma_filters_go_by_letter(kinds: Seq<Seq<char>>, word: Seq<char>, event_kind: Seq<char>)
    ensures
        !configured(Seq::empty(), event_kind),
        configured(kinds, event_kind) ==> configured(kinds.push(word), event_kind),
        first_letter(event_kind) is Some && filter_code(word) == Some(
            seq![first_letter(event_kind)->0],
        ) ==> configured(kinds.push(word), event_kind),
        configured(kinds.push(word), event_kind) ==> configured(kinds, event_kind) || filter_code(word)
            == Some(seq![first_letter(event_kind)->0]),
        text::lowered(text::trimmed(word)) == "goals"@ ==> filter_code(word) == Some("a"@),
{
    assert(kinds.push(word).drop_last() =~= kinds);
}

/// A row is read field by field.
pub proof fn lemma_rows_are_read_by_field(row: ChatRow, route: EventRoute)
    ensures
        ({
            let t = row@;
            &&& t.id == row.id && t.received_at == row.received_at && t.kind == row.kind@
            &&& t.plain_text == row.plain_text@
            &&& t.sender_name is Some == row.sender_name is Some
            &&& row.sender_name is Some ==> t.sender_name == Some(row.sender_name->0@)
            &&& t.sender_label is Some == row.sender_label is Some
            &&& row.sender_label is Some ==> t.sender_label == Some(row.sender_label->0@)
            &&& t.subject_name is Some == row.subject_name is Some
            &&& row.subject_name is Some ==> t.subject_name == Some(row.subject_name->0@)
            &&& t.killer_name is Some == row.killer_name is Some
            &&& row.killer_name is Some ==> t.killer_name == Some(row.killer_name->0@)
            &&& t.server_host is Some == row.server_host is Some
            &&& row.server_host is Some ==> t.server_host == Some(row.server_host->0@)
        }),
        route@.kind == route.kind@,
        route@.enabled == route.enabled,
        route@.channel_id is Some == route.channel_id is Some,
        route.channel_id is Some ==> route@.channel_id == Some(route.channel_id->0@),
{
}

} // verus!
