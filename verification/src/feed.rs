//! How the feed of a server is started, kept up to date and kept alive.
use vstd::prelude::*;
use vstd::string::*;

use crate::bridge;
use crate::bridge::{ChannelRows, ChannelText, Recent};
use crate::config;
use crate::config::{BridgeStyle, Config, ServerConfig};
use crate::embeds;
use crate::embeds::{Embed, EmbedText};
use crate::formatting;
use crate::formatting::{Limits, Palette};
use crate::models;
use crate::models::{BridgeSettings, ChatRow, ChatRowText, EventRoute};
use crate::stream;
use crate::stream::StreamEvent;
use crate::table::Table;
use crate::text;

verus! {

// ---------------------------------------------------------------------------
// Notices about the live link
// ---------------------------------------------------------------------------

/// How the live feed stands.
#[derive(Debug, Clone, Copy, PartialEq, Eq, Structural)]
pub enum FeedLink {
    /// Subscribed to the gateway.
    Streaming,
    /// The gateway cannot be reached.
    GatewayDown,
    /// The gateway is back.
    Recovered,
    /// There is no gateway: new rows are read from the database.
    Polling,
    /// The bot itself dropped off Discord and came back.
    BotReconnected,
}

pub open spec fn link_colour(link: FeedLink) -> u32 {
    match link {
        FeedLink::GatewayDown => Palette::LEAVE,
        FeedLink::Polling => Palette::NEUTRAL,
        _ => Palette::JOIN,
    }
}

pub open spec fn link_title(link: FeedLink) -> Seq<char> {
    match link {
        FeedLink::Streaming => "Live feed connected"@,
        FeedLink::Recovered => "Live feed reconnected"@,
        FeedLink::GatewayDown => "Live feed disconnected"@,
        FeedLink::Polling => "Live feed polling the database"@,
        FeedLink::BotReconnected => "Bot reconnected"@,
    }
}

/// The notice about the live link.
pub open spec fn link_embed(label: Seq<char>, link: FeedLink, detail: Seq<char>, now_us: i64) -> EmbedText {
    EmbedText {
        title: Some(link_title(link)),
        description: Some(formatting::clamped(detail, Limits::DESCRIPTION as int)),
        footer: Some((label + " · event gateway"@, None)),
        timestamp: Some(now_us),
        ..embeds::blank(link_colour(link))
    }
}

pub fn build_feed_link_embed(server_label: &str, link: FeedLink, detail: &str, now_us: i64) -> (e: Embed)
    ensures
        e@ == link_embed(server_label@, link, detail@, now_us),
{
    let (colour, title): (u32, &str) = match link {
        FeedLink::Streaming => (Palette::JOIN, "Live feed connected"),
        FeedLink::Recovered => (Palette::JOIN, "Live feed reconnected"),
        FeedLink::GatewayDown => (Palette::LEAVE, "Live feed disconnected"),
        FeedLink::Polling => (Palette::NEUTRAL, "Live feed polling the database"),
        FeedLink::BotReconnected => (Palette::JOIN, "Bot reconnected"),
    };
    Embed::new(colour).titled(text::copy(title)).described(
        formatting::clamp(detail, Limits::DESCRIPTION),
    ).with_footer(text::cat2(server_label, " · event gateway")).at(now_us)
}

/// How often the link is looked at, in milliseconds.
pub const LINK_CHECK_MS: u64 = 5_000;

/// How often it is looked at before the first notice.
pub const LINK_GRACE_CHECK_MS: u64 = 500;

/// How long the link may take to come up before the first notice.
pub const LINK_GRACE_MS: u64 = 15_000;

/// How many looks in a row have to miss the link before its loss is announced.
pub const LINK_LOSS_AFTER: u32 = 3;

/// How far the watch over a link has come.
#[derive(Debug, Clone, Copy, PartialEq, Eq, Structural)]
pub enum LinkWatch {
    /// Nothing has been said yet.
    Starting,
    /// `up` is what was said last; `misses` looks in a row have missed the link.
    Watching { up: bool, misses: u32 },
    Stopped,
}

/// What is said about the link.
#[derive(Debug, Clone, Copy, PartialEq, Eq, Structural)]
pub enum LinkNotice {
    Connected,
    Unreachable,
    Back,
    Lost,
}

/// What follows a look at the link.
#[derive(Debug, Clone, Copy, PartialEq, Eq, Structural)]
pub struct LinkStep {
    pub watch: LinkWatch,
    pub notice: Option<LinkNotice>,
    /// When to look again, in milliseconds.
    pub wait_ms: u64,
}

pub open spec fn watch_valid(w: LinkWatch) -> bool {
    match w {
        LinkWatch::Watching { up, misses } => misses < LINK_LOSS_AFTER && (!up ==> misses == 0),
        _ => true,
    }
}

/// A look at the link, so long after the watch began.
pub open spec fn looked(w: LinkWatch, link: bool, elapsed_ms: int, stopped: bool) -> LinkStep {
    match w {
        LinkWatch::Stopped => LinkStep { watch: w, notice: None, wait_ms: LINK_CHECK_MS },
        LinkWatch::Starting => if elapsed_ms < LINK_GRACE_MS && !link {
            LinkStep {
                watch: if stopped {
                    LinkWatch::Stopped
                } else {
                    w
                },
                notice: None,
                wait_ms: LINK_GRACE_CHECK_MS,
            }
        } else {
            LinkStep {
                watch: LinkWatch::Watching { up: link, misses: 0 },
                notice: Some(
                    if link {
                        LinkNotice::Connected
                    } else {
                        LinkNotice::Unreachable
                    },
                ),
                wait_ms: LINK_CHECK_MS,
            }
        },
        LinkWatch::Watching { up, misses } => if stopped {
            LinkStep { watch: LinkWatch::Stopped, notice: None, wait_ms: LINK_CHECK_MS }
        } else if link {
            LinkStep {
                watch: LinkWatch::Watching { up: true, misses: 0 },
                notice: if up {
                    None
                } else {
                    Some(LinkNotice::Back)
                },
                wait_ms: LINK_CHECK_MS,
            }
        } else if up && misses + 1 >= LINK_LOSS_AFTER {
            LinkStep {
                watch: LinkWatch::Watching { up: false, misses: 0 },
                notice: Some(LinkNotice::Lost),
                wait_ms: LINK_CHECK_MS,
            }
        } else {
            LinkStep {
                watch: LinkWatch::Watching {
                    up,
                    misses: if up {
                        (misses + 1) as u32
                    } else {
                        misses
                    },
                },
                notice: None,
                wait_ms: LINK_CHECK_MS,
            }
        },
    }
}

/// Looks at the link: says what is announced and when to look again.
pub fn watch_feed_link(w: LinkWatch, link: bool, elapsed_ms: u64, stopped: bool) -> (s: LinkStep)
    requires
        watch_valid(w),
    ensures
        s == looked(w, link, elapsed_ms as int, stopped),
        watch_valid(s.watch),
{
    match w {
        LinkWatch::Stopped => LinkStep { watch: w, notice: None, wait_ms: LINK_CHECK_MS },
        LinkWatch::Starting => if elapsed_ms < LINK_GRACE_MS && !link {
            LinkStep {
                watch: if stopped {
                    LinkWatch::Stopped
                } else {
                    w
                },
                notice: None,
                wait_ms: LINK_GRACE_CHECK_MS,
            }
        } else {
            let notice = if link {
                LinkNotice::Connected
            } else {
                LinkNotice::Unreachable
            };
            LinkStep {
                watch: LinkWatch::Watching { up: link, misses: 0 },
                notice: Some(notice),
                wait_ms: LINK_CHECK_MS,
            }
        },
        LinkWatch::Watching { up, misses } => {
            if stopped {
                return LinkStep { watch: LinkWatch::Stopped, notice: None, wait_ms: LINK_CHECK_MS };
            }
            let (now_up, now_misses, notice): (bool, u32, Option<LinkNotice>) = if link {
                (
                    true,
                    0,
                    if up {
                        None
                    } else {
                        Some(LinkNotice::Back)
                    },
                )
            } else if !up {
                (false, misses, None)
            } else if misses + 1 >= LINK_LOSS_AFTER {
                (false, 0, Some(LinkNotice::Lost))
            } else {
                (true, misses + 1, None)
            };
            LinkStep {
                watch: LinkWatch::Watching { up: now_up, misses: now_misses },
                notice,
                wait_ms: LINK_CHECK_MS,
            }
        },
    }
}

/// A link that is back before its third missed look is never mentioned.
pub proof fn lemma_short_outages_are_quiet(t: int)
    ensures
        ({
            let quiet = LinkWatch::Watching { up: true, misses: 0 };
            let once = looked(quiet, false, t, false);
            let twice = looked(once.watch, false, t, false);
            let back = looked(twice.watch, true, t, false);
            &&& once.notice is None
            &&& twice.notice is None
            &&& back.notice is None
            &&& back.watch == quiet
        }),
{
}

/// What was said last is what is kept: a loss is announced only of a link that was
/// up, and a return only of one that was down.
pub proof fn lemma_notices_take_turns(w: LinkWatch, link: bool, t: int, stopped: bool)
    requires
        watch_valid(w),
    ensures
        ({
            let s = looked(w, link, t, stopped);
            &&& watch_valid(s.watch)
            &&& s.notice == Some(LinkNotice::Lost) ==> w is Watching && w->up && s.watch is Watching
                && !s.watch->up
            &&& s.notice == Some(LinkNotice::Back) ==> w is Watching && !w->up && s.watch is Watching
                && s.watch->up
            &&& s.notice == Some(LinkNotice::Connected) || s.notice == Some(
                LinkNotice::Unreachable,
            ) ==> w is Starting
            &&& s.notice is None && s.watch is Watching ==> w is Watching && w->up == s.watch->up
        }),
{
}

pub open spec fn notice_link(n: LinkNotice) -> FeedLink {
    match n {
        LinkNotice::Connected => FeedLink::Streaming,
        LinkNotice::Back => FeedLink::Recovered,
        _ => FeedLink::GatewayDown,
    }
}

/// What the channel reads. Everyone on the server can read it, so it never names
/// the address of the gateway.
pub open spec fn notice_detail(n: LinkNotice, label: Seq<char>) -> Seq<char> {
    match n {
        LinkNotice::Connected => "Connected to the event gateway for **"@ + label + "**."@,
        LinkNotice::Unreachable => "Cannot reach the event gateway for **"@ + label
            + "** — retrying every 2s. Nothing will appear here until the link is back.\nAn admin can check it with `mc-tail --status`, or `systemctl status terminal-client`."@,
        LinkNotice::Back => "Back on the gateway for **"@ + label
            + "**. Buffered events were replayed."@,
        LinkNotice::Lost => "Lost the connection to the event gateway for **"@ + label
            + "**. Reconnecting every 2s; the feed resumes where it left off."@,
    }
}

pub fn link_detail(n: LinkNotice, label: &str) -> (r: (FeedLink, String))
    ensures
        r.0 == notice_link(n),
        r.1@ == notice_detail(n, label@),
{
    match n {
        LinkNotice::Connected => (
            FeedLink::Streaming,
            text::cat3("Connected to the event gateway for **", label, "**."),
        ),
        LinkNotice::Unreachable => (
            FeedLink::GatewayDown,
            text::cat3(
                "Cannot reach the event gateway for **",
                label,
                "** — retrying every 2s. Nothing will appear here until the link is back.\nAn admin can check it with `mc-tail --status`, or `systemctl status terminal-client`.",
            ),
        ),
        LinkNotice::Back => (
            FeedLink::Recovered,
            text::cat3(
                "Back on the gateway for **",
                label,
                "**. Buffered events were replayed.",
            ),
        ),
        LinkNotice::Lost => (
            FeedLink::GatewayDown,
            text::cat3(
                "Lost the connection to the event gateway for **",
                label,
                "**. Reconnecting every 2s; the feed resumes where it left off.",
            ),
        ),
    }
}

/// What is said where there is no gateway. `poll` is how often the database is
/// read, in seconds.
pub fn polling_detail(poll: &str) -> (r: String)
    ensures
        r@
            == "No event gateway configured for this server, so the feed reads new rows from the database every "@
            + poll@ + "s. Set `EVENT_STREAM_ADDR` to stream instead."@,
{
    text::cat3(
        "No event gateway configured for this server, so the feed reads new rows from the database every ",
        poll,
        "s. Set `EVENT_STREAM_ADDR` to stream instead.",
    )
}

// ---------------------------------------------------------------------------
// Cursors
// ---------------------------------------------------------------------------

/// How far something has been read: the last row, and when it came in.
#[derive(Debug, Clone, Copy, PartialEq, Eq, Structural)]
pub struct Cursor {
    pub id: i64,
    pub at: Option<i64>,
}

/// How far a server has been read.
#[derive(Debug, Clone, Copy, PartialEq, Eq, Structural)]
pub struct Cursors {
    pub chat: Cursor,
    pub event: Cursor,
    pub presence: Cursor,
}

pub open spec fn no_cursor() -> Cursor {
    Cursor { id: 0, at: None }
}

/// What a feed asks of the database before it runs.
pub enum StartAsk {
    EnsureState,
    ChatCursor,
    LatestChat,
    StoreChat(Cursor),
    EventCursor,
    LatestEvent,
    StoreEvent(Cursor),
    PresenceCursor,
    LatestPresence,
    StorePresence(Cursor),
    Settings,
    StoreChannel(String),
    Run,
}

/// A [`StartAsk`] by what it says.
pub enum StartAskText {
    EnsureState,
    ChatCursor,
    LatestChat,
    StoreChat(Cursor),
    EventCursor,
    LatestEvent,
    StoreEvent(Cursor),
    PresenceCursor,
    LatestPresence,
    StorePresence(Cursor),
    Settings,
    StoreChannel(Seq<char>),
    Run,
}

impl View for StartAsk {
    type V = StartAskText;

    open spec fn view(&self) -> StartAskText {
        match self {
            StartAsk::EnsureState => StartAskText::EnsureState,
            StartAsk::ChatCursor => StartAskText::ChatCursor,
            StartAsk::LatestChat => StartAskText::LatestChat,
            StartAsk::StoreChat(c) => StartAskText::StoreChat(*c),
            StartAsk::EventCursor => StartAskText::EventCursor,
            StartAsk::LatestEvent => StartAskText::LatestEvent,
            StartAsk::StoreEvent(c) => StartAskText::StoreEvent(*c),
            StartAsk::PresenceCursor => StartAskText::PresenceCursor,
            StartAsk::LatestPresence => StartAskText::LatestPresence,
            StartAsk::StorePresence(c) => StartAskText::StorePresence(*c),
            StartAsk::Settings => StartAskText::Settings,
            StartAsk::StoreChannel(s) => StartAskText::StoreChannel(s@),
            StartAsk::Run => StartAskText::Run,
        }
    }
}

/// What the database answers.
#[derive(Debug, Clone, Copy, PartialEq, Eq, Structural)]
pub enum StartReply {
    Done,
    Read(Cursor),
    Settings { has_channel: bool, enabled: bool },
}

/// What the configuration says about starting a feed. `seed` is the channel of the
/// first server where none is set.
pub struct StartPlan {
    pub from_latest: bool,
    pub seed: Option<String>,
}

/// What is asked next, and how far the server has been read. An answer to another
/// question leaves the question open.
pub open spec fn start_next(
    c: Cursors,
    ask: StartAskText,
    reply: StartReply,
    from_latest: bool,
    seed: Option<Seq<char>>,
) -> (Cursors, StartAskText) {
    match (ask, reply) {
        (StartAskText::EnsureState, StartReply::Done) => (c, StartAskText::ChatCursor),
        (StartAskText::ChatCursor, StartReply::Read(stored)) => if stored.id > 0 {
            (Cursors { chat: stored, ..c }, StartAskText::EventCursor)
        } else if from_latest {
            (c, StartAskText::LatestChat)
        } else {
            (Cursors { chat: no_cursor(), ..c }, StartAskText::StoreChat(no_cursor()))
        },
        (StartAskText::LatestChat, StartReply::Read(latest)) => (
            Cursors { chat: latest, ..c },
            StartAskText::StoreChat(latest),
        ),
        (StartAskText::StoreChat(_), StartReply::Done) => (c, StartAskText::EventCursor),
        (StartAskText::EventCursor, StartReply::Read(stored)) => if stored.id > 0 {
            (Cursors { event: stored, ..c }, StartAskText::StoreEvent(stored))
        } else {
            (c, StartAskText::LatestEvent)
        },
        (StartAskText::LatestEvent, StartReply::Read(latest)) => (
            Cursors { event: latest, ..c },
            StartAskText::StoreEvent(latest),
        ),
        (StartAskText::StoreEvent(_), StartReply::Done) => (c, StartAskText::PresenceCursor),
        (StartAskText::PresenceCursor, StartReply::Read(stored)) => if stored.id > 0 {
            (Cursors { presence: stored, ..c }, StartAskText::StorePresence(stored))
        } else {
            (c, StartAskText::LatestPresence)
        },
        (StartAskText::LatestPresence, StartReply::Read(latest)) => (
            Cursors { presence: latest, ..c },
            StartAskText::StorePresence(latest),
        ),
        (StartAskText::StorePresence(_), StartReply::Done) => (c, StartAskText::Settings),
        (StartAskText::Settings, StartReply::Settings { has_channel, enabled }) => match seed {
            Some(channel) if !has_channel && enabled => (c, StartAskText::StoreChannel(channel)),
            _ => (c, StartAskText::Run),
        },
        (StartAskText::StoreChannel(_), StartReply::Done) => (c, StartAskText::Run),
        (_, _) => (c, ask),
    }
}

/// Takes an answer, and says what is asked next.
pub fn start(c: &mut Cursors, ask: StartAsk, reply: StartReply, plan: &StartPlan) -> (next: StartAsk)
    ensures
        (*final(c), next@) == start_next(
            *old(c),
            ask@,
            reply,
            plan.from_latest,
            text::opt_text(plan.seed),
        ),
{
    match (ask, reply) {
        (StartAsk::EnsureState, StartReply::Done) => StartAsk::ChatCursor,
        (StartAsk::ChatCursor, StartReply::Read(stored)) => if stored.id > 0 {
            c.chat = stored;
            StartAsk::EventCursor
        } else if plan.from_latest {
            StartAsk::LatestChat
        } else {
            let zero = Cursor { id: 0, at: None };
            c.chat = zero;
            StartAsk::StoreChat(zero)
        },
        (StartAsk::LatestChat, StartReply::Read(latest)) => {
            c.chat = latest;
            StartAsk::StoreChat(latest)
        },
        (StartAsk::StoreChat(_), StartReply::Done) => StartAsk::EventCursor,
        (StartAsk::EventCursor, StartReply::Read(stored)) => if stored.id > 0 {
            c.event = stored;
            StartAsk::StoreEvent(stored)
        } else {
            StartAsk::LatestEvent
        },
        (StartAsk::LatestEvent, StartReply::Read(latest)) => {
            c.event = latest;
            StartAsk::StoreEvent(latest)
        },
        (StartAsk::StoreEvent(_), StartReply::Done) => StartAsk::PresenceCursor,
        (StartAsk::PresenceCursor, StartReply::Read(stored)) => if stored.id > 0 {
            c.presence = stored;
            StartAsk::StorePresence(stored)
        } else {
            StartAsk::LatestPresence
        },
        (StartAsk::LatestPresence, StartReply::Read(latest)) => {
            c.presence = latest;
            StartAsk::StorePresence(latest)
        },
        (StartAsk::StorePresence(_), StartReply::Done) => StartAsk::Settings,
        (StartAsk::Settings, StartReply::Settings { has_channel, enabled }) => {
            match &plan.seed {
                Some(channel) => if !has_channel && enabled {
                    StartAsk::StoreChannel(channel.clone())
                } else {
                    StartAsk::Run
                },
                None => StartAsk::Run,
            }
        },
        (StartAsk::StoreChannel(_), StartReply::Done) => StartAsk::Run,
        (other, _) => other,
    }
}

/// What the database holds when a feed starts.
pub struct Stored {
    pub stored: Cursors,
    pub latest: Cursors,
    pub has_channel: bool,
    pub enabled: bool,
}

/// The answer of a database to a question.
pub open spec fn answer(db: Stored, ask: StartAskText) -> StartReply {
    match ask {
        StartAskText::ChatCursor => StartReply::Read(db.stored.chat),
        StartAskText::LatestChat => StartReply::Read(db.latest.chat),
        StartAskText::EventCursor => StartReply::Read(db.stored.event),
        StartAskText::LatestEvent => StartReply::Read(db.latest.event),
        StartAskText::PresenceCursor => StartReply::Read(db.stored.presence),
        StartAskText::LatestPresence => StartReply::Read(db.latest.presence),
        StartAskText::Settings => StartReply::Settings {
            has_channel: db.has_channel,
            enabled: db.enabled,
        },
        _ => StartReply::Done,
    }
}

/// Where a feed stands after so many answers.
pub open spec fn start_run(
    c: Cursors,
    ask: StartAskText,
    db: Stored,
    from_latest: bool,
    seed: Option<Seq<char>>,
    steps: nat,
) -> (Cursors, StartAskText)
    decreases steps,
{
    if steps == 0 {
        (c, ask)
    } else {
        let (after, next) = start_next(c, ask, answer(db, ask), from_latest, seed);
        start_run(after, next, db, from_latest, seed, (steps - 1) as nat)
    }
}

pub open spec fn stored_or(stored: Cursor, other: Cursor) -> Cursor {
    if stored.id > 0 {
        stored
    } else {
        other
    }
}

/// A feed comes up after twelve answers at the most. It goes on where it had
/// stored; one that never ran starts from the newest rows, or with its chat at the
/// first line where the configuration wants that.
pub proof fn lemma_feeds_go_on(c: Cursors, db: Stored, from_latest: bool, seed: Option<Seq<char>>)
    ensures
        start_run(c, StartAskText::EnsureState, db, from_latest, seed, 12) == (
            Cursors {
                chat: stored_or(
                    db.stored.chat,
                    if from_latest {
                        db.latest.chat
                    } else {
                        no_cursor()
                    },
                ),
                event: stored_or(db.stored.event, db.latest.event),
                presence: stored_or(db.stored.presence, db.latest.presence),
            },
            StartAskText::Run,
        ),
{
    reveal_with_fuel(start_run, 13);
}

/// What a server runs once its feed has started.
#[derive(Debug, Clone, Copy, PartialEq, Eq, Structural)]
pub enum FeedPlan {
    /// Events come from the gateway; `watch` says whether notices about the link
    /// are posted.
    Stream { watch: bool },
    /// Rows are read from the database; `notice` says whether that is posted.
    Poll { notice: bool },
}

pub open spec fn feed_plan(streams: bool, notices: bool) -> FeedPlan {
    if streams {
        FeedPlan::Stream { watch: notices }
    } else {
        FeedPlan::Poll { notice: notices }
    }
}

pub open spec fn larger(a: int, b: int) -> int {
    if a >= b {
        a
    } else {
        b
    }
}

/// How many events are posted together at the most.
pub fn batch_cap(config: &Config) -> (n: u64)
    ensures
        n == larger(
            larger(config@.embeds_per_message, config@.lines_per_message),
            1,
        ),
{
    let mut n: u64 = config.bridge.embeds_per_message;
    if n < config.bridge.lines_per_message {
        n = config.bridge.lines_per_message;
    }
    if n < 1 {
        n = 1;
    }
    n
}

/// How many events the gateway replays to a feed that connects.
pub const FEED_REPLAY: u32 = 200;

// ---------------------------------------------------------------------------
// Events of the gateway
// ---------------------------------------------------------------------------

/// Whether an event is new, and the newest number seen.
pub open spec fn accepted(last_seq: u64, event: StreamEvent) -> (u64, bool) {
    match stream::event_seq(event) {
        Some(seq) => if seq <= last_seq {
            (last_seq, false)
        } else {
            (seq, true)
        },
        None => (last_seq, true),
    }
}

pub fn accept_stream_event(last_seq: &mut u64, event: &StreamEvent) -> (new: bool)
    ensures
        (*final(last_seq), new) == accepted(*old(last_seq), *event),
{
    match event.seq() {
        Some(seq) => {
            if seq <= *last_seq {
                return false;
            }
            *last_seq = seq;
            true
        },
        None => true,
    }
}

/// The newest number seen after some events.
pub open spec fn seen_after(last_seq: u64, events: Seq<StreamEvent>) -> u64
    decreases events.len(),
{
    if events.len() == 0 {
        last_seq
    } else {
        accepted(seen_after(last_seq, events.drop_last()), events.last()).0
    }
}

/// An event that was seen is not taken a second time, however often the gateway
/// replays it.
pub proof fn lemma_replays_are_dropped(last_seq: u64, events: Seq<StreamEvent>, i: int)
    requires
        0 <= i < events.len(),
        stream::event_seq(events[i]) is Some,
    ensures
        !accepted(seen_after(last_seq, events), events[i]).1,
        last_seq <= seen_after(last_seq, events),
    decreases events.len(),
{
    let rest = events.drop_last();
    if i < rest.len() {
        lemma_replays_are_dropped(last_seq, rest, i);
        assert(rest[i] == events[i]);
    } else {
        lemma_seen_grows(last_seq, rest);
    }
}

proof fn lemma_seen_grows(last_seq: u64, events: Seq<StreamEvent>)
    ensures
        last_seq <= seen_after(last_seq, events),
    decreases events.len(),
{
    if events.len() > 0 {
        lemma_seen_grows(last_seq, events.drop_last());
    }
}

pub open spec fn id_or_zero(o: Option<i64>) -> i64 {
    match o {
        Some(id) => id,
        None => 0,
    }
}

/// The line that an event is posted as. Events that are neither chat nor a join or
/// leave are not posted.
pub open spec fn stream_row(event: StreamEvent) -> Option<ChatRowText> {
    match event {
        StreamEvent::Chat(c) => Some(
            ChatRowText {
                id: id_or_zero(c.id),
                received_at: c.ts,
                kind: c.kind@,
                sender_name: text::opt_text(c.sender_name),
                sender_label: text::opt_text(c.sender_label),
                subject_name: text::opt_text(c.subject_name),
                killer_name: text::opt_text(c.killer_name),
                plain_text: c.plain_text@,
                server_host: text::opt_text(c.server_host),
            },
        ),
        StreamEvent::PlayerEvent(e) => match models::presence_line(e.event_type@) {
            Some(kind) => Some(
                ChatRowText {
                    id: 0,
                    received_at: e.ts,
                    kind,
                    sender_name: None,
                    sender_label: None,
                    subject_name: Some(e.player_name@),
                    killer_name: None,
                    plain_text: Seq::empty(),
                    server_host: text::opt_text(e.server_host),
                },
            ),
            None => None,
        },
    }
}

pub open spec fn stream_rows_text(events: Seq<StreamEvent>) -> Seq<ChatRowText>
    decreases events.len(),
{
    if events.len() == 0 {
        Seq::empty()
    } else {
        let before = stream_rows_text(events.drop_last());
        match stream_row(events.last()) {
            Some(row) => before.push(row),
            None => before,
        }
    }
}

/// The chat line with the highest number, and when it came in.
pub open spec fn newest_chat(events: Seq<StreamEvent>) -> Option<(i64, i64)>
    decreases events.len(),
{
    if events.len() == 0 {
        None
    } else {
        let before = newest_chat(events.drop_last());
        match events.last() {
            StreamEvent::Chat(c) => {
                let higher = match before {
                    Some((seen, _)) => id_or_zero(c.id) > seen,
                    None => id_or_zero(c.id) > 0,
                };
                if higher {
                    Some((id_or_zero(c.id), c.ts))
                } else {
                    before
                }
            },
            StreamEvent::PlayerEvent(_) => before,
        }
    }
}

fn row_of(event: &StreamEvent) -> (r: Option<ChatRow>)
    ensures
        match r {
            Some(row) => stream_row(*event) == Some(row@),
            None => stream_row(*event) is None,
        },
{
    match event {
        StreamEvent::Chat(c) => {
            let id: i64 = match c.id {
                Some(id) => id,
                None => 0,
            };
            Some(
                ChatRow {
                    id,
                    received_at: c.ts,
                    kind: c.kind.clone(),
                    sender_name: text::copy_opt(&c.sender_name),
                    sender_label: text::copy_opt(&c.sender_label),
                    subject_name: text::copy_opt(&c.subject_name),
                    killer_name: text::copy_opt(&c.killer_name),
                    plain_text: c.plain_text.clone(),
                    server_host: text::copy_opt(&c.server_host),
                },
            )
        },
        StreamEvent::PlayerEvent(e) => match models::presence_kind(&e.event_type) {
            Some(kind) => Some(
                ChatRow {
                    id: 0,
                    received_at: e.ts,
                    kind: text::copy(kind),
                    sender_name: None,
                    sender_label: None,
                    subject_name: Some(e.player_name.clone()),
                    killer_name: None,
                    plain_text: String::new(),
                    server_host: text::copy_opt(&e.server_host),
                },
            ),
            None => None,
        },
    }
}

/// The lines that events are posted as, and the newest chat line among them.
pub fn stream_rows(events: &Vec<StreamEvent>) -> (r: (Vec<ChatRow>, Option<(i64, i64)>))
    ensures
        models::row_texts(r.0@) == stream_rows_text(events@),
        r.1 == newest_chat(events@),
{
    let mut rows: Vec<ChatRow> = Vec::new();
    let mut newest: Option<(i64, i64)> = None;
    assert(models::row_texts(rows@) =~= stream_rows_text(events@.take(0)));
    for i in 0..events.len()
        invariant
            models::row_texts(rows@) == stream_rows_text(events@.take(i as int)),
            newest == newest_chat(events@.take(i as int)),
    {
        assert(events@.take(i + 1).drop_last() =~= events@.take(i as int));
        assert(events@.take(i + 1).last() == events[i as int]);
        if let StreamEvent::Chat(c) = &events[i] {
            let id: i64 = match c.id {
                Some(id) => id,
                None => 0,
            };
            let higher = match newest {
                Some((seen, _)) => id > seen,
                None => id > 0,
            };
            if higher {
                newest = Some((id, c.ts));
            }
        }
        if let Some(row) = row_of(&events[i]) {
            let ghost before = rows@;
            rows.push(row);
            assert(models::row_texts(rows@) =~= models::row_texts(before).push(row@));
        }
    }
    assert(events@.take(events.len() as int) =~= events@);
    (rows, newest)
}

// ---------------------------------------------------------------------------
// Rows of the database
// ---------------------------------------------------------------------------

/// Where a row goes among rows by time: behind all that came no later.
pub open spec fn place_by_time(rows: Seq<ChatRowText>, at: i64) -> int
    decreases rows.len(),
{
    if rows.len() == 0 || rows.last().received_at <= at {
        rows.len() as int
    } else {
        place_by_time(rows.drop_last(), at)
    }
}

/// Rows by time, those of one time in the order they had.
pub open spec fn by_time(rows: Seq<ChatRowText>) -> Seq<ChatRowText>
    decreases rows.len(),
{
    if rows.len() == 0 {
        Seq::empty()
    } else {
        let before = by_time(rows.drop_last());
        before.insert(place_by_time(before, rows.last().received_at), rows.last())
    }
}

fn place(rows: &Vec<ChatRow>, at: i64) -> (p: usize)
    ensures
        p == place_by_time(models::row_texts(rows@), at),
        p <= rows.len(),
{
    let ghost all = models::row_texts(rows@);
    let mut p: usize = rows.len();
    assert(all.take(p as int) =~= all);
    while p > 0 && rows[p - 1].received_at > at
        invariant
            p <= rows.len(),
            all == models::row_texts(rows@),
            place_by_time(all.take(p as int), at) == place_by_time(all, at),
        decreases p,
    {
        assert(all.take(p as int).drop_last() =~= all.take(p - 1));
        assert(all.take(p as int).last() == rows[p - 1]@);
        p = p - 1;
    }
    if p > 0 {
        assert(all.take(p as int).last() == rows[p - 1]@);
    }
    p
}

/// Puts the chat and the joins and leaves of a server together by time.
pub fn merge_rows(chat: &Vec<ChatRow>, presence: &Vec<ChatRow>) -> (r: Vec<ChatRow>)
    ensures
        models::row_texts(r@) == by_time(
            models::row_texts(chat@) + models::row_texts(presence@),
        ),
{
    let ghost first = models::row_texts(chat@);
    let ghost all = first + models::row_texts(presence@);
    let mut r: Vec<ChatRow> = Vec::new();
    assert(models::row_texts(r@) =~= by_time(all.take(0)));
    for i in 0..chat.len()
        invariant
            first == models::row_texts(chat@),
            all == first + models::row_texts(presence@),
            models::row_texts(r@) == by_time(all.take(i as int)),
    {
        proof {
            assert(all.take(i + 1).drop_last() =~= all.take(i as int));
            assert(all.take(i + 1).last() == chat[i as int]@);
        }
        insert_row(&mut r, &chat[i]);
    }
    for i in 0..presence.len()
        invariant
            first == models::row_texts(chat@),
            all == first + models::row_texts(presence@),
            models::row_texts(r@) == by_time(all.take(chat.len() + i)),
    {
        proof {
            assert(all.take(chat.len() + i + 1).drop_last() =~= all.take(chat.len() + i));
            assert(all.take(chat.len() + i + 1).last() == presence[i as int]@);
        }
        insert_row(&mut r, &presence[i]);
    }
    assert(all.take(chat.len() + presence.len()) =~= all);
    r
}

fn insert_row(r: &mut Vec<ChatRow>, row: &ChatRow)
    ensures
        models::row_texts(final(r)@) == models::row_texts(old(r)@).insert(
            place_by_time(models::row_texts(old(r)@), row@.received_at),
            row@,
        ),
{
    let ghost before = r@;
    let p: usize = place(r, row.received_at);
    r.insert(p, row.copy());
    assert(models::row_texts(r@) =~= models::row_texts(before).insert(p as int, row@));
}

pub open spec fn ordered(rows: Seq<ChatRowText>) -> bool {
    forall|i: int, j: int|
        0 <= i <= j < rows.len() ==> #[trigger] rows[i].received_at
            <= #[trigger] rows[j].received_at
}

proof fn lemma_place_fits(rows: Seq<ChatRowText>, at: i64)
    requires
        ordered(rows),
    ensures
        ({
            let p = place_by_time(rows, at);
            &&& 0 <= p <= rows.len()
            &&& forall|i: int| 0 <= i < p ==> #[trigger] rows[i].received_at <= at
            &&& forall|i: int| p <= i < rows.len() ==> #[trigger] rows[i].received_at > at
        }),
    decreases rows.len(),
{
    if rows.len() > 0 && rows.last().received_at > at {
        let rest = rows.drop_last();
        assert forall|i: int, j: int| 0 <= i <= j < rest.len() implies
            #[trigger] rest[i].received_at <= #[trigger] rest[j].received_at by {
            assert(rest[i] == rows[i]);
            assert(rest[j] == rows[j]);
        }
        lemma_place_fits(rest, at);
        let p = place_by_time(rest, at);
        assert forall|i: int| 0 <= i < p implies #[trigger] rows[i].received_at <= at by {
            assert(rest[i] == rows[i]);
        }
        assert forall|i: int| p <= i < rows.len() implies #[trigger] rows[i].received_at > at by {
            if i < rest.len() {
                assert(rest[i] == rows[i]);
            }
        }
    } else if rows.len() > 0 {
        let n = rows.len() - 1;
        assert forall|i: int| 0 <= i < rows.len() implies #[trigger] rows[i].received_at <= at by {
            assert(rows[i].received_at <= rows[n].received_at);
        }
    }
}

/// What is posted together is posted by time, and nothing is lost or added by
/// putting it in order.
pub proof fn lemma_merged_by_time(rows: Seq<ChatRowText>)
    ensures
        ordered(by_time(rows)),
        by_time(rows).to_multiset() == rows.to_multiset(),
    decreases rows.len(),
{
    broadcast use vstd::seq_lib::group_to_multiset_ensures;

    if rows.len() == 0 {
        assert(by_time(rows) =~= rows);
    } else {
        let rest = rows.drop_last();
        let row = rows.last();
        lemma_merged_by_time(rest);
        let before = by_time(rest);
        lemma_place_fits(before, row.received_at);
        let p = place_by_time(before, row.received_at);
        let after = by_time(rows);
        assert(after == before.insert(p, row));
        assert forall|i: int, j: int| 0 <= i <= j < after.len() implies
            #[trigger] after[i].received_at <= #[trigger] after[j].received_at by {
            let a = if i < p {
                before[i]
            } else if i == p {
                row
            } else {
                before[i - 1]
            };
            let b = if j < p {
                before[j]
            } else if j == p {
                row
            } else {
                before[j - 1]
            };
            assert(after[i] == a);
            assert(after[j] == b);
        }
        assert(after.remove(p) =~= before);
        assert(after[p] == row);
        assert(after.contains(row));
        assert(after.to_multiset().count(row) > 0);
        assert(after.to_multiset() =~= before.to_multiset().insert(row));
        assert(rows =~= rest.push(row));
    }
}

// ---------------------------------------------------------------------------
// The feed of a server
// ---------------------------------------------------------------------------

/// The most watched joins and leaves that are read at a time.
pub const WATCHBRIDGE_HITS_PER_TICK: i64 = 200;

/// The feed of a server.
pub struct Bridge {
    pub key: String,
    pub label: String,
    pub stream_addr: Option<String>,
    pub cursors: Cursors,
    pub last_post_at: Option<i64>,
    pub recent_watchbridge: Vec<(String, u64)>,
    pub recent_presence: Vec<(String, u64)>,
    /// Whether the link to the gateway is up, once there is one.
    pub link: Option<bool>,
    pub stopped: bool,
}

/// The contents of a [`Bridge`].
#[verifier::ext_equal]
pub struct BridgeText {
    pub key: Seq<char>,
    pub label: Seq<char>,
    pub stream_addr: Option<Seq<char>>,
    pub cursors: Cursors,
    pub last_post_at: Option<i64>,
    pub recent_watchbridge: Recent,
    pub recent_presence: Recent,
    pub link: Option<bool>,
    pub stopped: bool,
}

impl View for Bridge {
    type V = BridgeText;

    open spec fn view(&self) -> BridgeText {
        BridgeText {
            key: self.key@,
            label: self.label@,
            stream_addr: text::opt_text(self.stream_addr),
            cursors: self.cursors,
            last_post_at: self.last_post_at,
            recent_watchbridge: bridge::recent_text(self.recent_watchbridge@),
            recent_presence: bridge::recent_text(self.recent_presence@),
            link: self.link,
            stopped: self.stopped,
        }
    }
}

/// The feed of a server that has not started.
pub open spec fn fresh(server: config::ServerText) -> BridgeText {
    BridgeText {
        key: server.key,
        label: server.label,
        stream_addr: server.stream_addr,
        cursors: Cursors { chat: no_cursor(), event: no_cursor(), presence: no_cursor() },
        last_post_at: None,
        recent_watchbridge: Seq::empty(),
        recent_presence: Seq::empty(),
        link: None,
        stopped: false,
    }
}

/// The channel that a feed posts to: none while it is unset or paused.
pub open spec fn live_channel(settings: BridgeSettings) -> Option<Seq<char>> {
    if settings.enabled {
        text::opt_text(settings.channel_id)
    } else {
        None
    }
}

pub fn feed_channel(settings: &BridgeSettings) -> (r: Option<&str>)
    ensures
        text::opt_str(r) == live_channel(*settings),
{
    if !settings.enabled {
        return None;
    }
    match &settings.channel_id {
        Some(c) => Some(c.as_str()),
        None => None,
    }
}

/// What the channel reads when the bot is back on Discord.
pub open spec fn reconnect_text(link: Option<bool>, addr: Option<Seq<char>>, poll: Seq<char>) -> Seq<
    char,
> {
    match (link, addr) {
        (Some(true), Some(a)) => "Back online. The live feed stayed connected to the gateway at `"@
            + a + "`, and buffered events were replayed."@,
        (Some(false), Some(a)) => "Back online, but the event gateway at `"@ + a
            + "` is not reachable — retrying. Check `mc-tail --status`."@,
        _ => "Back online. This feed reads the database every "@ + poll + "s."@,
    }
}

/// Why a line cannot be spoken in game.
pub open spec fn say_refusal(link: Option<bool>) -> Option<Seq<char>> {
    match link {
        None => Some(
            "this server has no event gateway, so there is no way back into the game"@,
        ),
        Some(false) => Some(
            "the gateway link is down right now — try again once the feed reconnects"@,
        ),
        Some(true) => None,
    }
}

/// The row of a test post.
pub open spec fn test_row(label: Seq<char>, now_us: i64) -> ChatRowText {
    ChatRowText {
        id: 0,
        received_at: now_us,
        kind: "server"@,
        sender_name: None,
        sender_label: None,
        subject_name: None,
        killer_name: None,
        plain_text: "Feed test from "@ + label + " — this is what a line looks like."@,
        server_host: None,
    }
}

/// The test post.
pub open spec fn test_embed(label: Seq<char>, style: BridgeStyle, colour: Option<u32>, now_us: i64) -> EmbedText {
    match style {
        BridgeStyle::Rich => embeds::event_embed(test_row(label, now_us), None, colour),
        BridgeStyle::Compact => embeds::batch_embed(
            seq![test_row(label, now_us)],
            label,
            colour,
            now_us,
        ),
    }
}

pub open spec fn last_cursor(rows: Seq<ChatRowText>, otherwise: Cursor) -> Cursor {
    if rows.len() == 0 {
        otherwise
    } else {
        Cursor { id: rows.last().id, at: Some(rows.last().received_at) }
    }
}

/// Moves a cursor ahead, never back.
pub open spec fn ahead(now: Cursor, to: Cursor) -> Cursor {
    if to.id > now.id {
        to
    } else {
        now
    }
}

fn advance(now: &mut Cursor, to: Cursor) -> (moved: bool)
    ensures
        *final(now) == ahead(*old(now), to),
        moved == (to.id > old(now).id),
{
    if to.id > now.id {
        *now = to;
        true
    } else {
        false
    }
}

fn cursor_of_last(rows: &Vec<ChatRow>, otherwise: Cursor) -> (c: Cursor)
    ensures
        c == last_cursor(models::row_texts(rows@), otherwise),
{
    if rows.len() == 0 {
        otherwise
    } else {
        let last = &rows[rows.len() - 1];
        assert(models::row_texts(rows@).last() == last@);
        Cursor { id: last.id, at: Some(last.received_at) }
    }
}

impl Bridge {
    pub fn new(server: &ServerConfig) -> (b: Self)
        ensures
            b@ == fresh(server@),
    {
        let zero = Cursor { id: 0, at: None };
        let b = Bridge {
            key: server.key.clone(),
            label: server.label.clone(),
            stream_addr: text::copy_opt(&server.stream_addr),
            cursors: Cursors { chat: zero, event: zero, presence: zero },
            last_post_at: None,
            recent_watchbridge: Vec::new(),
            recent_presence: Vec::new(),
            link: None,
            stopped: false,
        };
        assert(bridge::recent_text(b.recent_watchbridge@) =~= Seq::<(Seq<char>, int)>::empty());
        assert(bridge::recent_text(b.recent_presence@) =~= Seq::<(Seq<char>, int)>::empty());
        b
    }

    pub fn key(&self) -> (s: &str)
        ensures
            s@ == self@.key,
    {
        self.key.as_str()
    }

    pub fn current_cursor(&self) -> (id: i64)
        ensures
            id == self@.cursors.chat.id,
    {
        self.cursors.chat.id
    }

    pub fn uses_stream(&self) -> (b: bool)
        ensures
            b == (self@.stream_addr is Some),
    {
        self.stream_addr.is_some()
    }

    /// What the feed runs once it has started.
    pub fn plan(&self, config: &Config) -> (p: FeedPlan)
        ensures
            p == feed_plan(self@.stream_addr is Some, config@.status_notices),
    {
        if self.stream_addr.is_some() {
            FeedPlan::Stream { watch: config.bridge.status_notices }
        } else {
            FeedPlan::Poll { notice: config.bridge.status_notices }
        }
    }

    /// What the configuration says about starting the feed. The channel of the
    /// configuration is that of the first server.
    pub fn start_plan(&self, config: &Config) -> (p: StartPlan)
        requires
            config.servers.len() > 0,
        ensures
            p.from_latest == config@.start_from_latest,
            text::opt_text(p.seed) == seed_of(self@.key, config@),
    {
        let seed = if self.key == config.servers[0].key {
            text::copy_opt(&config.discord.bridge_channel_id)
        } else {
            None
        };
        StartPlan { from_latest: config.bridge.start_from_latest, seed }
    }

    /// Says whether a line may be spoken in game.
    pub fn say(&self) -> (r: Result<(), &'static str>)
        ensures
            match r {
                Ok(_) => say_refusal(self@.link) is None,
                Err(e) => say_refusal(self@.link) == Some(e@),
            },
    {
        match self.link {
            None => Err("this server has no event gateway, so there is no way back into the game"),
            Some(false) => Err(
                "the gateway link is down right now — try again once the feed reconnects",
            ),
            Some(true) => Ok(()),
        }
    }

    /// What is answered once a line was handed to the link, or could not be.
    pub fn said(sent: bool) -> (r: Result<(), &'static str>)
        ensures
            match r {
                Ok(_) => sent,
                Err(e) => !sent && e@ == "the gateway connection is gone"@,
            },
    {
        if sent {
            Ok(())
        } else {
            Err("the gateway connection is gone")
        }
    }

    /// Whether the link to the gateway is up; none without a gateway.
    pub fn gateway_up(&self) -> (r: Option<bool>)
        ensures
            r == self@.link,
    {
        self.link
    }

    /// What is posted when the bot is back on Discord. `poll` is how often the
    /// database is read, in seconds.
    pub fn announce_bot_reconnect(&self, config: &Config, poll: &str) -> (r: Option<String>)
        ensures
            text::opt_text(r) == (if !config@.status_notices || self@.stopped {
                None
            } else {
                Some(reconnect_text(self@.link, self@.stream_addr, poll@))
            }),
    {
        if !config.bridge.status_notices || self.stopped {
            return None;
        }
        let detail = match (self.link, &self.stream_addr) {
            (Some(true), Some(addr)) => text::cat3(
                "Back online. The live feed stayed connected to the gateway at `",
                addr,
                "`, and buffered events were replayed.",
            ),
            (Some(false), Some(addr)) => text::cat3(
                "Back online, but the event gateway at `",
                addr,
                "` is not reachable — retrying. Check `mc-tail --status`.",
            ),
            _ => text::cat3("Back online. This feed reads the database every ", poll, "s."),
        };
        Some(detail)
    }

    /// A notice about the link, and the channel it goes to.
    pub fn post_feed_notice(
        &self,
        settings: &BridgeSettings,
        link: FeedLink,
        detail: &str,
        now_us: i64,
    ) -> (r: Option<(String, Embed)>)
        ensures
            match (r, live_channel(*settings)) {
                (Some((id, e)), Some(channel)) => id@ == channel && e@ == link_embed(
                    self@.label,
                    link,
                    detail@,
                    now_us,
                ),
                (None, None) => true,
                _ => false,
            },
    {
        match feed_channel(settings) {
            Some(channel) => Some(
                (text::copy(channel), build_feed_link_embed(&self.label, link, detail, now_us)),
            ),
            None => None,
        }
    }

    /// Leaves out everything that came in so far.
    pub fn skip_to_latest(&mut self, chat: Cursor, presence: Cursor)
        ensures
            final(self)@ == skipped(old(self)@, chat, presence),
    {
        self.cursors.chat = chat;
        self.cursors.presence = presence;
    }

    pub fn stop(&mut self)
        ensures
            final(self)@ == (BridgeText { stopped: true, ..old(self)@ }),
    {
        self.stopped = true;
    }

    /// A post that shows what a line looks like, and the channel it goes to. It is
    /// made while the feed is paused, too.
    pub fn post_test_line(&self, settings: &BridgeSettings, colour: Option<u32>, now_us: i64) -> (r:
        Option<(String, Embed)>)
        ensures
            match r {
                Some((id, e)) => text::opt_text(settings.channel_id) == Some(id@) && e@
                    == test_embed(self@.label, settings.style, colour, now_us),
                None => settings.channel_id is None,
            },
    {
        let channel = match &settings.channel_id {
            Some(c) => c.clone(),
            None => {
                return None;
            },
        };
        let sample = ChatRow {
            id: 0,
            received_at: now_us,
            kind: text::copy("server"),
            sender_name: None,
            sender_label: None,
            subject_name: None,
            killer_name: None,
            plain_text: text::cat3(
                "Feed test from ",
                &self.label,
                " — this is what a line looks like.",
            ),
            server_host: None,
        };
        assert(sample@ == test_row(self@.label, now_us));
        let embed = match settings.style {
            BridgeStyle::Rich => embeds::build_event_embed(&sample, None, colour),
            BridgeStyle::Compact => {
                let ghost shown = sample@;
                let mut rows: Vec<ChatRow> = Vec::new();
                rows.push(sample);
                assert(models::row_texts(rows@) =~= seq![shown]);
                embeds::build_feed_batch_embed(&rows, &self.label, colour, now_us)
            },
        };
        Some((channel, embed))
    }

    /// Takes the lines that came from the gateway or the database: drops joins and
    /// leaves that came twice, and gives each line to its channel. A feed that is
    /// unset or paused posts nothing.
    pub fn deliver_routed_rows(
        &mut self,
        rows: &Vec<ChatRow>,
        settings: &BridgeSettings,
        routes: &Vec<EventRoute>,
        kinds: &Vec<String>,
        now_ms: u64,
        now_us: i64,
    ) -> (r: Vec<ChannelRows>)
        ensures
            (final(self)@, bridge::channel_texts(r@)) == delivered(
                old(self)@,
                models::row_texts(rows@),
                live_channel(*settings),
                models::route_texts(routes@),
                text::texts(kinds@),
                now_ms as int,
                now_us,
            ),
    {
        let channel = match feed_channel(settings) {
            Some(c) => c,
            None => {
                let none: Vec<ChannelRows> = Vec::new();
                assert(bridge::channel_texts(none@) =~= Seq::<ChannelText>::empty());
                return none;
            },
        };
        let unique = bridge::unique_rows(&mut self.recent_presence, rows, now_ms);
        let r = bridge::route_rows(&unique, channel, routes, kinds);
        if r.len() > 0 {
            self.last_post_at = Some(now_us);
        }
        r
    }

    /// Notes how far the lines of the gateway reach. Says whether that is to be
    /// stored.
    pub fn on_stream_events(&mut self, newest: Option<(i64, i64)>) -> (moved: bool)
        ensures
            (final(self)@, moved) == streamed(old(self)@, newest),
    {
        match newest {
            Some((id, at)) => {
                let mut chat = self.cursors.chat;
                let moved = advance(&mut chat, Cursor { id, at: Some(at) });
                self.cursors.chat = chat;
                moved
            },
            None => false,
        }
    }

    /// Notes that rows were posted. Says whether the cursor is to be stored. Without
    /// rows, or where the feed is unset or paused, nothing is posted and nothing
    /// changes.
    pub fn deliver_rows(
        &mut self,
        rows: &Vec<ChatRow>,
        settings: &BridgeSettings,
        now_us: i64,
    ) -> (moved: bool)
        ensures
            (final(self)@, moved) == posted_rows(
                old(self)@,
                models::row_texts(rows@),
                live_channel(*settings) is Some,
                now_us,
            ),
    {
        if rows.len() == 0 || feed_channel(settings).is_none() {
            return false;
        }
        let last = cursor_of_last(rows, Cursor { id: 0, at: None });
        self.last_post_at = Some(now_us);
        if last.id > 0 {
            self.cursors.chat = last;
            true
        } else {
            false
        }
    }

    /// Leaves out what came in while nothing was posted. Says which cursors are to
    /// be stored.
    pub fn catch_up(&mut self, chat: Cursor, presence: Cursor) -> (moved: (bool, bool))
        ensures
            final(self)@ == caught_up(old(self)@, chat, presence),
            moved == (
                chat.id > old(self)@.cursors.chat.id,
                presence.id > old(self)@.cursors.presence.id,
            ),
    {
        let mut c = self.cursors;
        let mut p = c.presence;
        let mut q = c.chat;
        let first = advance(&mut q, chat);
        let second = advance(&mut p, presence);
        c.chat = q;
        c.presence = p;
        self.cursors = c;
        (first, second)
    }

    /// Notes how far the rows of the database reach. Says which cursors are to be
    /// stored.
    pub fn deliver_feed(&mut self, chat: &Vec<ChatRow>, presence: &Vec<ChatRow>) -> (moved: (
        bool,
        bool,
    ))
        ensures
            final(self)@ == fed(old(self)@, models::row_texts(chat@), models::row_texts(presence@)),
            moved == (chat.len() > 0, presence.len() > 0),
    {
        let c = self.cursors;
        self.cursors = Cursors {
            chat: cursor_of_last(chat, c.chat),
            presence: cursor_of_last(presence, c.presence),
            event: c.event,
        };
        (chat.len() > 0, presence.len() > 0)
    }

    /// The watched joins and leaves that are posted.
    pub fn deliver_watchbridge(&mut self, rows: &Vec<ChatRow>, now_ms: u64) -> (r: Vec<ChatRow>)
        ensures
            ({
                let (recent, kept) = bridge::uniqued_all(
                    old(self)@.recent_watchbridge,
                    models::row_texts(rows@),
                    now_ms as int,
                );
                &&& final(self)@ == (BridgeText { recent_watchbridge: recent, ..old(self)@ })
                &&& models::row_texts(r@) == kept
            }),
    {
        bridge::unique_rows(&mut self.recent_watchbridge, rows, now_ms)
    }

    /// Notes how far the joins and leaves have been read: to the last of the rows
    /// where there may be more, else to the newest. Says whether that is to be
    /// stored.
    pub fn advance_event_cursor(&mut self, rows: &Vec<ChatRow>, newest: Cursor) -> (moved: bool)
        ensures
            (final(self)@, moved) == watched_on(old(self)@, models::row_texts(rows@), newest),
    {
        let to = if watch_page_full(rows) {
            cursor_of_last(rows, newest)
        } else {
            newest
        };
        let mut event = self.cursors.event;
        let moved = advance(&mut event, to);
        self.cursors.event = event;
        moved
    }
}

/// Whether there may be more watched joins and leaves than were read.
pub fn watch_page_full(rows: &Vec<ChatRow>) -> (b: bool)
    ensures
        b == (rows.len() == WATCHBRIDGE_HITS_PER_TICK),
{
    rows.len() == 200
}

pub open spec fn watched_to(rows: Seq<ChatRowText>, newest: Cursor) -> Cursor {
    if rows.len() == WATCHBRIDGE_HITS_PER_TICK {
        last_cursor(rows, newest)
    } else {
        newest
    }
}

/// What becomes of lines: the feed afterwards, and the lines by channel.
pub open spec fn delivered(
    b: BridgeText,
    rows: Seq<ChatRowText>,
    channel: Option<Seq<char>>,
    routes: Seq<models::RouteText>,
    kinds: Seq<Seq<char>>,
    now_ms: int,
    now_us: i64,
) -> (BridgeText, Seq<ChannelText>) {
    match channel {
        None => (b, Seq::empty()),
        Some(fallback) => {
            let (recent, kept) = bridge::uniqued_all(b.recent_presence, rows, now_ms);
            let posts = bridge::by_channel(kept, fallback, routes, kinds);
            (
                BridgeText {
                    recent_presence: recent,
                    last_post_at: if posts.len() > 0 {
                        Some(now_us)
                    } else {
                        b.last_post_at
                    },
                    ..b
                },
                posts,
            )
        },
    }
}

/// No part of the feed reads back: each cursor that catches up stays where it is or
/// moves on.
pub proof fn lemma_cursors_only_advance(now: Cursor, to: Cursor)
    ensures
        ahead(now, to).id >= now.id,
        ahead(now, to).id >= to.id,
        ahead(ahead(now, to), to) == ahead(now, to),
{
}

// ---------------------------------------------------------------------------
// Posts that Discord refuses
// ---------------------------------------------------------------------------

/// How often a post is tried.
pub const DISCORD_RETRY_ATTEMPTS: u8 = 8;

/// How long to wait after the first refusal, where Discord does not say.
pub const DISCORD_RETRY_FALLBACK_MS: u64 = 2_000;

/// The longest wait between two tries.
pub const DISCORD_RETRY_MAX_MS: u64 = 15_000;

/// Whether no amount of trying will help: the channel is gone or may not be posted
/// to.
pub open spec fn permanent(message: Seq<char>) -> bool {
    ||| text::has_text(message, "Missing Access"@)
    ||| text::has_text(message, "Missing Permissions"@)
    ||| text::has_text(message, "Unknown Channel"@)
    ||| text::has_text(message, "50013"@)
    ||| text::has_text(message, "50001"@)
    ||| text::has_text(message, "10003"@)
}

pub fn is_permanent_discord_error(message: &str) -> (b: bool)
    ensures
        b == permanent(message@),
{
    text::has(message, "Missing Access") || text::has(message, "Missing Permissions") || text::has(
        message,
        "Unknown Channel",
    ) || text::has(message, "50013") || text::has(message, "50001") || text::has(message, "10003")
}

/// What follows a refusal, of a post that had been refused so often before.
pub open spec fn after_refusal(refused: int, message: Seq<char>, asked_ms: Option<u64>) -> Option<int> {
    if permanent(message) || refused + 1 >= DISCORD_RETRY_ATTEMPTS {
        None
    } else {
        let wait = match asked_ms {
            Some(ms) => ms as int,
            None => DISCORD_RETRY_FALLBACK_MS * (refused + 1),
        };
        Some(
            if wait < DISCORD_RETRY_MAX_MS {
                wait
            } else {
                DISCORD_RETRY_MAX_MS as int
            },
        )
    }
}

/// How long to wait before a refused post is tried again, in milliseconds; none
/// where it is given up. `asked_ms` is how long Discord asked to wait.
pub fn send_embeds(refused: u8, message: &str, asked_ms: Option<u64>) -> (r: Option<u64>)
    ensures
        text::opt_int(r) == after_refusal(refused as int, message@, asked_ms),
{
    if is_permanent_discord_error(message) || refused >= DISCORD_RETRY_ATTEMPTS - 1 {
        return None;
    }
    let wait: u64 = match asked_ms {
        Some(ms) => ms,
        None => DISCORD_RETRY_FALLBACK_MS * (refused as u64 + 1),
    };
    if wait < DISCORD_RETRY_MAX_MS {
        Some(wait)
    } else {
        Some(DISCORD_RETRY_MAX_MS)
    }
}

/// A post is tried eight times at the most, and never waits longer than fifteen
/// seconds between two tries.
pub proof fn lemma_posts_give_up(refused: int, message: Seq<char>, asked_ms: Option<u64>)
    requires
        refused >= 0,
    ensures
        match after_refusal(refused, message, asked_ms) {
            Some(ms) => refused + 1 < DISCORD_RETRY_ATTEMPTS && 0 <= ms <= DISCORD_RETRY_MAX_MS,
            None => true,
        },
        refused >= DISCORD_RETRY_ATTEMPTS - 1 ==> after_refusal(refused, message, asked_ms) is None,
{
}

pub open spec fn not_numeric() -> spec_fn(char) -> bool {
    |c: char| !text::is_digit(c) && c != '.'
}

/// The ones with a point in them.
pub open spec fn dotted(parts: Seq<Seq<char>>) -> Seq<Seq<char>>
    decreases parts.len(),
{
    if parts.len() == 0 {
        Seq::empty()
    } else if parts.last().contains('.') {
        dotted(parts.drop_last()).push(parts.last())
    } else {
        dotted(parts.drop_last())
    }
}

/// What may be the time that Discord asks to wait, in the words of its refusal:
/// the decimal numbers from the word `retry` on, or anywhere without it.
pub open spec fn retry_numbers(message: Seq<char>) -> Seq<Seq<char>> {
    if text::has_text(message, "Could not decode json"@) {
        Seq::empty()
    } else {
        let rest = match text::find_text(text::lowered(message), "retry"@) {
            Some(i) => message.skip(i),
            None => message,
        };
        dotted(text::pieces(rest, not_numeric()))
    }
}

pub fn parse_retry_after_secs(message: &str) -> (r: Vec<String>)
    ensures
        text::texts(r@) == retry_numbers(message@),
{
    let mut r: Vec<String> = Vec::new();
    if text::has(message, "Could not decode json") {
        assert(text::texts(r@) =~= Seq::<Seq<char>>::empty());
        return r;
    }
    let v = text::chars_of(message);
    let lower = text::chars_of(&text::lower(message));
    let key = text::chars_of("retry");
    proof {
        text::lemma_find_text(text::lowered(message@), "retry"@);
    }
    let from: usize = match text::find_in(&lower, &key) {
        Some(i) => i,
        None => 0,
    };
    let ghost rest = message@.skip(from as int);
    assert(message@.skip(0) =~= message@);
    let mut cur = String::new();
    let mut point = false;
    let ghost done: Seq<Seq<char>> = Seq::empty();
    assert(done.push(cur@) =~= text::pieces(rest.take(0), not_numeric()));
    assert(text::texts(r@) =~= dotted(done));
    for i in from..v.len()
        invariant
            v@ == message@,
            from <= v.len(),
            rest == message@.skip(from as int),
            done.push(cur@) == text::pieces(rest.take(i - from), not_numeric()),
            text::texts(r@) == dotted(done),
            point == cur@.contains('.'),
    {
        let ghost before = text::pieces(rest.take(i - from), not_numeric());
        proof {
            let now = rest.take(i + 1 - from);
            assert(now.drop_last() =~= rest.take(i - from));
            assert(now.last() == v[i as int]);
            assert(before.drop_last() =~= done);
            assert(before.last() == cur@);
        }
        let c: char = v[i];
        if !text::digit(c) && c != '.' {
            let ghost piece = cur@;
            proof {
                assert(done.push(piece).drop_last() =~= done);
            }
            if point {
                proof {
                    text::lemma_texts_push(r@, cur);
                }
                r.push(cur);
            }
            proof {
                done = done.push(piece);
            }
            cur = String::new();
            point = false;
            assert(!cur@.contains('.'));
        } else {
            let ghost had = cur@;
            cur.push(c);
            proof {
                assert(cur@ == had.push(c));
                assert(cur@[had.len() as int] == c);
                if had.contains('.') {
                    let k = choose|k: int| 0 <= k < had.len() && had[k] == '.';
                    assert(cur@[k] == '.');
                } else if c != '.' {
                    assert forall|k: int| 0 <= k < cur@.len() implies cur@[k] != '.' by {
                        if k < had.len() {
                            assert(cur@[k] == had[k]);
                            assert(had.contains(had[k]));
                        }
                    }
                }
            }
            point = point || c == '.';
        }
    }
    assert(rest.take(v.len() - from) =~= rest);
    proof {
        assert(done.push(cur@).drop_last() =~= done);
    }
    if point {
        proof {
            text::lemma_texts_push(r@, cur);
        }
        r.push(cur);
    }
    r
}

/// The same of an answer with a status: only one that says there were too many
/// posts asks to wait.
pub fn discord_429_wait(status: Option<u16>, message: &str) -> (r: Vec<String>)
    ensures
        text::texts(r@) == (if status == Some(429u16) {
            retry_numbers(message@)
        } else {
            Seq::empty()
        }),
{
    if let Some(code) = status {
        if code == 429 {
            return parse_retry_after_secs(message);
        }
    }
    let none: Vec<String> = Vec::new();
    assert(text::texts(none@) =~= Seq::<Seq<char>>::empty());
    none
}

// ---------------------------------------------------------------------------
// All feeds
// ---------------------------------------------------------------------------

/// How long to wait before feeds that did not start are started again, in seconds.
pub const START_RETRY_SECS: u64 = 15;

/// The feeds of all servers.
pub struct BridgeSet {
    pub bridges: Table<Bridge>,
}

/// Which server has a key: of several the last.
pub open spec fn last_with_key(servers: Seq<config::ServerText>, key: Seq<char>) -> Option<
    config::ServerText,
>
    decreases servers.len(),
{
    if servers.len() == 0 {
        None
    } else if servers.last().key == key {
        Some(servers.last())
    } else {
        last_with_key(servers.drop_last(), key)
    }
}

/// Whether there is one fresh feed for each key among some servers.
pub open spec fn fresh_for(bridges: Map<Seq<char>, Bridge>, servers: Seq<config::ServerText>) -> bool {
    forall|key: Seq<char>|
        match last_with_key(servers, key) {
            Some(server) => #[trigger] bridges.contains_key(key) && bridges[key]@ == fresh(server),
            None => !bridges.contains_key(key),
        }
}

proof fn lemma_one_more_feed(
    before: Map<Seq<char>, Bridge>,
    after: Map<Seq<char>, Bridge>,
    servers: Seq<config::ServerText>,
    server: config::ServerText,
    b: Bridge,
)
    requires
        fresh_for(before, servers),
        after == before.insert(server.key, b),
        b@ == fresh(server),
    ensures
        fresh_for(after, servers.push(server)),
{
    let more = servers.push(server);
    assert(more.drop_last() =~= servers);
    assert forall|key: Seq<char>|
        match last_with_key(more, key) {
            Some(s) => #[trigger] after.contains_key(key) && after[key]@ == fresh(s),
            None => !after.contains_key(key),
        } by {
        if key != server.key {
            assert(last_with_key(more, key) == last_with_key(servers, key));
            assert(after.contains_key(key) == before.contains_key(key));
            if before.contains_key(key) {
                assert(after[key] == before[key]);
            }
        }
    }
}

impl BridgeSet {
    pub fn new(config: &Config) -> (s: Self)
        ensures
            s.bridges.wf(),
            fresh_for(s.bridges@, config@.servers),
    {
        let ghost all = config@.servers;
        let mut bridges: Table<Bridge> = Table::new();
        for i in 0..config.servers.len()
            invariant
                all == config@.servers,
                bridges.wf(),
                fresh_for(bridges@, all.take(i as int)),
        {
            let server = &config.servers[i];
            let ghost before = bridges@;
            let b = Bridge::new(server);
            let ghost made = b;
            bridges.insert(server.key.clone(), b);
            proof {
                assert(all.take(i + 1) =~= all.take(i as int).push(server@));
                lemma_one_more_feed(before, bridges@, all.take(i as int), server@, made);
            }
        }
        assert(all.take(all.len() as int) =~= all);
        BridgeSet { bridges }
    }

    pub fn get(&self, key: &String) -> (r: Option<&Bridge>)
        requires
            self.bridges.wf(),
        ensures
            match r {
                Some(b) => self.bridges@.contains_key(key@) && *b == self.bridges@[key@],
                None => !self.bridges@.contains_key(key@),
            },
    {
        self.bridges.get(key)
    }
}

/// The ones that failed, in their order.
pub open spec fn failed(keys: Seq<Seq<char>>, started: Seq<bool>) -> Seq<Seq<char>>
    decreases keys.len(),
{
    if keys.len() == 0 {
        Seq::empty()
    } else {
        let before = failed(keys.drop_last(), started);
        if started[keys.len() - 1] {
            before
        } else {
            before.push(keys.last())
        }
    }
}

/// The feeds that have to be started again.
pub fn start_all(keys: &Vec<String>, started: &Vec<bool>) -> (r: Vec<String>)
    requires
        started.len() == keys.len(),
    ensures
        text::texts(r@) == failed(text::texts(keys@), started@),
{
    let ghost all = text::texts(keys@);
    let mut r: Vec<String> = Vec::new();
    assert(text::texts(r@) =~= failed(all.take(0), started@));
    for i in 0..keys.len()
        invariant
            started.len() == keys.len(),
            all == text::texts(keys@),
            text::texts(r@) == failed(all.take(i as int), started@),
    {
        assert(all.take(i + 1).drop_last() =~= all.take(i as int));
        if !started[i] {
            let k = keys[i].clone();
            proof {
                text::lemma_texts_push(r@, k);
            }
            r.push(k);
        }
    }
    assert(all.take(all.len() as int) =~= all);
    r
}

// ---------------------------------------------------------------------------
// What the feed tells
// ---------------------------------------------------------------------------

/// Good news of the link have the colour of a join and bad news that of a leave, and
/// each news has its own words.
pub proof fn lemma_link_news(label: Seq<char>, detail: Seq<char>, now_us: i64)
    ensures
        ({
            let e = |link: FeedLink| link_embed(label, link, detail, now_us);
            &&& e(FeedLink::Streaming).title == Some("Live feed connected"@)
            &&& e(FeedLink::Recovered).title == Some("Live feed reconnected"@)
            &&& e(FeedLink::GatewayDown).title == Some("Live feed disconnected"@)
            &&& e(FeedLink::Polling).title == Some("Live feed polling the database"@)
            &&& e(FeedLink::BotReconnected).title == Some("Bot reconnected"@)
            &&& e(FeedLink::GatewayDown).colour == Palette::LEAVE
            &&& e(FeedLink::Streaming).colour == Palette::JOIN
            &&& e(FeedLink::Recovered).colour == Palette::JOIN
            &&& e(FeedLink::BotReconnected).colour == Palette::JOIN
            &&& e(FeedLink::Polling).colour == Palette::NEUTRAL
            &&& detail.len() <= Limits::DESCRIPTION ==> e(FeedLink::Streaming).description == Some(
                detail,
            )
        }),
{
}

/// A link that comes up is told as connected, one that comes back as reconnected, and
/// one that cannot be reached or is lost as disconnected; the words name the server.
pub proof fn lemma_notices_are_told(label: Seq<char>)
    ensures
        notice_link(LinkNotice::Connected) == FeedLink::Streaming,
        notice_link(LinkNotice::Back) == FeedLink::Recovered,
        notice_link(LinkNotice::Unreachable) == FeedLink::GatewayDown,
        notice_link(LinkNotice::Lost) == FeedLink::GatewayDown,
        text::begins(
            notice_detail(LinkNotice::Connected, label),
            "Connected to the event gateway for **"@ + label + "**"@,
        ),
        text::begins(
            notice_detail(LinkNotice::Unreachable, label),
            "Cannot reach the event gateway for **"@ + label + "**"@,
        ),
        text::begins(
            notice_detail(LinkNotice::Back, label),
            "Back on the gateway for **"@ + label + "**"@,
        ),
        text::begins(
            notice_detail(LinkNotice::Lost, label),
            "Lost the connection to the event gateway for **"@ + label + "**"@,
        ),
{
    reveal_strlit("**");
    reveal_strlit("**.");
    reveal_strlit("**. Buffered events were replayed.");
    reveal_strlit("**. Reconnecting every 2s; the feed resumes where it left off.");
    reveal_strlit(
        "** — retrying every 2s. Nothing will appear here until the link is back.\nAn admin can check it with `mc-tail --status`, or `systemctl status terminal-client`.",
    );
    let a = "Connected to the event gateway for **"@ + label + "**"@;
    assert(notice_detail(LinkNotice::Connected, label).take(a.len() as int) =~= a);
    let b = "Cannot reach the event gateway for **"@ + label + "**"@;
    assert(notice_detail(LinkNotice::Unreachable, label).take(b.len() as int) =~= b);
    let c = "Back on the gateway for **"@ + label + "**"@;
    assert(notice_detail(LinkNotice::Back, label).take(c.len() as int) =~= c);
    let d = "Lost the connection to the event gateway for **"@ + label + "**"@;
    assert(notice_detail(LinkNotice::Lost, label).take(d.len() as int) =~= d);
}

/// A link that stays away for three looks is told as lost, once; one that is there at
/// the next look is told as back.
pub proof fn lemma_outages_are_told(t: int)
    ensures
        ({
            let up = LinkWatch::Watching { up: true, misses: 0 };
            let once = looked(up, false, t, false);
            let twice = looked(once.watch, false, t, false);
            let lost = looked(twice.watch, false, t, false);
            let still = looked(lost.watch, false, t, false);
            let back = looked(still.watch, true, t, false);
            &&& once.notice is None && twice.notice is None
            &&& lost.notice == Some(LinkNotice::Lost)
            &&& still.notice is None
            &&& back.notice == Some(LinkNotice::Back)
            &&& back.watch == up
        }),
        looked(LinkWatch::Starting, true, t, false).notice == Some(LinkNotice::Connected),
        t >= 15_000 ==> looked(LinkWatch::Starting, false, t, false).notice == Some(
            LinkNotice::Unreachable,
        ),
        t < 15_000 ==> looked(LinkWatch::Starting, false, t, false).notice is None,
        forall|w: LinkWatch, link: bool|
            w is Watching ==> #[trigger] looked(w, link, t, true).watch is Stopped && looked(
                w,
                link,
                t,
                true,
            ).notice is None,
{
}

/// A server with a gateway is fed from it, and any other from the database.
pub proof fn lemma_feeds_stream_or_poll(notices: bool)
    ensures
        feed_plan(true, notices) is Stream && feed_plan(true, notices)->watch == notices,
        feed_plan(false, notices) is Poll && feed_plan(false, notices)->notice == notices,
{
}

/// A chat event of the stream becomes a line with the same fields, and a join or leave
/// a line of that kind about that player.
pub proof fn lemma_stream_events_become_lines(event: StreamEvent)
    ensures
        event matches StreamEvent::Chat(c) ==> (stream_row(event) matches Some(row) && {
            &&& row.received_at == c.ts
            &&& row.kind == c.kind@
            &&& row.plain_text == c.plain_text@
            &&& row.sender_name is Some == c.sender_name is Some
            &&& c.sender_name is Some ==> row.sender_name == Some(c.sender_name->0@)
            &&& row.sender_label is Some == c.sender_label is Some
            &&& c.sender_label is Some ==> row.sender_label == Some(c.sender_label->0@)
            &&& row.subject_name is Some == c.subject_name is Some
            &&& c.subject_name is Some ==> row.subject_name == Some(c.subject_name->0@)
            &&& row.killer_name is Some == c.killer_name is Some
            &&& c.killer_name is Some ==> row.killer_name == Some(c.killer_name->0@)
            &&& row.server_host is Some == c.server_host is Some
            &&& c.server_host is Some ==> row.server_host == Some(c.server_host->0@)
            &&& c.id is Some ==> row.id == c.id->0
        }),
        event matches StreamEvent::PlayerEvent(e) ==> {
            let letter = models::first_letter(e.event_type@);
            &&& letter == Some('j') || letter == Some('l') ==> (stream_row(event) matches Some(row) && {
                &&& row.kind == (if letter == Some('j') {
                    "join"@
                } else {
                    "leave"@
                })
                &&& row.received_at == e.ts
                &&& row.subject_name == Some(e.player_name@)
                &&& row.sender_name is None && row.killer_name is None
                &&& row.plain_text.len() == 0
            })
            &&& letter != Some('j') && letter != Some('l') ==> stream_row(event) is None
        },
{
}

/// The lines of a stream come in its order, one for each event that has one.
pub proof fn lemma_stream_lines_in_order(events: Seq<StreamEvent>, event: StreamEvent)
    ensures
        stream_row(event) matches Some(row) ==> stream_rows_text(events.push(event))
            == stream_rows_text(events).push(row),
        stream_row(event) is None ==> stream_rows_text(events.push(event)) == stream_rows_text(events),
        stream_rows_text(Seq::empty()).len() == 0,
{
    assert(events.push(event).drop_last() =~= events);
}

/// The newest chat of a stream is the one with the highest number, with its own time.
pub proof fn lemma_newest_chat(events: Seq<StreamEvent>)
    ensures
        match newest_chat(events) {
            Some((id, ts)) => {
                &&& id > 0
                &&& exists|i: int|
                    0 <= i < events.len() && (#[trigger] events[i] matches StreamEvent::Chat(c)
                        && c.id == Some(id) && c.ts == ts)
                &&& forall|i: int|
                    0 <= i < events.len() ==> (#[trigger] events[i] matches StreamEvent::Chat(c) ==> (
                    c.id matches Some(other) ==> other <= id))
            },
            None => forall|i: int|
                0 <= i < events.len() ==> (#[trigger] events[i] matches StreamEvent::Chat(c) ==> (
                c.id matches Some(other) ==> other <= 0)),
        },
    decreases events.len(),
{
    if events.len() > 0 {
        let rest = events.drop_last();
        lemma_newest_chat(rest);
        let last = events.last();
        assert(events[events.len() - 1] == last);
        match newest_chat(rest) {
            Some((id, ts)) => {
                let i = choose|i: int|
                    0 <= i < rest.len() && (#[trigger] rest[i] matches StreamEvent::Chat(c) && c.id
                        == Some(id) && c.ts == ts);
                assert(events[i] == rest[i]);
            },
            None => {},
        }
        assert forall|i: int| 0 <= i < rest.len() implies #[trigger] events[i] == rest[i] by {}
    }
}

/// A line that is no older than the others is posted behind them.
pub proof fn lemma_newest_line_is_last(rows: Seq<ChatRowText>, row: ChatRowText)
    requires
        forall|i: int| 0 <= i < rows.len() ==> #[trigger] rows[i].received_at <= row.received_at,
    ensures
        by_time(rows.push(row)) == by_time(rows).push(row),
{
    broadcast use vstd::seq_lib::group_to_multiset_ensures;

    let before = by_time(rows);
    assert(rows.push(row).drop_last() =~= rows);
    lemma_merged_by_time(rows);
    if before.len() > 0 {
        assert(before.to_multiset().count(before.last()) > 0) by {
            assert(before.contains(before.last()));
        }
        assert(rows.contains(before.last()));
    }
    assert(place_by_time(before, row.received_at) == before.len());
    assert(before.insert(before.len() as int, row) =~= before.push(row));
}

/// A feed that is switched off has no channel, and one that is on has the one that was
/// set.
pub proof fn lemma_feeds_have_their_channel(settings: BridgeSettings)
    ensures
        !settings.enabled ==> live_channel(settings) is None,
        settings.enabled && settings.channel_id is None ==> live_channel(settings) is None,
        settings.enabled && settings.channel_id is Some ==> live_channel(settings) == Some(
            settings.channel_id->0@,
        ),
{
}

/// Nothing is said into the game without a link that is up.
pub proof fn lemma_speaking_needs_a_link(link: Option<bool>)
    ensures
        say_refusal(link) is None <==> link == Some(true),
{
}

/// Where lines were posted the cursor stands at the last of them; with none it stays.
pub proof fn lemma_cursor_stands_at_the_last(rows: Seq<ChatRowText>, row: ChatRowText, otherwise: Cursor)
    ensures
        last_cursor(Seq::empty(), otherwise) == otherwise,
        last_cursor(rows.push(row), otherwise).id == row.id,
        last_cursor(rows.push(row), otherwise).at == Some(row.received_at),
        rows.len() == 200 ==> watched_to(rows, otherwise) == (Cursor {
            id: rows.last().id,
            at: Some(rows.last().received_at),
        }),
        rows.len() != 200 ==> watched_to(rows, otherwise) == otherwise,
        row.id > otherwise.id ==> ahead(otherwise, last_cursor(rows.push(row), otherwise)).id == row.id,
        row.id <= otherwise.id ==> ahead(otherwise, last_cursor(rows.push(row), otherwise)) == otherwise,
{
    assert(rows.push(row).last() == row);
}

/// Without a channel nothing is posted and nothing changes; what is posted goes to the
/// channel of its kind, and the time of the last post is kept.
pub proof fn lemma_deliveries(
    b: BridgeText,
    rows: Seq<ChatRowText>,
    fallback: Seq<char>,
    routes: Seq<models::RouteText>,
    kinds: Seq<Seq<char>>,
    now_ms: int,
    now_us: i64,
)
    ensures
        delivered(b, rows, None, routes, kinds, now_ms, now_us) == (b, Seq::<ChannelText>::empty()),
        ({
            let (after, posts) = delivered(b, rows, Some(fallback), routes, kinds, now_ms, now_us);
            &&& posts.len() > 0 ==> after.last_post_at == Some(now_us)
            &&& posts.len() == 0 ==> after.last_post_at == b.last_post_at
            &&& after.cursors == b.cursors && after.link == b.link && after.key == b.key
            &&& after.recent_watchbridge == b.recent_watchbridge && after.stopped == b.stopped
        }),
{
}

/// A post that may never succeed is not tried again; any other is, after the time that
/// was asked for, or after two seconds more with each refusal, and never after more
/// than fifteen seconds.
pub proof fn lemma_refused_posts_wait(refused: int, message: Seq<char>, asked: u64)
    requires
        0 <= refused < 7,
        !permanent(message),
    ensures
        asked < 15_000 ==> after_refusal(refused, message, Some(asked)) == Some(asked as int),
        asked >= 15_000 ==> after_refusal(refused, message, Some(asked)) == Some(15_000int),
        2_000 * (refused + 1) <= 15_000 ==> after_refusal(refused, message, None) == Some(
            2_000 * (refused + 1),
        ),
        2_000 * (refused + 1) > 15_000 ==> after_refusal(refused, message, None) == Some(15_000int),
{
}

/// What Discord says of a channel that is gone or closed to the bot ends the tries.
pub proof fn lemma_closed_channels_end_the_tries(
    refused: int,
    before: Seq<char>,
    after: Seq<char>,
    asked: Option<u64>,
)
    ensures
        after_refusal(refused, before + "Missing Access"@ + after, asked) is None,
        after_refusal(refused, before + "Missing Permissions"@ + after, asked) is None,
        after_refusal(refused, before + "Unknown Channel"@ + after, asked) is None,
{
    text::lemma_has_inside(before, "Missing Access"@, after);
    text::lemma_has_inside(before, "Missing Permissions"@, after);
    text::lemma_has_inside(before, "Unknown Channel"@, after);
}

/// The feeds that failed are those that did not start, in their order.
pub proof fn lemma_failed_feeds(keys: Seq<Seq<char>>, started: Seq<bool>, key: Seq<char>, ok: bool)
    requires
        keys.len() == started.len(),
    ensures
        failed(keys.push(key), started.push(ok)) == (if ok {
            failed(keys, started)
        } else {
            failed(keys, started).push(key)
        }),
        failed(Seq::empty(), Seq::empty()).len() == 0,
{
    assert(keys.push(key).drop_last() =~= keys);
    lemma_failed_looks_back(keys, started, ok);
}

proof fn lemma_failed_looks_back(keys: Seq<Seq<char>>, started: Seq<bool>, ok: bool)
    requires
        keys.len() <= started.len(),
    ensures
        failed(keys, started.push(ok)) == failed(keys, started),
    decreases keys.len(),
{
    if keys.len() > 0 {
        lemma_failed_looks_back(keys.drop_last(), started, ok);
        assert(started.push(ok)[keys.len() - 1] == started[keys.len() - 1]);
    }
}

/// A feed starts with nothing posted and the names of its server.
pub proof fn lemma_feeds_start_afresh(server: config::ServerText)
    ensures
        fresh(server).key == server.key,
        fresh(server).label == server.label,
        fresh(server).stream_addr == server.stream_addr,
        fresh(server).last_post_at is None,
        !fresh(server).stopped,
        fresh(server).cursors.chat.id == 0,
        fresh(server).cursors.event.id == 0,
        fresh(server).cursors.presence.id == 0,
{
}

/// After a reconnect the feed tells whether the gateway is there.
pub proof fn lemma_reconnects_are_told(a: Seq<char>, poll: Seq<char>)
    ensures
        text::begins(
            reconnect_text(Some(true), Some(a), poll),
            "Back online. The live feed stayed connected to the gateway at `"@ + a,
        ),
        text::begins(
            reconnect_text(Some(false), Some(a), poll),
            "Back online, but the event gateway at `"@ + a,
        ),
        reconnect_text(None, None, poll) == "Back online. This feed reads the database every "@ + poll
            + "s."@,
{
    let x = "Back online. The live feed stayed connected to the gateway at `"@ + a;
    assert(reconnect_text(Some(true), Some(a), poll).take(x.len() as int) =~= x);
    let y = "Back online, but the event gateway at `"@ + a;
    assert(reconnect_text(Some(false), Some(a), poll).take(y.len() as int) =~= y);
}

/// Of several servers under one key the last counts.
pub proof fn lemma_last_server_counts(
    servers: Seq<config::ServerText>,
    s: config::ServerText,
    key: Seq<char>,
)
    ensures
        s.key == key ==> last_with_key(servers.push(s), key) == Some(s),
        s.key != key ==> last_with_key(servers.push(s), key) == last_with_key(servers, key),
        last_with_key(Seq::empty(), key) is None,
{
    assert(servers.push(s).drop_last() =~= servers);
}

/// The line for a test names the server and is one of the server.
pub proof fn lemma_test_lines(label: Seq<char>, now_us: i64)
    ensures
        test_row(label, now_us).kind == "server"@,
        test_row(label, now_us).received_at == now_us,
        test_row(label, now_us).sender_name is None,
        text::has_text(test_row(label, now_us).plain_text, label),
{
    text::lemma_has_inside("Feed test from "@, label, " — this is what a line looks like."@);
}

/// The times that Discord asks for are the numbers with a point behind the word.
pub proof fn lemma_times_asked_for(parts: Seq<Seq<char>>, part: Seq<char>)
    ensures
        part.contains('.') ==> dotted(parts.push(part)) == dotted(parts).push(part),
        !part.contains('.') ==> dotted(parts.push(part)) == dotted(parts),
{
    assert(parts.push(part).drop_last() =~= parts);
}

// ---------------------------------------------------------------------------
// Where a feed stands
// ---------------------------------------------------------------------------

/// A feed after its lines were posted, and whether its place in the chat moved.
pub open spec fn posted_rows(b: BridgeText, all: Seq<ChatRowText>, live: bool, now_us: i64) -> (
    BridgeText,
    bool,
) {
    let posted = all.len() > 0 && live;
    let counts = posted && all.last().id > 0;
    (
        if posted {
            BridgeText {
                cursors: Cursors {
                    chat: if counts {
                        last_cursor(all, b.cursors.chat)
                    } else {
                        b.cursors.chat
                    },
                    ..b.cursors
                },
                last_post_at: Some(now_us),
                ..b
            }
        } else {
            b
        },
        counts,
    )
}

/// A feed that has caught up with the stream.
pub open spec fn caught_up(b: BridgeText, chat: Cursor, presence: Cursor) -> BridgeText {
    BridgeText {
        cursors: Cursors {
            chat: ahead(b.cursors.chat, chat),
            presence: ahead(b.cursors.presence, presence),
            ..b.cursors
        },
        ..b
    }
}

/// A feed whose lines from the database were posted.
pub open spec fn fed(b: BridgeText, chat: Seq<ChatRowText>, presence: Seq<ChatRowText>) -> BridgeText {
    BridgeText {
        cursors: Cursors {
            chat: last_cursor(chat, b.cursors.chat),
            presence: last_cursor(presence, b.cursors.presence),
            ..b.cursors
        },
        ..b
    }
}

/// A feed after events of the stream, and whether its place in the chat moved.
pub open spec fn streamed(b: BridgeText, newest: Option<(i64, i64)>) -> (BridgeText, bool) {
    match newest {
        Some((id, at)) => (
            BridgeText {
                cursors: Cursors {
                    chat: ahead(b.cursors.chat, Cursor { id, at: Some(at) }),
                    ..b.cursors
                },
                ..b
            },
            id > b.cursors.chat.id,
        ),
        None => (b, false),
    }
}

/// A feed after watched players were looked up, and whether its place among the events
/// moved.
pub open spec fn watched_on(b: BridgeText, rows: Seq<ChatRowText>, newest: Cursor) -> (BridgeText, bool) {
    let to = watched_to(rows, newest);
    (
        BridgeText {
            cursors: Cursors { event: ahead(b.cursors.event, to), ..b.cursors },
            ..b
        },
        to.id > b.cursors.event.id,
    )
}

/// A feed that goes on from the newest rows.
pub open spec fn skipped(b: BridgeText, chat: Cursor, presence: Cursor) -> BridgeText {
    BridgeText { cursors: Cursors { chat, presence, ..b.cursors }, ..b }
}

/// The channel that a feed starts with.
pub open spec fn seed_of(key: Seq<char>, c: config::ConfigText) -> Option<Seq<char>> {
    if key == c.servers[0].key {
        c.bridge_channel_id
    } else {
        None
    }
}

/// Lines that were posted move the place in the chat to the last of them and set the time
/// of the last post; lines that have no number set the time alone, and without a channel
/// nothing changes. No other place moves.
pub proof fn lemma_posted_lines_move_the_feed(
    b: BridgeText,
    rows: Seq<ChatRowText>,
    row: ChatRowText,
    now_us: i64,
)
    ensures
        posted_rows(b, rows.push(row), false, now_us) == (b, false),
        posted_rows(b, Seq::empty(), true, now_us) == (b, false),
        ({
            let (after, moved) = posted_rows(b, rows.push(row), true, now_us);
            &&& after.last_post_at == Some(now_us)
            &&& moved <==> row.id > 0
            &&& row.id > 0 ==> after.cursors.chat.id == row.id && after.cursors.chat.at == Some(
                row.received_at,
            )
            &&& row.id <= 0 ==> after.cursors == b.cursors
            &&& after.cursors.event == b.cursors.event && after.cursors.presence == b.cursors.presence
        }),
{
    assert(rows.push(row).last() == row);
}

/// Each place of a feed is moved by what it is the place of, and only forward where a
/// stream or a look tells of it.
pub proof fn lemma_each_place_moves_alone(
    b: BridgeText,
    chat: Cursor,
    presence: Cursor,
    rows: Seq<ChatRowText>,
    id: i64,
    at: i64,
)
    ensures
        ({
            let after = caught_up(b, chat, presence);
            &&& chat.id > b.cursors.chat.id ==> after.cursors.chat == chat
            &&& chat.id <= b.cursors.chat.id ==> after.cursors.chat == b.cursors.chat
            &&& presence.id > b.cursors.presence.id ==> after.cursors.presence == presence
            &&& presence.id <= b.cursors.presence.id ==> after.cursors.presence == b.cursors.presence
            &&& after.cursors.event == b.cursors.event
        }),
        ({
            let (after, moved) = streamed(b, Some((id, at)));
            &&& moved <==> id > b.cursors.chat.id
            &&& moved ==> after.cursors.chat == (Cursor { id, at: Some(at) })
            &&& !moved ==> after == b
            &&& after.cursors.event == b.cursors.event && after.cursors.presence == b.cursors.presence
        }),
        streamed(b, None) == (b, false),
        ({
            let (after, moved) = watched_on(b, rows, chat);
            &&& rows.len() != 200 && chat.id > b.cursors.event.id ==> moved && after.cursors.event == chat
            &&& !moved ==> after.cursors == b.cursors
            &&& after.cursors.chat == b.cursors.chat && after.cursors.presence == b.cursors.presence
        }),
        skipped(b, chat, presence).cursors.chat == chat,
        skipped(b, chat, presence).cursors.presence == presence,
        skipped(b, chat, presence).cursors.event == b.cursors.event,
        rows.len() > 0 ==> fed(b, rows, Seq::empty()).cursors.chat.id == rows.last().id && fed(
            b,
            rows,
            Seq::empty(),
        ).cursors.presence == b.cursors.presence,
        rows.len() > 0 ==> fed(b, Seq::empty(), rows).cursors.presence.id == rows.last().id && fed(
            b,
            Seq::empty(),
            rows,
        ).cursors.chat == b.cursors.chat,
{
}

/// The channel in the settings is that of the first server, and of no other.
pub proof fn lemma_first_server_has_the_channel(key: Seq<char>, c: config::ConfigText)
    ensures
        key == c.servers[0].key ==> seed_of(key, c) == c.bridge_channel_id,
        key != c.servers[0].key ==> seed_of(key, c) is None,
{
}

} // verus!
