//! The logger in the game, from one event to the next.
//!
//! The client hands each event over and performs the actions that come back, in
//! order. What only the client can find out comes in through
//! [`Logger::session_opened`], [`Logger::portal_walk_over`] and
//! [`Logger::probe_saved`].
use vstd::prelude::*;
use vstd::string::*;

use crate::classify;
use crate::classify::Classifier;
use crate::deaths;
use crate::logger;
use crate::logger::{ChatContext, ChatPacket};
use crate::portal;
use crate::presence;
use crate::presence::{Presence, PresenceContext, TabEvent, TabPacket};
use crate::probe;
use crate::probe::{PluginProbeState, ProbePacket, TabRequest};
use crate::queue;
use crate::queue::{LimboStep, ProbeStep, QueuePattern};
use crate::rows::{ChatRow, PlayerEventRow};
use crate::text;

verus! {

/// How a logger was set up.
pub struct LoggerSettings {
    /// The world lies behind a portal in a lobby.
    pub enter_portal: bool,
    /// An action every so many seconds, at least and at most.
    pub anti_afk: Option<(u64, u64)>,
    /// Only watch the queue.
    pub queue_probe: bool,
    /// Leave the queue at this position.
    pub queue_leave_at: i32,
    /// Ask the server to announce joins and leaves in chat.
    pub connection_msgs: bool,
    /// Take joins and leaves from the tab list.
    pub tablist_joins: bool,
    pub startup_commands: Vec<String>,
    /// Stay in the lobby.
    pub lobby_only: bool,
    pub say_enabled: bool,
    pub say_allow_commands: bool,
    pub say_prefix: String,
    /// Ask for the plugins in chat.
    pub plugin_probe_chat: bool,
    /// A restart countdown of so many seconds marks everyone offline.
    pub restart_offline_secs: u64,
}

/// When something happened.
#[derive(Clone, Copy)]
pub struct Moment {
    /// Milliseconds and microseconds since the epoch.
    pub ms: i64,
    pub us: i64,
    /// Milliseconds on a clock that never goes back.
    pub steady_ms: u64,
}

/// Something for the client to do.
pub enum Action {
    /// Tell the server which plugin channels are accepted.
    RegisterChannels,
    OpenSession,
    CloseSession { session_id: i64, reason: String },
    RecordUsername { session_id: i64, username: String },
    WalkIntoPortal,
    StartAntiAfk { min_secs: u64, max_secs: u64 },
    EnableConnectionMsgs,
    RunStartupCommands,
    GuardLobby,
    Jump,
    Disconnect,
    /// Exit later if the client is still offline then.
    WatchOffline,
    Say(&'static str),
    Complete(TabRequest),
    SaveProbe(PluginProbeState),
    QueueStatus { position: i32, raw: String, in_queue: bool },
    ReportOnline(i32),
    Chat(ChatRow),
    Event(PlayerEventRow),
    ServerRestart { session_id: i64, at: i64 },
    ReconcileOnline { session_id: i64, at: i64, players: Vec<String> },
}

/// The contents of an [`Action`].
#[verifier::ext_equal]
pub enum ActionText {
    RegisterChannels,
    OpenSession,
    CloseSession { session_id: i64, reason: Seq<char> },
    RecordUsername { session_id: i64, username: Seq<char> },
    WalkIntoPortal,
    StartAntiAfk { min_secs: u64, max_secs: u64 },
    EnableConnectionMsgs,
    RunStartupCommands,
    GuardLobby,
    Jump,
    Disconnect,
    WatchOffline,
    Say(Seq<char>),
    Complete { id: u32, command: Seq<char> },
    SaveProbe(probe::ProbeText),
    QueueStatus { position: i32, raw: Seq<char>, in_queue: bool },
    ReportOnline(i32),
    Chat(logger::ChatRowText),
    Event(logger::EventRowText),
    ServerRestart { session_id: i64, at: i64 },
    ReconcileOnline { session_id: i64, at: i64, players: Seq<Seq<char>> },
}

impl View for Action {
    type V = ActionText;

    open spec fn view(&self) -> ActionText {
        match *self {
            Action::RegisterChannels => ActionText::RegisterChannels,
            Action::OpenSession => ActionText::OpenSession,
            Action::CloseSession { session_id, reason } => ActionText::CloseSession {
                session_id,
                reason: reason@,
            },
            Action::RecordUsername { session_id, username } => ActionText::RecordUsername {
                session_id,
                username: username@,
            },
            Action::WalkIntoPortal => ActionText::WalkIntoPortal,
            Action::StartAntiAfk { min_secs, max_secs } => ActionText::StartAntiAfk {
                min_secs,
                max_secs,
            },
            Action::EnableConnectionMsgs => ActionText::EnableConnectionMsgs,
            Action::RunStartupCommands => ActionText::RunStartupCommands,
            Action::GuardLobby => ActionText::GuardLobby,
            Action::Jump => ActionText::Jump,
            Action::Disconnect => ActionText::Disconnect,
            Action::WatchOffline => ActionText::WatchOffline,
            Action::Say(line) => ActionText::Say(line@),
            Action::Complete(r) => ActionText::Complete { id: r.id, command: r.command@ },
            Action::SaveProbe(p) => ActionText::SaveProbe(p@),
            Action::QueueStatus { position, raw, in_queue } => ActionText::QueueStatus {
                position,
                raw: raw@,
                in_queue,
            },
            Action::ReportOnline(n) => ActionText::ReportOnline(n),
            Action::Chat(row) => ActionText::Chat(logger::chat_row_text(row)),
            Action::Event(row) => ActionText::Event(logger::event_row_text(row)),
            Action::ServerRestart { session_id, at } => ActionText::ServerRestart {
                session_id,
                at,
            },
            Action::ReconcileOnline { session_id, at, players } => ActionText::ReconcileOnline {
                session_id,
                at,
                players: text::texts(players@),
            },
        }
    }
}

pub open spec fn action_texts(v: Seq<Action>) -> Seq<ActionText> {
    Seq::new(v.len(), |i: int| v[i]@)
}

/// Puts an action behind the others.
fn act(actions: &mut Vec<Action>, action: Action)
    ensures
        action_texts(final(actions)@) == action_texts(old(actions)@).push(action@),
{
    let ghost before = actions@;
    actions.push(action);
    assert(action_texts(actions@) =~= action_texts(before).push(action@));
}

/// No actions.
fn none() -> (actions: Vec<Action>)
    ensures
        action_texts(actions@) == Seq::<ActionText>::empty(),
{
    let actions: Vec<Action> = Vec::new();
    assert(action_texts(actions@) =~= Seq::<ActionText>::empty());
    actions
}

pub open spec fn and_if(actions: Seq<ActionText>, due: bool, action: ActionText) -> Seq<ActionText> {
    if due {
        actions.push(action)
    } else {
        actions
    }
}

/// Where a logger stands.
#[derive(Clone, Copy)]
pub struct Place {
    pub connected: bool,
    /// When the last login was; zero before any.
    pub login_at_ms: i64,
    /// How many logins there were; it starts over where it is full.
    pub logins: u32,
    pub session_id: i64,
    pub portal_walking: bool,
    pub in_main_world: bool,
    pub anti_afk_started: bool,
    pub queue_leaving: bool,
    pub in_queue_limbo: bool,
    pub connection_msgs_sent: bool,
    pub startup_commands_sent: bool,
    pub lobby_escape_leaving: bool,
    /// The last count that the server gave of its players; -1 before any.
    pub reported_online: i64,
    pub last_count_ms: Option<u64>,
}

/// Before the first login.
pub open spec fn outside(session_id: i64) -> Place {
    Place {
        connected: false,
        login_at_ms: 0,
        logins: 0,
        session_id,
        portal_walking: false,
        in_main_world: false,
        anti_afk_started: false,
        queue_leaving: false,
        in_queue_limbo: false,
        connection_msgs_sent: false,
        startup_commands_sent: false,
        lobby_escape_leaving: false,
        reported_online: -1i64,
        last_count_ms: None,
    }
}

/// A logger in the game.
pub struct Logger {
    pub settings: LoggerSettings,
    pub place: Place,
    pub bot_username: Option<String>,
    pub presence: Presence,
    pub probe: PluginProbeState,
}

/// The contents of a [`Logger`], but for its settings.
#[verifier::ext_equal]
pub struct LoggerText {
    pub place: Place,
    pub bot: Option<Seq<char>>,
    pub presence: presence::PresenceText,
    pub probe: probe::ProbeText,
}

impl View for Logger {
    type V = LoggerText;

    open spec fn view(&self) -> LoggerText {
        LoggerText {
            place: self.place,
            bot: text::opt_text(self.bot_username),
            presence: self.presence@,
            probe: self.probe@,
        }
    }
}

/// A place and the actions so far.
pub type Step = (Place, Seq<ActionText>);

/// Whether what the logger sees is kept out of the feed.
pub open spec fn quiet(s: LoggerSettings, at: Place) -> bool {
    queue::suppressed(s.queue_probe, at.in_queue_limbo, s.enter_portal, at.in_main_world)
}

pub open spec fn presence_context(s: LoggerSettings, l: LoggerText, now: Moment) -> presence::ContextText {
    presence::ContextText {
        suppressed: quiet(s, l.place),
        bot: l.bot,
        tablist_joins: s.tablist_joins,
        login_at_ms: l.place.login_at_ms as int,
        now_ms: now.ms as int,
    }
}

/// The row for an event that the tab list gave.
pub open spec fn tab_row(session_id: i64, now: Moment, e: presence::TabEventText) -> logger::EventRowText {
    logger::EventRowText {
        session_id,
        occurred_at: now.us,
        event_type: e.event_type,
        source: "t"@,
        player_name: e.name,
        player_uuid: Some(e.uuid),
        ansi: None,
    }
}

/// The rows for the events that the tab list gave.
pub open spec fn tab_rows(session_id: i64, now: Moment, events: Seq<presence::TabEventText>) -> Seq<
    ActionText,
> {
    Seq::new(events.len(), |i: int| ActionText::Event(tab_row(session_id, now, events[i])))
}

pub open spec fn opt_rows(
    session_id: i64,
    now: Moment,
    event: Option<presence::TabEventText>,
) -> Seq<ActionText> {
    match event {
        Some(e) => seq![ActionText::Event(tab_row(session_id, now, e))],
        None => Seq::empty(),
    }
}

/// Everyone online but the logger, to be held against the log, where anyone is.
pub open spec fn reconciled(s: LoggerSettings, l: LoggerText, now: Moment) -> Seq<ActionText> {
    let players = presence::others(l.presence.online, l.bot);
    if quiet(s, l.place) || players.len() == 0 {
        Seq::empty()
    } else {
        seq![ActionText::ReconcileOnline { session_id: l.place.session_id, at: now.us, players }]
    }
}

pub open spec fn next_login(logins: u32) -> u32 {
    if logins == u32::MAX {
        0
    } else {
        (logins + 1) as u32
    }
}

/// Where a logger stands after a login.
pub open spec fn connected_at(at: Place, now: Moment) -> Place {
    Place {
        connected: true,
        login_at_ms: now.ms,
        logins: next_login(at.logins),
        queue_leaving: false,
        connection_msgs_sent: false,
        startup_commands_sent: false,
        ..at
    }
}

/// Walks into the portal, where there is one and nobody walks yet.
pub open spec fn walk_step(s: LoggerSettings, step: Step) -> Step {
    if s.enter_portal && !step.0.portal_walking {
        (Place { portal_walking: true, ..step.0 }, step.1.push(ActionText::WalkIntoPortal))
    } else {
        step
    }
}

pub open spec fn afk_step(s: LoggerSettings, step: Step) -> Step {
    match s.anti_afk {
        Some((min_secs, max_secs)) if !step.0.anti_afk_started => (
            Place { anti_afk_started: true, ..step.0 },
            step.1.push(ActionText::StartAntiAfk { min_secs, max_secs }),
        ),
        _ => step,
    }
}

pub open spec fn msgs_step(s: LoggerSettings, step: Step) -> Step {
    if s.connection_msgs && !step.0.connection_msgs_sent {
        (
            Place { connection_msgs_sent: true, ..step.0 },
            step.1.push(ActionText::EnableConnectionMsgs),
        )
    } else {
        step
    }
}

pub open spec fn commands_step(s: LoggerSettings, step: Step) -> Step {
    if s.startup_commands@.len() > 0 && !step.0.startup_commands_sent {
        (
            Place { startup_commands_sent: true, ..step.0 },
            step.1.push(ActionText::RunStartupCommands),
        )
    } else {
        step
    }
}

/// Whether the logger stays in the lobby.
pub open spec fn stays_in_lobby(s: LoggerSettings) -> bool {
    s.lobby_only && !s.enter_portal && !s.queue_probe
}

pub open spec fn guard_step(s: LoggerSettings, step: Step) -> Step {
    if stays_in_lobby(s) {
        (
            Place { lobby_escape_leaving: false, ..step.0 },
            step.1.push(ActionText::GuardLobby),
        )
    } else {
        step
    }
}

/// What is done once the client stands in a world. One that only watches the
/// queue does nothing there: the queue is a world too.
pub open spec fn settled_in(s: LoggerSettings, at: Place, username: Seq<char>) -> Step {
    let named = seq![ActionText::RecordUsername { session_id: at.session_id, username }];
    if s.queue_probe {
        (at, named)
    } else {
        let placed = (
            Place { in_main_world: at.in_main_world || !s.enter_portal, ..at },
            named,
        );
        guard_step(s, commands_step(s, msgs_step(s, afk_step(s, walk_step(s, placed)))))
    }
}

/// The probe for plugins, which starts at the login or else when the client
/// stands in a world.
pub open spec fn started(p: probe::ProbeText, now_ms: i64) -> probe::ProbeText {
    if p.start_ms == 0 {
        probe::ProbeText { start_ms: now_ms as int, ..p }
    } else {
        p
    }
}

/// What the probe for plugins asks for on a tick.
pub open spec fn probe_actions(p: probe::ProbeText, chat_probe: bool, now_ms: i64) -> Seq<ActionText> {
    if !probe::running(p) {
        Seq::empty()
    } else {
        let counted = probe::counted(p, chat_probe);
        let said = match probe::said(p, chat_probe) {
            Some(line) => seq![ActionText::Say(line)],
            None => Seq::empty(),
        };
        let asked = and_if(
            said,
            counted.ticks == probe::TAB_TICK && probe::asks(counted),
            ActionText::Complete {
                id: probe::tab_id(now_ms),
                command: counted.alias->0 + " "@,
            },
        );
        and_if(
            asked,
            counted.ticks >= probe::LAST_TICK,
            ActionText::SaveProbe(probe::ProbeText { waiting_chat: false, ..counted }),
        )
    }
}

/// What a look at the tab list makes of a logger: those who are gone have left,
/// and a list that has settled is held against the log.
pub open spec fn looked(
    s: LoggerSettings,
    l: LoggerText,
    tab: Option<Set<u128>>,
    now: Moment,
) -> (LoggerText, Seq<ActionText>) {
    let (list, events) = presence::checked(l.presence, presence_context(s, l, now), tab);
    let after = LoggerText { presence: list, ..l };
    let rows = tab_rows(l.place.session_id, now, events);
    (
        after,
        if list.settled && !l.presence.settled {
            rows + reconciled(s, after, now)
        } else {
            rows
        },
    )
}

/// The completion that a packet makes the probe ask for.
pub open spec fn completion(heard: probe::ProbeText, packet: ProbePacket, now: Moment) -> Seq<
    ActionText,
> {
    and_if(
        Seq::empty(),
        packet is Commands && probe::asks(heard),
        ActionText::Complete { id: probe::tab_id(now.ms), command: heard.alias->0 + " "@ },
    )
}

/// What a packet makes of the probe. Once the report is saved nothing is heard
/// any more.
pub open spec fn probed(p: probe::ProbeText, packet: ProbePacket, now: Moment) -> (
    probe::ProbeText,
    Seq<ActionText>,
) {
    let heard = probe::heard(p, packet);
    if p.saved {
        (p, Seq::empty())
    } else if packet is Commands {
        (probe::asked(heard, now.ms), completion(heard, packet, now))
    } else {
        (heard, Seq::empty())
    }
}

/// The text that a packet shows outside of chat.
pub enum ShownText {
    /// The header and footer of the tab list.
    TabList(String),
    /// The action bar or the name of a boss bar.
    Bar(String),
}

pub open spec fn shown(t: ShownText) -> Seq<char> {
    match t {
        ShownText::TabList(s) => s@,
        ShownText::Bar(s) => s@,
    }
}

/// How long ago a write was.
pub open spec fn since(last: Option<u64>, now_ms: u64) -> Option<int> {
    match last {
        Some(at) => Some(
            if now_ms >= at {
                now_ms - at
            } else {
                0
            },
        ),
        None => None,
    }
}

/// Reports the count in a tab list, where there is one that is due.
pub open spec fn count_step(at: Place, t: ShownText, now: Moment) -> Step {
    if t is TabList && queue::online_count(shown(t)) is Some {
        let count = queue::online_count(shown(t))->0 as i64;
        let due = queue::writes_count(
            at.reported_online as int,
            count as int,
            since(at.last_count_ms, now.steady_ms),
        );
        (
            Place {
                reported_online: count,
                last_count_ms: if due {
                    Some(now.steady_ms)
                } else {
                    at.last_count_ms
                },
                ..at
            },
            and_if(Seq::empty(), due, ActionText::ReportOnline(count as i32)),
        )
    } else {
        (at, Seq::empty())
    }
}

/// Whether a line takes the logger into the queue.
pub open spec fn enters_limbo(s: LoggerSettings, at: Place, line: Seq<char>) -> bool {
    let did = queue::limbo_step(line, at.in_queue_limbo);
    !s.queue_probe && (did == LimboStep::Enter || did == LimboStep::EnterAndLeave)
}

/// What a line about the queue does.
pub open spec fn queue_step(s: LoggerSettings, step: Step, line: Seq<char>) -> Step {
    let at = step.0;
    if s.queue_probe {
        let did = queue::probe_step(line, s.queue_leave_at as int, at.queue_leaving);
        let after = Place { queue_leaving: queue::leaves(did, at.queue_leaving), ..at };
        match did {
            ProbeStep::Nothing => (after, step.1),
            ProbeStep::Reached => (
                after,
                step.1.push(
                    ActionText::QueueStatus { position: 0, raw: line, in_queue: false },
                ).push(ActionText::Disconnect),
            ),
            ProbeStep::Position { position, leave } => (
                after,
                and_if(
                    step.1.push(ActionText::QueueStatus { position, raw: line, in_queue: true }),
                    leave,
                    ActionText::Disconnect,
                ),
            ),
        }
    } else {
        let did = queue::limbo_step(line, at.in_queue_limbo);
        let closed = and_if(
            step.1,
            enters_limbo(s, at, line),
            ActionText::CloseSession { session_id: at.session_id, reason: "queue limbo"@ },
        );
        (
            Place { in_queue_limbo: queue::in_limbo_after(did, at.in_queue_limbo), ..at },
            and_if(
                closed,
                did == LimboStep::Leave || did == LimboStep::EnterAndLeave,
                ActionText::OpenSession,
            ),
        )
    }
}

/// The list after a line about the queue: a logger in the queue forgets who is
/// online.
pub open spec fn list_after(
    s: LoggerSettings,
    at: Place,
    list: presence::PresenceText,
    line: Seq<char>,
) -> presence::PresenceText {
    if enters_limbo(s, at, line) {
        presence::cleared(list)
    } else {
        list
    }
}

/// Whether chat says that the client was dumped on a survival worker.
pub open spec fn dumped(lower: Seq<char>) -> bool {
    (text::has_text(lower, "playing on"@) && text::has_text(lower, "worker"@)) || text::has_text(
        lower,
        "you're now playing on worker"@,
    )
}

/// Whether chat says that the client is back in the lobby.
pub open spec fn back_in_lobby(lower: Seq<char>) -> bool {
    text::has_text(lower, "backup server"@) || text::has_text(lower, "bottom of the world"@)
}

pub open spec fn lobby_step(s: LoggerSettings, step: Step, lower: Seq<char>) -> Step {
    if stays_in_lobby(s) && dumped(lower) && !step.0.lobby_escape_leaving {
        (
            Place { lobby_escape_leaving: true, ..step.0 },
            step.1.push(ActionText::Disconnect),
        )
    } else {
        step
    }
}

/// What a line of chat does to where the client stands.
pub open spec fn line_heard(s: LoggerSettings, at: Place, line: Seq<char>) -> Step {
    let lower = text::unicode_lower(line);
    let start: Step = (at, Seq::empty());
    let walked = if back_in_lobby(lower) {
        walk_step(s, start)
    } else {
        start
    };
    queue_step(s, lobby_step(s, walked, lower), line)
}

/// What is written of a line of chat.
pub open spec fn line_rows(
    s: LoggerSettings,
    l: LoggerText,
    packet: logger::PacketText,
    line: classify::LineText,
    now: Moment,
) -> Seq<ActionText> {
    let chat = match logger::chat_row(l.place.session_id, now.us, packet, line) {
        Some(row) => seq![ActionText::Chat(row)],
        None => Seq::empty(),
    };
    let restarted = and_if(
        chat,
        logger::restarts_now(packet, line, s.restart_offline_secs as int),
        ActionText::ServerRestart { session_id: l.place.session_id, at: now.us },
    );
    match logger::announced_event(
        l.place.session_id,
        now.us,
        s.tablist_joins,
        l.bot,
        packet,
        line,
    ) {
        Some(row) => restarted.push(ActionText::Event(row)),
        None => restarted,
    }
}

/// What a line of chat that is written makes of the list: a countdown that ran
/// out takes everyone off it.
pub open spec fn list_restarted(
    s: LoggerSettings,
    list: presence::PresenceText,
    packet: logger::PacketText,
    line: classify::LineText,
) -> presence::PresenceText {
    if logger::restarts_now(packet, line, s.restart_offline_secs as int) {
        presence::PresenceText { online: Seq::empty(), ..list }
    } else {
        list
    }
}

/// Where a logger stands after the connection is lost.
pub open spec fn cut_off(at: Place) -> Place {
    Place { connected: false, portal_walking: false, in_main_world: false, ..at }
}

impl LoggerSettings {
    fn stays_in_lobby(&self) -> (b: bool)
        ensures
            b == stays_in_lobby(*self),
    {
        self.lobby_only && !self.enter_portal && !self.queue_probe
    }
}

fn start_portal_walk(s: &LoggerSettings, at: &mut Place, actions: &mut Vec<Action>)
    ensures
        (*final(at), action_texts(final(actions)@)) == walk_step(
            *s,
            (*old(at), action_texts(old(actions)@)),
        ),
{
    if s.enter_portal && !at.portal_walking {
        at.portal_walking = true;
        act(actions, Action::WalkIntoPortal);
    }
}

fn start_anti_afk(s: &LoggerSettings, at: &mut Place, actions: &mut Vec<Action>)
    ensures
        (*final(at), action_texts(final(actions)@)) == afk_step(
            *s,
            (*old(at), action_texts(old(actions)@)),
        ),
{
    if let Some((min_secs, max_secs)) = s.anti_afk {
        if !at.anti_afk_started {
            at.anti_afk_started = true;
            act(actions, Action::StartAntiAfk { min_secs, max_secs });
        }
    }
}

fn enable_connection_msgs(s: &LoggerSettings, at: &mut Place, actions: &mut Vec<Action>)
    ensures
        (*final(at), action_texts(final(actions)@)) == msgs_step(
            *s,
            (*old(at), action_texts(old(actions)@)),
        ),
{
    if s.connection_msgs && !at.connection_msgs_sent {
        at.connection_msgs_sent = true;
        act(actions, Action::EnableConnectionMsgs);
    }
}

fn run_startup_commands(s: &LoggerSettings, at: &mut Place, actions: &mut Vec<Action>)
    ensures
        (*final(at), action_texts(final(actions)@)) == commands_step(
            *s,
            (*old(at), action_texts(old(actions)@)),
        ),
{
    if s.startup_commands.len() > 0 && !at.startup_commands_sent {
        at.startup_commands_sent = true;
        act(actions, Action::RunStartupCommands);
    }
}

fn start_lobby_stay_guard(s: &LoggerSettings, at: &mut Place, actions: &mut Vec<Action>)
    ensures
        (*final(at), action_texts(final(actions)@)) == guard_step(
            *s,
            (*old(at), action_texts(old(actions)@)),
        ),
{
    if s.stays_in_lobby() {
        at.lobby_escape_leaving = false;
        act(actions, Action::GuardLobby);
    }
}

/// What is done once the client stands in a world.
pub fn settle_in(s: &LoggerSettings, at: &mut Place, username: &str) -> (actions: Vec<Action>)
    ensures
        (*final(at), action_texts(actions@)) == settled_in(*s, *old(at), username@),
{
    let mut actions = none();
    act(
        &mut actions,
        Action::RecordUsername { session_id: at.session_id, username: text::copy(username) },
    );
    assert(action_texts(actions@) =~= seq![
        ActionText::RecordUsername { session_id: at.session_id, username: username@ },
    ]);
    if !s.queue_probe {
        if !s.enter_portal {
            at.in_main_world = true;
        }
        start_portal_walk(s, at, &mut actions);
        start_anti_afk(s, at, &mut actions);
        enable_connection_msgs(s, at, &mut actions);
        run_startup_commands(s, at, &mut actions);
        start_lobby_stay_guard(s, at, &mut actions);
    }
    actions
}

fn note_queue_line(
    s: &LoggerSettings,
    at: &mut Place,
    p: &QueuePattern,
    actions: &mut Vec<Action>,
    line: &str,
) -> (enters: bool)
    ensures
        (*final(at), action_texts(final(actions)@)) == queue_step(
            *s,
            (*old(at), action_texts(old(actions)@)),
            line@,
        ),
        enters == enters_limbo(*s, *old(at), line@),
{
    if s.queue_probe {
        match queue::apply_queue_probe(p, line, s.queue_leave_at, &mut at.queue_leaving) {
            ProbeStep::Nothing => {},
            ProbeStep::Reached => {
                act(
                    actions,
                    Action::QueueStatus { position: 0, raw: text::copy(line), in_queue: false },
                );
                act(actions, Action::Disconnect);
            },
            ProbeStep::Position { position, leave } => {
                act(
                    actions,
                    Action::QueueStatus { position, raw: text::copy(line), in_queue: true },
                );
                if leave {
                    act(actions, Action::Disconnect);
                }
            },
        }
        false
    } else {
        let step = queue::note_queue_limbo(p, line, &mut at.in_queue_limbo);
        let enters = step == LimboStep::Enter || step == LimboStep::EnterAndLeave;
        if enters {
            act(
                actions,
                Action::CloseSession {
                    session_id: at.session_id,
                    reason: text::copy("queue limbo"),
                },
            );
        }
        if step == LimboStep::Leave || step == LimboStep::EnterAndLeave {
            act(actions, Action::OpenSession);
        }
        enters
    }
}

fn note_online_count(at: &mut Place, shown_text: &ShownText, now: Moment) -> (actions: Vec<Action>)
    ensures
        (*final(at), action_texts(actions@)) == count_step(*old(at), *shown_text, now),
{
    let mut actions = none();
    if let ShownText::TabList(s) = shown_text {
        if let Some(count) = queue::parse_online_count(s) {
            let since_write: Option<u64> = match at.last_count_ms {
                Some(last) => Some(
                    if now.steady_ms >= last {
                        now.steady_ms - last
                    } else {
                        0
                    },
                ),
                None => None,
            };
            let due = queue::should_write_count(at.reported_online, count, since_write);
            at.reported_online = count;
            if due {
                at.last_count_ms = Some(now.steady_ms);
                act(&mut actions, Action::ReportOnline(count as i32));
            }
        }
    }
    actions
}

fn enforce_lobby_stay(s: &LoggerSettings, at: &mut Place, actions: &mut Vec<Action>, lower: &str)
    ensures
        (*final(at), action_texts(final(actions)@)) == lobby_step(
            *s,
            (*old(at), action_texts(old(actions)@)),
            lower@,
        ),
{
    if !s.stays_in_lobby() {
        return;
    }
    let was_dumped = (text::has(lower, "playing on") && text::has(lower, "worker")) || text::has(
        lower,
        "you're now playing on worker",
    );
    if was_dumped && !at.lobby_escape_leaving {
        at.lobby_escape_leaving = true;
        act(actions, Action::Disconnect);
    }
}

/// The actions that a tick of the probe asks for.
fn probe_tick(p: &mut PluginProbeState, chat_probe: bool, now_ms: i64) -> (actions: Vec<Action>)
    requires
        old(p).wf(),
    ensures
        final(p).wf(),
        final(p)@ == probe::ticked(old(p)@, chat_probe, now_ms),
        action_texts(actions@) == probe_actions(old(p)@, chat_probe, now_ms),
{
    let ghost before = p@;
    let tick = probe::plugin_probe_tick(p, chat_probe, now_ms);
    let mut actions = none();
    if let Some(line) = tick.say {
        act(&mut actions, Action::Say(line));
    }
    if let Some(request) = tick.request {
        act(&mut actions, Action::Complete(request));
    }
    if let Some(over) = tick.finished {
        act(&mut actions, Action::SaveProbe(over));
    }
    assert(action_texts(actions@) =~= probe_actions(before, chat_probe, now_ms));
    actions
}

/// The actions that a line of chat gives.
fn outcome_actions(
    s: &LoggerSettings,
    l: &Logger,
    classifier: &Classifier,
    packet: &ChatPacket,
    now: Moment,
) -> (r: (Vec<Action>, bool))
    ensures
        ({
            let line = logger::line_of(deaths::matcher_texts(classifier.deaths@), packet@);
            &&& action_texts(r.0@) == line_rows(*s, l@, packet@, line, now)
            &&& r.1 == logger::restarts_now(packet@, line, s.restart_offline_secs as int)
        }),
{
    let c = ChatContext {
        session_id: l.place.session_id,
        now_us: now.us,
        restart_offline_secs: s.restart_offline_secs,
        tablist_joins: s.tablist_joins,
        bot_username: text::copy_opt(&l.bot_username),
    };
    let outcome = logger::handle_chat(classifier, &c, packet);
    let mut actions = none();
    if let Some(row) = outcome.chat {
        act(&mut actions, Action::Chat(row));
    }
    if outcome.restart {
        act(
            &mut actions,
            Action::ServerRestart { session_id: l.place.session_id, at: now.us },
        );
    }
    if let Some(row) = outcome.event {
        act(&mut actions, Action::Event(row));
    }
    let ghost line = logger::line_of(deaths::matcher_texts(classifier.deaths@), packet@);
    assert(action_texts(actions@) =~= line_rows(*s, l@, packet@, line, now));
    (actions, outcome.restart)
}

impl Logger {
    pub open spec fn wf(self) -> bool {
        self.presence.wf() && self.probe.wf()
    }

    /// A logger before its first login.
    pub fn new(settings: LoggerSettings, session_id: i64) -> (l: Self)
        ensures
            l.wf(),
            l.settings == settings,
            l.place == outside(session_id),
            l@.bot is None,
            l@.presence.online.len() == 0,
            l@.presence == presence::cleared(l@.presence),
            l@.presence.ticks == 0,
            l@.probe == probe::idle(),
    {
        let l = Logger {
            settings,
            place: Place {
                connected: false,
                login_at_ms: 0,
                logins: 0,
                session_id,
                portal_walking: false,
                in_main_world: false,
                anti_afk_started: false,
                queue_leaving: false,
                in_queue_limbo: false,
                connection_msgs_sent: false,
                startup_commands_sent: false,
                lobby_escape_leaving: false,
                reported_online: -1,
                last_count_ms: None,
            },
            bot_username: None,
            presence: Presence::new(),
            probe: PluginProbeState::new(),
        };
        assert(l@.presence =~= presence::cleared(l@.presence));
        l
    }

    fn is_quiet(&self) -> (b: bool)
        ensures
            b == quiet(self.settings, self.place),
    {
        queue::suppress_public_feed(
            self.settings.queue_probe,
            self.place.in_queue_limbo,
            self.settings.enter_portal,
            self.place.in_main_world,
        )
    }

    fn context(&self, now: Moment) -> (c: PresenceContext)
        ensures
            c@ == presence_context(self.settings, self@, now),
    {
        PresenceContext {
            suppressed: self.is_quiet(),
            bot_username: text::copy_opt(&self.bot_username),
            tablist_joins: self.settings.tablist_joins,
            login_at_ms: self.place.login_at_ms,
            now_ms: now.ms,
        }
    }

    /// A session was opened.
    pub fn session_opened(&mut self, id: i64)
        requires
            old(self).wf(),
        ensures
            final(self).wf(),
            final(self).settings == old(self).settings,
            final(self)@ == (LoggerText {
                place: Place { session_id: id, ..old(self)@.place },
                ..old(self)@
            }),
    {
        self.place.session_id = id;
    }

    /// The walk into the portal is over. Only a client that left the lobby for
    /// certain counts as in the world.
    pub fn portal_walk_over(&mut self, left_lobby: bool)
        requires
            old(self).wf(),
        ensures
            final(self).wf(),
            final(self).settings == old(self).settings,
            final(self)@ == (LoggerText {
                place: Place {
                    portal_walking: false,
                    in_main_world: old(self)@.place.in_main_world || left_lobby,
                    ..old(self)@.place
                },
                ..old(self)@
            }),
    {
        self.place.portal_walking = false;
        if left_lobby {
            self.place.in_main_world = true;
        }
    }

    /// The report on the plugins was saved.
    pub fn probe_saved(&mut self)
        requires
            old(self).wf(),
        ensures
            final(self).wf(),
            final(self).settings == old(self).settings,
            final(self)@ == (LoggerText {
                probe: probe::ProbeText { saved: true, ..old(self)@.probe },
                ..old(self)@
            }),
    {
        self.probe.saved = true;
    }

    /// A login: whatever belonged to the last connection is forgotten, and a
    /// connection that is not the first opens a session of its own.
    pub fn on_login(&mut self, now: Moment) -> (actions: Vec<Action>)
        requires
            old(self).wf(),
        ensures
            final(self).wf(),
            final(self).settings == old(self).settings,
            final(self)@ == (LoggerText {
                place: connected_at(old(self)@.place, now),
                bot: old(self)@.bot,
                presence: presence::cleared(old(self)@.presence),
                probe: probe::ProbeText { start_ms: now.ms as int, ..probe::idle() },
            }),
            action_texts(actions@) == and_if(
                seq![ActionText::RegisterChannels],
                old(self)@.place.logins > 0,
                ActionText::OpenSession,
            ),
    {
        let logins: u32 = self.place.logins;
        self.place = Place {
            connected: true,
            login_at_ms: now.ms,
            logins: if logins == u32::MAX {
                0
            } else {
                logins + 1
            },
            queue_leaving: false,
            connection_msgs_sent: false,
            startup_commands_sent: false,
            ..self.place
        };
        self.presence.clear_tab_presence();
        self.probe.restart(now.ms);
        let mut actions = none();
        act(&mut actions, Action::RegisterChannels);
        assert(action_texts(actions@) =~= seq![ActionText::RegisterChannels]);
        if logins > 0 {
            act(&mut actions, Action::OpenSession);
        }
        actions
    }

    /// The client stands in a world.
    pub fn on_spawn(&mut self, username: &str, now: Moment) -> (actions: Vec<Action>)
        requires
            old(self).wf(),
        ensures
            final(self).wf(),
            final(self).settings == old(self).settings,
            ({
                let (at, done) = settled_in(old(self).settings, old(self)@.place, username@);
                &&& final(self)@ == (LoggerText {
                    place: at,
                    bot: Some(username@),
                    presence: old(self)@.presence,
                    probe: started(old(self)@.probe, now.ms),
                })
                &&& action_texts(actions@) == done
            }),
    {
        self.bot_username = Some(text::copy(username));
        if self.probe.probe_start_ms == 0 {
            self.probe.probe_start_ms = now.ms;
        }
        settle_in(&self.settings, &mut self.place, username)
    }

    fn row(&self, now: Moment, event: TabEvent) -> (row: PlayerEventRow)
        ensures
            logger::event_row_text(row) == tab_row(self.place.session_id, now, event@),
    {
        PlayerEventRow {
            session_id: self.place.session_id,
            occurred_at: now.us,
            event_type: text::copy(event.event_type),
            source: text::copy("t"),
            player_name: event.name,
            player_uuid: Some(event.uuid),
            ansi: None,
        }
    }

    fn write_events(&self, now: Moment, events: Vec<TabEvent>) -> (actions: Vec<Action>)
        ensures
            action_texts(actions@) == tab_rows(
                self.place.session_id,
                now,
                presence::tab_events(events@),
            ),
    {
        let ghost all = presence::tab_events(events@);
        let ghost rows = tab_rows(self.place.session_id, now, all);
        let ghost whole = events@;
        let mut rest = events;
        let mut actions = none();
        assert(rows.take(0) =~= Seq::<ActionText>::empty());
        assert(rest@ =~= whole.skip(0));
        let mut i: usize = 0;
        let n: usize = rest.len();
        while i < n
            invariant
                i <= n,
                n == whole.len(),
                rest@ == whole.skip(i as int),
                all == presence::tab_events(whole),
                rows == tab_rows(self.place.session_id, now, all),
                action_texts(actions@) == rows.take(i as int),
            decreases n - i,
        {
            let event = rest.remove(0);
            assert(event == whole[i as int]);
            assert(rest@ =~= whole.skip(i + 1));
            let row = self.row(now, event);
            act(&mut actions, Action::Event(row));
            i = i + 1;
            assert(action_texts(actions@) =~= rows.take(i as int));
        }
        assert(rows.take(n as int) =~= rows);
        actions
    }

    fn write_event(&self, now: Moment, event: Option<TabEvent>) -> (actions: Vec<Action>)
        ensures
            action_texts(actions@) == opt_rows(
                self.place.session_id,
                now,
                presence::opt_event(event),
            ),
    {
        let mut actions = none();
        if let Some(e) = event {
            let row = self.row(now, e);
            act(&mut actions, Action::Event(row));
        }
        assert(action_texts(actions@) =~= opt_rows(
            self.place.session_id,
            now,
            presence::opt_event(event),
        ));
        actions
    }

    /// Holds everyone online against the log. Runs now and then, whatever happens.
    pub fn start_online_reconcile(&self, now: Moment) -> (actions: Vec<Action>)
        ensures
            action_texts(actions@) == reconciled(self.settings, self@, now),
    {
        let mut actions = none();
        if self.is_quiet() {
            return actions;
        }
        let players = self.presence.online_players(&self.bot_username);
        if players.len() > 0 {
            act(
                &mut actions,
                Action::ReconcileOnline { session_id: self.place.session_id, at: now.us, players },
            );
        }
        assert(action_texts(actions@) =~= reconciled(self.settings, self@, now));
        actions
    }

    pub fn on_add_player(&mut self, uuid: u128, name: &str, now: Moment) -> (actions: Vec<Action>)
        requires
            old(self).wf(),
        ensures
            final(self).wf(),
            final(self).settings == old(self).settings,
            ({
                let c = presence_context(old(self).settings, old(self)@, now);
                let (list, event) = presence::joined(old(self)@.presence, c, uuid, name@);
                &&& final(self)@ == (LoggerText { presence: list, ..old(self)@ })
                &&& action_texts(actions@) == opt_rows(old(self)@.place.session_id, now, event)
            }),
    {
        let c = self.context(now);
        let event = self.presence.presence_note_join(&c, uuid, name);
        self.write_event(now, event)
    }

    pub fn on_remove_player(&mut self, uuid: u128, now: Moment) -> (actions: Vec<Action>)
        requires
            old(self).wf(),
        ensures
            final(self).wf(),
            final(self).settings == old(self).settings,
            ({
                let c = presence_context(old(self).settings, old(self)@, now);
                let (list, event) = presence::left(old(self)@.presence, c, uuid);
                &&& final(self)@ == (LoggerText { presence: list, ..old(self)@ })
                &&& action_texts(actions@) == opt_rows(old(self)@.place.session_id, now, event)
            }),
    {
        let c = self.context(now);
        let event = self.presence.presence_note_leave(&c, uuid);
        self.write_event(now, event)
    }

    pub fn on_tab_packet(&mut self, packet: &TabPacket, now: Moment) -> (actions: Vec<Action>)
        requires
            old(self).wf(),
        ensures
            final(self).wf(),
            final(self).settings == old(self).settings,
            ({
                let c = presence_context(old(self).settings, old(self)@, now);
                let (list, events) = presence::packet_step(old(self)@.presence, c, *packet);
                &&& final(self)@ == (LoggerText { presence: list, ..old(self)@ })
                &&& action_texts(actions@) == tab_rows(old(self)@.place.session_id, now, events)
            }),
    {
        let c = self.context(now);
        let events = self.presence.handle_tab_presence_packet(&c, packet);
        self.write_events(now, events)
    }

    /// Looks at the tab list, once in a while.
    fn look(&mut self, tab: &Option<Vec<u128>>, now: Moment) -> (actions: Vec<Action>)
        requires
            old(self).wf(),
        ensures
            final(self).wf(),
            final(self).settings == old(self).settings,
            (final(self)@, action_texts(actions@)) == looked(
                old(self).settings,
                old(self)@,
                match tab {
                    Some(t) => Some(t@.to_set()),
                    None => None,
                },
                now,
            ),
    {
        let c = self.context(now);
        let check = self.presence.maybe_reconcile_tab_presence(&c, tab);
        let mut actions = self.write_events(now, check.events);
        if check.settled {
            let ghost rows = actions@;
            let mut more = self.start_online_reconcile(now);
            let ghost extra = more@;
            actions.append(&mut more);
            assert(action_texts(actions@) =~= action_texts(rows) + action_texts(extra));
        }
        actions
    }

    /// A tick of the game: the probe goes on, and the tab list is looked at.
    /// `height` is the block that the client stands in, where it is known.
    pub fn on_tick(&mut self, tab: &Option<Vec<u128>>, height: Option<i64>, now: Moment) -> (actions:
        Vec<Action>)
        requires
            old(self).wf(),
        ensures
            final(self).wf(),
            final(self).settings == old(self).settings,
            ({
                let s = old(self).settings;
                let (after, seen) = looked(
                    s,
                    old(self)@,
                    match tab {
                        Some(t) => Some(t@.to_set()),
                        None => None,
                    },
                    now,
                );
                &&& final(self)@ == (LoggerText {
                    probe: probe::ticked(old(self)@.probe, s.plugin_probe_chat, now.ms),
                    ..after
                })
                &&& action_texts(actions@) == and_if(
                    probe_actions(old(self)@.probe, s.plugin_probe_chat, now.ms) + seen,
                    s.enter_portal && portal::sinks(height),
                    ActionText::Jump,
                )
            }),
    {
        let mut actions = probe_tick(&mut self.probe, self.settings.plugin_probe_chat, now.ms);
        let ghost asked = actions@;
        let mut seen = self.look(tab, now);
        let ghost more = seen@;
        actions.append(&mut seen);
        assert(action_texts(actions@) =~= action_texts(asked) + action_texts(more));
        if self.settings.enter_portal && portal::is_sinking(height) {
            act(&mut actions, Action::Jump);
        }
        actions
    }

    pub fn on_probe_packet(&mut self, packet: ProbePacket, now: Moment) -> (actions: Vec<Action>)
        requires
            old(self).wf(),
        ensures
            final(self).wf(),
            final(self).settings == old(self).settings,
            ({
                let (heard, asked) = probed(old(self)@.probe, packet, now);
                &&& final(self)@ == (LoggerText { probe: heard, ..old(self)@ })
                &&& action_texts(actions@) == asked
            }),
    {
        let mut actions = none();
        let request = probe::handle_probe_packet(&mut self.probe, packet, now.ms);
        if let Some(r) = request {
            act(&mut actions, Action::Complete(r));
        }
        actions
    }

    /// Takes in a text that is shown outside of chat.
    pub fn on_shown_text(&mut self, p: &QueuePattern, shown_text: &ShownText, now: Moment) -> (actions:
        Vec<Action>)
        requires
            old(self).wf(),
        ensures
            final(self).wf(),
            final(self).settings == old(self).settings,
            ({
                let s = old(self).settings;
                let counted = count_step(old(self)@.place, *shown_text, now);
                let (at, done) = queue_step(s, counted, shown(*shown_text));
                &&& final(self)@ == (LoggerText {
                    place: at,
                    presence: list_after(
                        s,
                        counted.0,
                        old(self)@.presence,
                        shown(*shown_text),
                    ),
                    ..old(self)@
                })
                &&& action_texts(actions@) == done
            }),
    {
        let mut actions = note_online_count(&mut self.place, shown_text, now);
        let line: &str = match shown_text {
            ShownText::TabList(s) => s.as_str(),
            ShownText::Bar(s) => s.as_str(),
        };
        if note_queue_line(&self.settings, &mut self.place, p, &mut actions, line) {
            self.presence.clear_tab_presence();
        }
        actions
    }

    /// The guard of the lobby found the client in the world: leaves, once.
    pub fn leave_main_for_lobby(&mut self) -> (actions: Vec<Action>)
        requires
            old(self).wf(),
        ensures
            final(self).wf(),
            final(self).settings == old(self).settings,
            final(self)@ == (LoggerText {
                place: Place { lobby_escape_leaving: true, ..old(self)@.place },
                ..old(self)@
            }),
            action_texts(actions@) == and_if(
                Seq::empty(),
                !old(self)@.place.lobby_escape_leaving,
                ActionText::Disconnect,
            ),
    {
        let mut actions = none();
        if !self.place.lobby_escape_leaving {
            self.place.lobby_escape_leaving = true;
            act(&mut actions, Action::Disconnect);
        }
        actions
    }

    /// Takes in a line of chat. The actions that come back may open a session;
    /// what is written of the line then comes from [`Logger::log_chat`].
    pub fn on_chat(&mut self, p: &QueuePattern, line: &str) -> (actions: Vec<Action>)
        requires
            old(self).wf(),
        ensures
            final(self).wf(),
            final(self).settings == old(self).settings,
            ({
                let s = old(self).settings;
                let (at, done) = line_heard(s, old(self)@.place, line@);
                &&& final(self)@ == (LoggerText {
                    place: at,
                    presence: list_after(s, old(self)@.place, old(self)@.presence, line@),
                    ..old(self)@
                })
                &&& action_texts(actions@) == done
            }),
    {
        let lower = text::to_lowercase(line);
        let mut actions = none();
        if text::has(&lower, "backup server") || text::has(&lower, "bottom of the world") {
            start_portal_walk(&self.settings, &mut self.place, &mut actions);
        }
        enforce_lobby_stay(&self.settings, &mut self.place, &mut actions, &lower);
        if note_queue_line(&self.settings, &mut self.place, p, &mut actions, line) {
            self.presence.clear_tab_presence();
        }
        actions
    }

    /// Writes what there is to write of a line of chat.
    pub fn log_chat(&mut self, classifier: &Classifier, packet: &ChatPacket, now: Moment) -> (actions:
        Vec<Action>)
        requires
            old(self).wf(),
        ensures
            final(self).wf(),
            final(self).settings == old(self).settings,
            quiet(old(self).settings, old(self).place) ==> final(self)@ == old(self)@
                && actions@.len() == 0,
            !quiet(old(self).settings, old(self).place) ==> {
                let s = old(self).settings;
                let line = logger::line_of(deaths::matcher_texts(classifier.deaths@), packet@);
                &&& final(self)@ == (LoggerText {
                    probe: probe::heard_chat(old(self)@.probe, packet@.plain),
                    presence: list_restarted(s, old(self)@.presence, packet@, line),
                    ..old(self)@
                })
                &&& action_texts(actions@) == line_rows(s, old(self)@, packet@, line, now)
            },
    {
        if self.is_quiet() {
            return Vec::new();
        }
        let (actions, restart) = outcome_actions(&self.settings, self, classifier, packet, now);
        probe::hear_chat(&mut self.probe, &packet.plain_text);
        if restart {
            let _ = self.presence.retire_all();
        }
        actions
    }

    /// The connection is lost.
    pub fn on_disconnect(&mut self, reason: &Option<String>) -> (actions: Vec<Action>)
        requires
            old(self).wf(),
        ensures
            final(self).wf(),
            final(self).settings == old(self).settings,
            final(self)@ == disconnected(old(self)@),
            action_texts(actions@) == leaving(old(self)@.place.session_id, text::opt_text(*reason)),
    {
        self.place.connected = false;
        self.place.portal_walking = false;
        self.place.in_main_world = false;
        self.presence.clear_tab_presence();
        let why: &str = match reason {
            Some(r) => r.as_str(),
            None => "unknown",
        };
        let mut actions = none();
        act(
            &mut actions,
            Action::CloseSession {
                session_id: self.place.session_id,
                reason: text::cat2("disconnected: ", why),
            },
        );
        act(&mut actions, Action::WatchOffline);
        actions
    }
}

/// A logger that waits in the queue writes nothing: the line that takes it there
/// pauses the feed, unless it says in the same breath that the wait is over.
pub proof fn lemma_queue_pauses_the_feed(
    s: LoggerSettings,
    at: Place,
    actions: Seq<ActionText>,
    line: Seq<char>,
)
    requires
        enters_limbo(s, at, line),
        !queue::connected_line(line),
    ensures
        quiet(s, queue_step(s, (at, actions), line).0),
{
}

/// Behind a portal nothing is written from the loss of a connection until a walk
/// has left the lobby.
pub proof fn lemma_lobby_is_not_the_world(s: LoggerSettings, at: Place, username: Seq<char>)
    requires
        s.enter_portal,
    ensures
        quiet(s, cut_off(at)),
        quiet(s, settled_in(s, cut_off(at), username).0),
{
}

/// One walk at a time.
pub proof fn lemma_one_walk(s: LoggerSettings, step: Step)
    ensures
        walk_step(s, walk_step(s, step)) == walk_step(s, step),
{
}

/// A probe in the queue writes no chat and no presence, whatever it sees.
pub proof fn lemma_probes_only_watch(s: LoggerSettings, at: Place)
    requires
        s.queue_probe,
    ensures
        quiet(s, at),
{
}

// ---------------------------------------------------------------------------
// What happens when
// ---------------------------------------------------------------------------

/// A login is noted with its time, and what belongs to the last one is forgotten; the
/// session and the place stay.
pub proof fn lemma_logins(at: Place, now: Moment)
    ensures
        ({
            let p = connected_at(at, now);
            &&& p.connected
            &&& p.login_at_ms == now.ms
            &&& at.logins < u32::MAX ==> p.logins == at.logins + 1
            &&& !p.queue_leaving && !p.connection_msgs_sent && !p.startup_commands_sent
            &&& p.session_id == at.session_id && p.in_main_world == at.in_main_world
            &&& p.in_queue_limbo == at.in_queue_limbo && p.reported_online == at.reported_online
        }),
        ({
            let p = cut_off(at);
            &&& !p.connected && !p.portal_walking && !p.in_main_world
            &&& p.session_id == at.session_id && p.in_queue_limbo == at.in_queue_limbo
        }),
        !outside(at.session_id).connected,
        outside(at.session_id).session_id == at.session_id,
        outside(at.session_id).reported_online == -1,
        !outside(at.session_id).in_queue_limbo && !outside(at.session_id).in_main_world,
{
}

/// Whoever enters is recorded by name under the session. What the settings ask for is done
/// once each: to walk into the portal, to move about, to have joins announced, to run the
/// commands, to guard the lobby; a probe does none of it.
pub proof fn lemma_entering(s: LoggerSettings, at: Place, username: Seq<char>)
    ensures
        ({
            let (after, actions) = settled_in(s, at, username);
            &&& actions.len() > 0 && actions[0] == (ActionText::RecordUsername {
                session_id: at.session_id,
                username,
            })
            &&& s.queue_probe ==> actions.len() == 1 && after == at
            &&& !s.queue_probe ==> {
                &&& s.enter_portal && !at.portal_walking <==> actions.contains(
                    ActionText::WalkIntoPortal,
                )
                &&& s.anti_afk is Some && !at.anti_afk_started ==> actions.contains(
                    ActionText::StartAntiAfk {
                        min_secs: (s.anti_afk->0).0,
                        max_secs: (s.anti_afk->0).1,
                    },
                )
                &&& s.connection_msgs && !at.connection_msgs_sent <==> actions.contains(
                    ActionText::EnableConnectionMsgs,
                )
                &&& s.startup_commands@.len() > 0 && !at.startup_commands_sent <==> actions.contains(
                    ActionText::RunStartupCommands,
                )
                &&& s.lobby_only && !s.enter_portal <==> actions.contains(ActionText::GuardLobby)
                &&& !s.enter_portal ==> after.in_main_world
                &&& s.enter_portal ==> after.in_main_world == at.in_main_world
            }
        }),
{
    if !s.queue_probe {
        let named = seq![ActionText::RecordUsername { session_id: at.session_id, username }];
        let placed = (Place { in_main_world: at.in_main_world || !s.enter_portal, ..at }, named);
        let a = walk_step(s, placed);
        let b = afk_step(s, a);
        let c = msgs_step(s, b);
        let d = commands_step(s, c);
        let e = guard_step(s, d);
        let walk = ActionText::WalkIntoPortal;
        let msgs = ActionText::EnableConnectionMsgs;
        let run = ActionText::RunStartupCommands;
        let guard = ActionText::GuardLobby;
        let afk = ActionText::StartAntiAfk {
            min_secs: (s.anti_afk->0).0,
            max_secs: (s.anti_afk->0).1,
        };
        assert forall|x: ActionText, v: Seq<ActionText>, y: ActionText| #[trigger]
            v.push(x).contains(y) <==> v.contains(y) || x == y by {
            if v.contains(y) {
                let i = choose|i: int| 0 <= i < v.len() && v[i] == y;
                assert(v.push(x)[i] == y);
            }
            if x == y {
                assert(v.push(x)[v.len() as int] == y);
            }
        }
        assert(named =~= Seq::empty().push(named[0]));
        assert(!named.contains(walk) && !named.contains(msgs) && !named.contains(run)
            && !named.contains(guard));
        assert(a.1.contains(walk) <==> s.enter_portal && !at.portal_walking);
        assert(b.1.contains(walk) <==> a.1.contains(walk));
        assert(s.anti_afk is Some && !at.anti_afk_started ==> b.1.contains(afk));
        assert(c.1.contains(walk) <==> b.1.contains(walk));
        assert(c.1.contains(msgs) <==> s.connection_msgs && !at.connection_msgs_sent);
        assert(b.1.contains(afk) ==> c.1.contains(afk));
        assert(d.1.contains(walk) <==> c.1.contains(walk));
        assert(d.1.contains(msgs) <==> c.1.contains(msgs));
        assert(d.1.contains(run) <==> s.startup_commands@.len() > 0 && !at.startup_commands_sent);
        assert(c.1.contains(afk) ==> d.1.contains(afk));
        assert(e.1.contains(walk) <==> d.1.contains(walk));
        assert(e.1.contains(msgs) <==> d.1.contains(msgs));
        assert(e.1.contains(run) <==> d.1.contains(run));
        assert(e.1.contains(guard) <==> stays_in_lobby(s));
        assert(d.1.contains(afk) ==> e.1.contains(afk));
    }
}

/// A join or leave of the list is written as an event of that player with that id.
pub proof fn lemma_list_events_are_written(
    session_id: i64,
    now: Moment,
    events: Seq<presence::TabEventText>,
    i: int,
)
    requires
        0 <= i < events.len(),
    ensures
        tab_rows(session_id, now, events).len() == events.len(),
        tab_rows(session_id, now, events)[i] matches ActionText::Event(row) && {
            &&& row.session_id == session_id
            &&& row.occurred_at == now.us
            &&& row.event_type == events[i].event_type
            &&& row.source == "t"@
            &&& row.player_name == events[i].name
            &&& row.player_uuid == Some(events[i].uuid)
        },
{
}

/// A settled list is written with everyone on it but this account, unless the feed is
/// paused.
pub proof fn lemma_lists_are_written(s: LoggerSettings, l: LoggerText, now: Moment)
    ensures
        quiet(s, l.place) ==> reconciled(s, l, now).len() == 0,
        !quiet(s, l.place) && presence::others(l.presence.online, l.bot).len() > 0 ==> reconciled(
            s,
            l,
            now,
        ) == seq![
            ActionText::ReconcileOnline {
                session_id: l.place.session_id,
                at: now.us,
                players: presence::others(l.presence.online, l.bot),
            },
        ],
{
}

/// Of a line the chat is written, the restart it tells of, and the join or leave it
/// announces; a restart empties the list.
pub proof fn lemma_lines_are_written(
    s: LoggerSettings,
    l: LoggerText,
    packet: logger::PacketText,
    line: classify::LineText,
    now: Moment,
)
    ensures
        ({
            let rows = line_rows(s, l, packet, line, now);
            let chat = logger::chat_row(l.place.session_id, now.us, packet, line);
            let event = logger::announced_event(
                l.place.session_id,
                now.us,
                s.tablist_joins,
                l.bot,
                packet,
                line,
            );
            let restart = logger::restarts_now(packet, line, s.restart_offline_secs as int);
            &&& chat matches Some(row) ==> rows.contains(ActionText::Chat(row))
            &&& event matches Some(row) ==> rows.contains(ActionText::Event(row))
            &&& restart ==> rows.contains(
                ActionText::ServerRestart { session_id: l.place.session_id, at: now.us },
            )
            &&& chat is None && event is None && !restart ==> rows.len() == 0
            &&& restart ==> list_restarted(s, l.presence, packet, line).online.len() == 0
            &&& !restart ==> list_restarted(s, l.presence, packet, line) == l.presence
        }),
{
    let rows = line_rows(s, l, packet, line, now);
    let chat = logger::chat_row(l.place.session_id, now.us, packet, line);
    let event = logger::announced_event(
        l.place.session_id,
        now.us,
        s.tablist_joins,
        l.bot,
        packet,
        line,
    );
    let restart = logger::restarts_now(packet, line, s.restart_offline_secs as int);
    if let Some(row) = chat {
        assert(rows[0] == ActionText::Chat(row));
    }
    if let Some(row) = event {
        assert(rows[rows.len() - 1] == ActionText::Event(row));
    }
    if restart {
        let i: int = if chat is Some {
            1
        } else {
            0
        };
        assert(rows[i] == (ActionText::ServerRestart {
            session_id: l.place.session_id,
            at: now.us,
        }));
    }
}

/// In the queue the session is closed, and the list with it; back on the server a new one
/// is opened.
pub proof fn lemma_queue_closes_the_session(
    s: LoggerSettings,
    at: Place,
    list: presence::PresenceText,
    line: Seq<char>,
)
    requires
        !s.queue_probe,
    ensures
        ({
            let (after, actions) = queue_step(s, (at, Seq::empty()), line);
            &&& queue::queue_line(line) && !queue::connected_line(line) && !at.in_queue_limbo ==> {
                &&& actions == seq![
                    ActionText::CloseSession { session_id: at.session_id, reason: "queue limbo"@ },
                ]
                &&& after.in_queue_limbo
                &&& list_after(s, at, list, line) == presence::cleared(list)
            }
            &&& queue::connected_line(line) && at.in_queue_limbo ==> {
                &&& actions == seq![ActionText::OpenSession]
                &&& !after.in_queue_limbo
                &&& list_after(s, at, list, line) == list
            }
            &&& !queue::queue_line(line) && !queue::connected_line(line) ==> actions.len() == 0 && after
                == at
        }),
{
    let (after, actions) = queue_step(s, (at, Seq::empty()), line);
    if queue::queue_line(line) && !queue::connected_line(line) && !at.in_queue_limbo {
        assert(actions =~= seq![
            ActionText::CloseSession { session_id: at.session_id, reason: "queue limbo"@ },
        ]);
    }
    if queue::connected_line(line) && at.in_queue_limbo {
        assert(actions =~= seq![ActionText::OpenSession]);
    }
}

/// A probe notes its place in the queue, and leaves once it is far enough ahead or on the
/// server.
pub proof fn lemma_probes_note_their_place(s: LoggerSettings, at: Place, line: Seq<char>)
    requires
        s.queue_probe,
        !at.queue_leaving,
    ensures
        ({
            let (after, actions) = queue_step(s, (at, Seq::empty()), line);
            let place = queue::queue_position(line);
            &&& queue::connected_line(line) ==> actions == seq![
                ActionText::QueueStatus { position: 0, raw: line, in_queue: false },
                ActionText::Disconnect,
            ] && after.queue_leaving
            &&& !queue::connected_line(line) && place is Some && place->0 <= s.queue_leave_at
                ==> actions == seq![
                ActionText::QueueStatus { position: place->0, raw: line, in_queue: true },
                ActionText::Disconnect,
            ] && after.queue_leaving
            &&& !queue::connected_line(line) && place is Some && place->0 > s.queue_leave_at
                ==> actions == seq![
                ActionText::QueueStatus { position: place->0, raw: line, in_queue: true },
            ] && !after.queue_leaving
            &&& !queue::connected_line(line) && place is None ==> actions.len() == 0
        }),
{
    let (after, actions) = queue_step(s, (at, Seq::empty()), line);
    let place = queue::queue_position(line);
    if queue::connected_line(line) {
        assert(actions =~= seq![
            ActionText::QueueStatus { position: 0, raw: line, in_queue: false },
            ActionText::Disconnect,
        ]);
    } else if place is Some && place->0 <= s.queue_leave_at {
        assert(actions =~= seq![
            ActionText::QueueStatus { position: place->0, raw: line, in_queue: true },
            ActionText::Disconnect,
        ]);
    } else if place is Some {
        assert(actions =~= seq![
            ActionText::QueueStatus { position: place->0, raw: line, in_queue: true },
        ]);
    }
}

/// A logger of the lobby that lands on a server leaves it, once.
pub proof fn lemma_lobby_loggers_leave(s: LoggerSettings, at: Place, actions: Seq<ActionText>, lower: Seq<char>)
    ensures
        s.lobby_only && !s.enter_portal && !s.queue_probe && dumped(lower) && !at.lobby_escape_leaving
            ==> lobby_step(s, (at, actions), lower).1 == actions.push(ActionText::Disconnect)
            && lobby_step(s, (at, actions), lower).0.lobby_escape_leaving,
        !s.lobby_only || !dumped(lower) || at.lobby_escape_leaving ==> lobby_step(
            s,
            (at, actions),
            lower,
        ) == (at, actions),
{
}

/// The count of players that the list shows is kept, and reported where it is due.
pub proof fn lemma_counts_are_reported(at: Place, t: ShownText, now: Moment)
    ensures
        t is Bar ==> count_step(at, t, now) == (at, Seq::<ActionText>::empty()),
        t is TabList && queue::online_count(shown(t)) is None ==> count_step(at, t, now) == (
            at,
            Seq::<ActionText>::empty(),
        ),
        t is TabList && queue::online_count(shown(t)) is Some ==> {
            let n = queue::online_count(shown(t))->0 as i64;
            let (after, actions) = count_step(at, t, now);
            &&& after.reported_online == n
            &&& after.session_id == at.session_id && after.connected == at.connected
            &&& n != at.reported_online ==> actions == seq![ActionText::ReportOnline(n as i32)]
                && after.last_count_ms == Some(now.steady_ms)
            &&& at.last_count_ms is None ==> actions == seq![ActionText::ReportOnline(n as i32)]
        },
{
    if t is TabList && queue::online_count(shown(t)) is Some {
        let n = queue::online_count(shown(t))->0 as i64;
        assert(Seq::empty().push(ActionText::ReportOnline(n as i32)) =~= seq![
            ActionText::ReportOnline(n as i32),
        ]);
    }
}

/// The look at the list is written, and behind the look that settles it everyone on it.
pub proof fn lemma_looks_are_written(s: LoggerSettings, l: LoggerText, tab: Option<Set<u128>>, now: Moment)
    ensures
        ({
            let (list, events) = presence::checked(l.presence, presence_context(s, l, now), tab);
            let (after, actions) = looked(s, l, tab, now);
            &&& after.presence == list
            &&& after.place == l.place && after.bot == l.bot && after.probe == l.probe
            &&& !list.settled || l.presence.settled ==> actions == tab_rows(
                l.place.session_id,
                now,
                events,
            )
            &&& list.settled && !l.presence.settled ==> actions == tab_rows(
                l.place.session_id,
                now,
                events,
            ) + reconciled(s, after, now)
        }),
        presence_context(s, l, now).suppressed == quiet(s, l.place),
        presence_context(s, l, now).tablist_joins == s.tablist_joins,
        presence_context(s, l, now).login_at_ms == l.place.login_at_ms,
        presence_context(s, l, now).now_ms == now.ms,
        presence_context(s, l, now).bot == l.bot,
{
}

/// A feed is paused for a probe, in the queue and before the portal, and at no other time.
pub proof fn lemma_pauses(s: LoggerSettings, at: Place)
    ensures
        quiet(s, at) <==> s.queue_probe || at.in_queue_limbo || s.enter_portal && !at.in_main_world,
{
}

/// What a probe hears is kept until it is saved, and the commands of a server are followed
/// by the question for its completions.
pub proof fn lemma_probes_hear(p: probe::ProbeText, packet: ProbePacket, now: Moment)
    ensures
        p.saved ==> probed(p, packet, now) == (p, Seq::<ActionText>::empty()),
        !p.saved && packet !is Commands ==> probed(p, packet, now) == (
            probe::heard(p, packet),
            Seq::<ActionText>::empty(),
        ),
        !p.saved && packet is Commands && probe::asks(probe::heard(p, packet)) ==> probed(p, packet, now)
            .1 == seq![
            ActionText::Complete {
                id: probe::tab_id(now.ms),
                command: probe::heard(p, packet).alias->0 + " "@,
            },
        ],
        !p.saved && packet is Commands && !probe::asks(probe::heard(p, packet)) ==> probed(p, packet, now)
            .1.len() == 0,
{
    if !p.saved && packet is Commands && probe::asks(probe::heard(p, packet)) {
        let a = ActionText::Complete {
            id: probe::tab_id(now.ms),
            command: probe::heard(p, packet).alias->0 + " "@,
        };
        assert(Seq::empty().push(a) =~= seq![a]);
    }
}

/// A probe says what it has to say, and is saved at its end.
pub proof fn lemma_probes_speak(p: probe::ProbeText, chat_probe: bool, now_ms: i64)
    ensures
        !probe::running(p) ==> probe_actions(p, chat_probe, now_ms).len() == 0,
        probe::running(p) ==> (probe::said(p, chat_probe) matches Some(line) ==> probe_actions(
            p,
            chat_probe,
            now_ms,
        ).len() > 0 && probe_actions(p, chat_probe, now_ms)[0] == ActionText::Say(line)),
        probe::running(p) && p.ticks + 1 >= 300 ==> probe_actions(p, chat_probe, now_ms).last()
            is SaveProbe,
        started(p, now_ms).start_ms == (if p.start_ms == 0 {
            now_ms as int
        } else {
            p.start_ms
        }),
{
}

/// A line that tells of the lobby sends the client through the portal again, and one that
/// tells of the queue is heeded.
pub proof fn lemma_lines_move_the_client(s: LoggerSettings, at: Place, line: Seq<char>)
    ensures
        s.enter_portal && !at.portal_walking && back_in_lobby(text::unicode_lower(line)) && !s.lobby_only
            && !s.queue_probe && !queue::queue_line(line) && !queue::connected_line(line) ==> line_heard(
            s,
            at,
            line,
        ).1 == seq![ActionText::WalkIntoPortal] && line_heard(s, at, line).0.portal_walking,
        !back_in_lobby(text::unicode_lower(line)) && !dumped(text::unicode_lower(line)) && !s.queue_probe
            && !queue::queue_line(line) && !queue::connected_line(line) ==> line_heard(s, at, line) == (
            at,
            Seq::<ActionText>::empty(),
        ),
{
    if s.enter_portal && !at.portal_walking && back_in_lobby(text::unicode_lower(line)) && !s.lobby_only
        && !s.queue_probe && !queue::queue_line(line) && !queue::connected_line(line) {
        assert(Seq::empty().push(ActionText::WalkIntoPortal) =~= seq![ActionText::WalkIntoPortal]);
    }
}

/// A logger that lost its connection.
pub open spec fn disconnected(l: LoggerText) -> LoggerText {
    LoggerText { place: cut_off(l.place), presence: presence::cleared(l.presence), ..l }
}

/// What is done once a connection is lost.
pub open spec fn leaving(session_id: i64, reason: Option<Seq<char>>) -> Seq<ActionText> {
    seq![
        ActionText::CloseSession {
            session_id,
            reason: "disconnected: "@ + match reason {
                Some(r) => r,
                None => "unknown"@,
            },
        },
        ActionText::WatchOffline,
    ]
}

/// A lost connection closes the session with its reason and is watched, and nobody is left
/// on the list.
pub proof fn lemma_lost_connections(l: LoggerText, session_id: i64, r: Seq<char>)
    ensures
        disconnected(l).presence.online.len() == 0,
        !disconnected(l).presence.settled,
        !disconnected(l).place.connected && !disconnected(l).place.in_main_world,
        disconnected(l).place.session_id == l.place.session_id,
        disconnected(l).bot == l.bot && disconnected(l).probe == l.probe,
        leaving(session_id, Some(r)).contains(
            ActionText::CloseSession { session_id, reason: "disconnected: "@ + r },
        ),
        leaving(session_id, None).contains(
            ActionText::CloseSession { session_id, reason: "disconnected: "@ + "unknown"@ },
        ),
        leaving(session_id, Some(r)).contains(ActionText::WatchOffline),
{
    assert(leaving(session_id, Some(r))[0] == (ActionText::CloseSession {
        session_id,
        reason: "disconnected: "@ + r,
    }));
    assert(leaving(session_id, None)[0] == (ActionText::CloseSession {
        session_id,
        reason: "disconnected: "@ + "unknown"@,
    }));
    assert(leaving(session_id, Some(r))[1] == ActionText::WatchOffline);
}

/// An action is read field by field.
pub proof fn lemma_actions_are_read_by_field(a: Action)
    ensures
        a matches Action::Chat(row) ==> a@ == ActionText::Chat(logger::chat_row_text(row)),
        a matches Action::Event(row) ==> a@ == ActionText::Event(logger::event_row_text(row)),
        a matches Action::Say(line) ==> a@ == ActionText::Say(line@),
        a matches Action::CloseSession { session_id, reason } ==> a@ == (ActionText::CloseSession {
            session_id,
            reason: reason@,
        }),
        a matches Action::RecordUsername { session_id, username } ==> a@
            == (ActionText::RecordUsername { session_id, username: username@ }),
        a matches Action::QueueStatus { position, raw, in_queue } ==> a@ == (ActionText::QueueStatus {
            position,
            raw: raw@,
            in_queue,
        }),
        a matches Action::ReportOnline(n) ==> a@ == ActionText::ReportOnline(n),
        a matches Action::ServerRestart { session_id, at } ==> a@ == (ActionText::ServerRestart {
            session_id,
            at,
        }),
        a matches Action::StartAntiAfk { min_secs, max_secs } ==> a@ == (ActionText::StartAntiAfk {
            min_secs,
            max_secs,
        }),
        a is Jump ==> a@ is Jump,
        a is Disconnect ==> a@ is Disconnect,
        a is OpenSession ==> a@ is OpenSession,
        a is WatchOffline ==> a@ is WatchOffline,
        a is WalkIntoPortal ==> a@ is WalkIntoPortal,
        a is GuardLobby ==> a@ is GuardLobby,
        a is EnableConnectionMsgs ==> a@ is EnableConnectionMsgs,
        a is RunStartupCommands ==> a@ is RunStartupCommands,
        a is RegisterChannels ==> a@ is RegisterChannels,
{
}

} // verus!
