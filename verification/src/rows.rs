//! The rows that a logger writes.
use vstd::prelude::*;
use vstd::string::*;

use crate::stream::{ChatEvent, PlayerEvent, StreamEvent};
use crate::text;

verus! {

/// Times are microseconds since the Unix epoch, and UUIDs numbers of 128 bits.
#[derive(Debug)]
pub struct ChatRow {
    pub session_id: i64,
    pub received_at: i64,
    pub source: String,
    pub kind: String,
    pub sender_name: Option<String>,
    pub sender_uuid: Option<u128>,
    /// Who the line is about where there is no sender.
    pub subject_name: Option<String>,
    /// Who did the killing, for deaths that name somebody.
    pub killer_name: Option<String>,
    /// The speaker with decoration, for display.
    pub sender_label: Option<String>,
    pub plain_text: String,
    /// The line as Minecraft drew it. Not stored; it rides the live stream.
    pub ansi: Option<String>,
}

#[derive(Debug)]
pub struct PlayerEventRow {
    pub session_id: i64,
    pub occurred_at: i64,
    pub event_type: String,
    pub source: String,
    pub player_name: String,
    pub player_uuid: Option<u128>,
    /// Set where a chat line announced this.
    pub ansi: Option<String>,
}

#[derive(Debug)]
pub enum Write {
    Chat(ChatRow),
    Event(PlayerEventRow),
    /// A restart countdown ran out: everyone is about to be dropped at once.
    ServerRestart { session_id: i64, at: i64 },
    /// The tab list once the flood after a login had settled.
    ReconcileOnline { session_id: i64, at: i64, players: Vec<String> },
}

/// The first character of a code, or a question mark.
pub open spec fn packed(code: Seq<char>) -> char {
    if code.len() > 0 {
        code[0]
    } else {
        '?'
    }
}

pub fn packed_char(code: &str) -> (c: char)
    ensures
        c == packed(code@),
{
    if code.is_empty() {
        '?'
    } else {
        code.get_char(0)
    }
}

/// Hands rows to the database and to the live stream. A logger that is not
/// active drops every row.
pub struct Writer {
    pub active: bool,
    /// Whether there is a live stream to publish to.
    pub streaming: bool,
    pub server_host: String,
}

/// Where a row goes.
pub struct Written {
    pub publish: Option<StreamEvent>,
    pub write: Option<Write>,
}

/// Whether the event is the chat line of a row.
pub open spec fn publishes_chat(event: StreamEvent, row: ChatRow, host: Seq<char>) -> bool {
    event matches StreamEvent::Chat(c) && {
        &&& c.seq is None
        &&& c.id is None
        &&& c.ts == row.received_at
        &&& c.kind@ == row.kind@
        &&& text::opt_text(c.sender_name) == text::opt_text(row.sender_name)
        &&& text::opt_text(c.sender_label) == text::opt_text(row.sender_label)
        &&& text::opt_text(c.subject_name) == text::opt_text(row.subject_name)
        &&& text::opt_text(c.killer_name) == text::opt_text(row.killer_name)
        &&& c.content is None
        &&& c.plain_text@ == row.plain_text@
        &&& text::opt_text(c.ansi) == text::opt_text(row.ansi)
        &&& text::opt_text(c.server_host) == Some(host)
    }
}

/// Whether the event is the presence event of a row.
pub open spec fn publishes_event(event: StreamEvent, row: PlayerEventRow, host: Seq<char>) -> bool {
    event matches StreamEvent::PlayerEvent(e) && {
        &&& e.seq is None
        &&& e.ts == row.occurred_at
        &&& e.event_type@ == row.event_type@
        &&& e.source@ == row.source@
        &&& e.player_name@ == row.player_name@
        &&& text::opt_text(e.ansi) == text::opt_text(row.ansi)
        &&& text::opt_text(e.server_host) == Some(host)
    }
}

/// Whether a chat line of that kind is published.
pub open spec fn chat_published(w: Writer, kind: Seq<char>) -> bool {
    w.active && w.streaming && packed(kind) != 'j' && packed(kind) != 'l'
}

/// Whether a presence event of that type is published.
pub open spec fn event_published(w: Writer, event_type: Seq<char>) -> bool {
    w.active && w.streaming && packed(event_type) != 's' && packed(event_type) != 'p'
}

impl Writer {
    pub fn logging(&self) -> (b: bool)
        ensures
            b == self.active,
    {
        self.active
    }

    /// A chat line. Join and leave lines are not published: the presence events
    /// stand for them.
    pub fn chat(&self, row: ChatRow) -> (w: Written)
        ensures
            self.active ==> w.write == Some(Write::Chat(row)),
            !self.active ==> w.write is None,
            w.publish is Some == chat_published(*self, row.kind@),
            w.publish matches Some(event) ==> publishes_chat(event, row, self.server_host@),
    {
        if !self.active {
            return Written { publish: None, write: None };
        }
        let code = packed_char(&row.kind);
        let publish = if self.streaming && code != 'j' && code != 'l' {
            Some(
                StreamEvent::Chat(
                    ChatEvent {
                        seq: None,
                        id: None,
                        ts: row.received_at,
                        kind: row.kind.clone(),
                        sender_name: text::copy_opt(&row.sender_name),
                        sender_label: text::copy_opt(&row.sender_label),
                        subject_name: text::copy_opt(&row.subject_name),
                        killer_name: text::copy_opt(&row.killer_name),
                        content: None,
                        plain_text: row.plain_text.clone(),
                        ansi: text::copy_opt(&row.ansi),
                        server_host: Some(self.server_host.clone()),
                    },
                ),
            )
        } else {
            None
        };
        Written { publish, write: Some(Write::Chat(row)) }
    }

    /// A presence event. What the tab list alone shows is not published.
    pub fn event(&self, row: PlayerEventRow) -> (w: Written)
        ensures
            self.active ==> w.write == Some(Write::Event(row)),
            !self.active ==> w.write is None,
            w.publish is Some == event_published(*self, row.event_type@),
            w.publish matches Some(event) ==> publishes_event(event, row, self.server_host@),
    {
        if !self.active {
            return Written { publish: None, write: None };
        }
        let code = packed_char(&row.event_type);
        let publish = if self.streaming && code != 's' && code != 'p' {
            Some(
                StreamEvent::PlayerEvent(
                    PlayerEvent {
                        seq: None,
                        ts: row.occurred_at,
                        event_type: row.event_type.clone(),
                        source: row.source.clone(),
                        player_name: row.player_name.clone(),
                        ansi: text::copy_opt(&row.ansi),
                        server_host: Some(self.server_host.clone()),
                    },
                ),
            )
        } else {
            None
        };
        Written { publish, write: Some(Write::Event(row)) }
    }

    /// Everyone on the tab list is about to be disconnected by a restart.
    pub fn server_restart(&self, session_id: i64, at: i64) -> (w: Option<Write>)
        ensures
            w == (if self.active {
                Some(Write::ServerRestart { session_id, at })
            } else {
                None
            }),
    {
        if self.active {
            Some(Write::ServerRestart { session_id, at })
        } else {
            None
        }
    }

    /// The settled tab list, so that joins missed while the logger was away can
    /// be filled in.
    pub fn reconcile_online(&self, session_id: i64, at: i64, players: Vec<String>) -> (w: Option<
        Write,
    >)
        ensures
            w == (if self.active && players.len() > 0 {
                Some(Write::ReconcileOnline { session_id, at, players })
            } else {
                None
            }),
    {
        if self.active && players.len() > 0 {
            Some(Write::ReconcileOnline { session_id, at, players })
        } else {
            None
        }
    }
}

// ---------------------------------------------------------------------------
// Heartbeats, queue samples, rollups
// ---------------------------------------------------------------------------

/// The heartbeat row of a logger.
#[derive(Debug, Clone)]
pub struct Heartbeat {
    pub role: String,
    pub server_host: String,
    pub session_id: Option<i64>,
    pub bot_username: Option<String>,
    pub connected: bool,
    pub writing: bool,
    pub reported_online: Option<i32>,
}

/// Whether a heartbeat says anything that the row before it did not.
pub open spec fn heartbeat_differs(previous: Option<Heartbeat>, now: Heartbeat) -> bool {
    match previous {
        None => true,
        Some(p) => {
            ||| p.role@ != now.role@
            ||| p.server_host@ != now.server_host@
            ||| p.session_id != now.session_id
            ||| text::opt_text(p.bot_username) != text::opt_text(now.bot_username)
            ||| p.connected != now.connected
            ||| p.writing != now.writing
        },
    }
}

fn same_session(a: Option<i64>, b: Option<i64>) -> (r: bool)
    ensures
        r == (a == b),
{
    match (a, b) {
        (Some(x), Some(y)) => x == y,
        (None, None) => true,
        _ => false,
    }
}

/// The sample that a heartbeat adds to the history: one where anything changed,
/// with the count of players that the row had.
pub fn heartbeat_sample(previous: &Option<Heartbeat>, now: &Heartbeat) -> (r: Option<Option<i32>>)
    ensures
        r is Some == heartbeat_differs(*previous, *now),
        r matches Some(online) ==> online == (match previous {
            Some(p) => p.reported_online,
            None => None,
        }),
{
    match previous {
        None => Some(None),
        Some(p) => {
            let changed = !text::same(&p.role, &now.role) || !text::same(
                &p.server_host,
                &now.server_host,
            ) || !same_session(p.session_id, now.session_id) || !text::same_opt(
                &p.bot_username,
                &now.bot_username,
            ) || p.connected != now.connected || p.writing != now.writing;
            if changed {
                Some(p.reported_online)
            } else {
                None
            }
        },
    }
}

/// Whether a place in the queue is news.
pub open spec fn queue_differs(
    previous: Option<(Option<i32>, bool)>,
    position: Option<i32>,
    in_queue: bool,
) -> bool {
    previous != Some((position, in_queue))
}

/// Whether a position in the queue adds a sample: where the position or the state
/// of the queue is not what the row before it said.
pub fn queue_sample(previous: Option<(Option<i32>, bool)>, position: Option<i32>, in_queue: bool) -> (b:
    bool)
    ensures
        b == queue_differs(previous, position, in_queue),
{
    match previous {
        None => true,
        Some((was, queued)) => {
            let same = match (was, position) {
                (Some(x), Some(y)) => x == y,
                (None, None) => true,
                _ => false,
            };
            !(same && queued == in_queue)
        },
    }
}

/// A session number in the narrow column of the log, or the largest there is.
pub fn narrow_session(id: i64) -> (r: i32)
    ensures
        r == (if i32::MIN <= id <= i32::MAX {
            id as i32
        } else {
            i32::MAX
        }),
{
    if id >= -2_147_483_648 && id <= 2_147_483_647 {
        id as i32
    } else {
        i32::MAX
    }
}

/// What a refresh of the daily totals covers, in days since the epoch.
#[derive(Debug, Clone, Copy, PartialEq, Eq, Structural)]
pub struct Rollup {
    pub from: i64,
    pub to: i64,
    /// Whether the partitions of the coming months are looked after too.
    pub partitions: bool,
}

/// The first day that a refresh covers: yesterday once after midnight, and else
/// today.
pub open spec fn rollup_from(last: Option<i64>, today: i64) -> int {
    if last matches Some(day) && day < today && today > i64::MIN {
        today - 1
    } else {
        today as int
    }
}

/// What a refresh covers.
pub fn rollup(last: Option<i64>, today: i64) -> (r: Rollup)
    ensures
        r.to == today,
        r.from == rollup_from(last, today),
        r.partitions == (match last {
            Some(day) => day < today,
            None => true,
        }),
{
    let close_yesterday = match last {
        Some(day) => day < today,
        None => false,
    };
    let from: i64 = if close_yesterday && today > i64::MIN {
        today - 1
    } else {
        today
    };
    Rollup { from, to: today, partitions: close_yesterday || last.is_none() }
}

/// A day is closed after it ended: the first refresh on the next day takes it in,
/// and the refreshes after that one do not.
pub proof fn lemma_yesterday_is_closed_once(day: i64, next: i64)
    requires
        day + 1 == next,
    ensures
        rollup_from(Some(day), next) == day,
        rollup_from(Some(next), next) == next,
{
}

/// A logger that does not log publishes nothing, nor one that does not stream. Of chat
/// the joins and leaves are not published, for the presence events stand for them, and
/// of presence events all joins and leaves are.
pub proof fn lemma_what_is_published(w: Writer, rest: Seq<char>)
    ensures
        !w.active || !w.streaming ==> !chat_published(w, rest) && !event_published(w, rest),
        !chat_published(w, "j"@ + rest),
        !chat_published(w, "l"@ + rest),
        w.active && w.streaming ==> chat_published(w, "c"@ + rest),
        w.active && w.streaming ==> chat_published(w, "d"@ + rest),
        w.active && w.streaming ==> chat_published(w, "a"@ + rest),
        w.active && w.streaming ==> chat_published(w, "w"@ + rest),
        w.active && w.streaming ==> event_published(w, "j"@ + rest),
        w.active && w.streaming ==> event_published(w, "l"@ + rest),
        !event_published(w, "s"@ + rest),
        !event_published(w, "p"@ + rest),
{
    reveal_strlit("j");
    reveal_strlit("l");
    reveal_strlit("c");
    reveal_strlit("d");
    reveal_strlit("a");
    reveal_strlit("w");
    reveal_strlit("s");
    reveal_strlit("p");
}

/// What is published says of a row who said it, who it is about and by whom, when and
/// where.
pub proof fn lemma_published_rows_keep_their_fields(
    event: StreamEvent,
    row: ChatRow,
    seen: PlayerEventRow,
    host: Seq<char>,
)
    ensures
        publishes_chat(event, row, host) ==> (event matches StreamEvent::Chat(c) && {
            &&& c.ts == row.received_at
            &&& c.kind@ == row.kind@
            &&& c.plain_text@ == row.plain_text@
            &&& row.sender_name is Some ==> c.sender_name is Some && c.sender_name->0@
                == row.sender_name->0@
            &&& row.sender_name is None ==> c.sender_name is None
            &&& row.subject_name is Some ==> c.subject_name is Some && c.subject_name->0@
                == row.subject_name->0@
            &&& row.subject_name is None ==> c.subject_name is None
            &&& row.killer_name is Some ==> c.killer_name is Some && c.killer_name->0@
                == row.killer_name->0@
            &&& row.killer_name is None ==> c.killer_name is None
            &&& row.sender_label is Some ==> c.sender_label is Some && c.sender_label->0@
                == row.sender_label->0@
            &&& c.server_host is Some && c.server_host->0@ == host
        }),
        publishes_event(event, seen, host) ==> (event matches StreamEvent::PlayerEvent(e) && {
            &&& e.ts == seen.occurred_at
            &&& e.event_type@ == seen.event_type@
            &&& e.player_name@ == seen.player_name@
            &&& e.source@ == seen.source@
            &&& e.server_host is Some && e.server_host->0@ == host
        }),
{
}

/// A heartbeat that repeats the one before it adds no sample, whatever the count of
/// players; one that changes anything else does.
pub proof fn lemma_heartbeats_tell_changes(a: Heartbeat, b: Heartbeat)
    ensures
        heartbeat_differs(None, a),
        !heartbeat_differs(Some(a), a),
        !heartbeat_differs(Some(a), Heartbeat { reported_online: b.reported_online, ..a }),
        a.connected != b.connected ==> heartbeat_differs(Some(a), b),
        a.writing != b.writing ==> heartbeat_differs(Some(a), b),
        a.role@ != b.role@ ==> heartbeat_differs(Some(a), b),
        a.server_host@ != b.server_host@ ==> heartbeat_differs(Some(a), b),
        a.session_id != b.session_id ==> heartbeat_differs(Some(a), b),
        a.bot_username is Some != b.bot_username is Some ==> heartbeat_differs(Some(a), b),
{
}

/// A place in the queue is news where the place or the queueing changed.
pub proof fn lemma_places_tell_changes(p: Option<i32>, q: Option<i32>, queued: bool)
    ensures
        queue_differs(None, p, queued),
        !queue_differs(Some((p, queued)), p, queued),
        queue_differs(Some((p, queued)), p, !queued),
        p != q ==> queue_differs(Some((p, queued)), q, queued),
{
}

} // verus!
