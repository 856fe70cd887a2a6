//! The protocol of live Minecraft event streams.
//!
//! One gateway multiplexes many server keys on a single port. A client opens a
//! connection, sends a hello line with its server key, and then pushes events
//! (producer), receives them (consumer), or asks for a snapshot of the gateway
//! (status). Frames are lines of JSON; this module holds what is in them and
//! what either end does about them.
use vstd::prelude::*;
use vstd::string::*;

use crate::text;

verus! {

/// The protocol version this build speaks.
pub const PROTOCOL_VERSION: u32 = 2;

/// The oldest protocol version that the gateway still accepts.
pub const MIN_PROTOCOL_VERSION: u32 = 1;

/// The environment variable that holds the shared gateway token.
pub const TOKEN_ENV: &'static str = "EVENT_STREAM_TOKEN";

/// Seconds after which an idle producer sends a keepalive.
pub const KEEPALIVE_SECS: u64 = 30;

/// Seconds before a dropped connection is tried again.
pub const RECONNECT_DELAY_SECS: u64 = 2;

/// Seconds before a connection that the gateway rejected is tried again.
pub const REJECTED_DELAY_SECS: u64 = 30;

#[derive(Debug, Clone, Copy, PartialEq, Eq, Structural)]
pub enum Role {
    Producer,
    Consumer,
    /// One-shot: the gateway answers with a snapshot and closes.
    Status,
}

#[derive(Debug, Clone)]
pub struct Hello {
    pub v: u32,
    pub role: Role,
    /// The stable server key.
    pub server: String,
    /// Consumers only: how many buffered events to replay on connect.
    pub replay: u32,
    /// Consumers only: replay everything buffered after this sequence number.
    /// Takes precedence over `replay`.
    pub since_seq: Option<u64>,
    /// The shared secret, where the gateway is configured with one.
    pub token: Option<String>,
    /// The client's name, shown in the gateway's logs.
    pub client: Option<String>,
}

/// The contents of a [`Hello`].
#[verifier::ext_equal]
pub struct HelloText {
    pub v: u32,
    pub role: Role,
    pub server: Seq<char>,
    pub replay: u32,
    pub since_seq: Option<u64>,
    pub token: Option<Seq<char>>,
    pub client: Option<Seq<char>>,
}

impl View for Hello {
    type V = HelloText;

    open spec fn view(&self) -> HelloText {
        HelloText {
            v: self.v,
            role: self.role,
            server: self.server@,
            replay: self.replay,
            since_seq: self.since_seq,
            token: text::opt_text(self.token),
            client: text::opt_text(self.client),
        }
    }
}

/// The hello of a client that gives no name and no resume point.
pub open spec fn plain_hello(
    role: Role,
    server: Seq<char>,
    replay: u32,
    token: Option<Seq<char>>,
) -> HelloText {
    HelloText {
        v: PROTOCOL_VERSION,
        role,
        server,
        replay,
        since_seq: None,
        token,
        client: None,
    }
}

impl Hello {
    pub fn producer(server: String, token: Option<String>) -> (h: Self)
        ensures
            h@ == plain_hello(Role::Producer, server@, 0, text::opt_text(token)),
    {
        Hello {
            v: PROTOCOL_VERSION,
            role: Role::Producer,
            server,
            replay: 0,
            since_seq: None,
            token,
            client: None,
        }
    }

    pub fn consumer(server: String, replay: u32, token: Option<String>) -> (h: Self)
        ensures
            h@ == plain_hello(Role::Consumer, server@, replay, text::opt_text(token)),
    {
        Hello {
            v: PROTOCOL_VERSION,
            role: Role::Consumer,
            server,
            replay,
            since_seq: None,
            token,
            client: None,
        }
    }

    pub fn status(token: Option<String>) -> (h: Self)
        ensures
            h@ == plain_hello(Role::Status, Seq::empty(), 0, text::opt_text(token)),
    {
        Hello {
            v: PROTOCOL_VERSION,
            role: Role::Status,
            server: String::new(),
            replay: 0,
            since_seq: None,
            token,
            client: None,
        }
    }

    /// With another token, where one is given.
    pub fn with_token(self, token: Option<String>) -> (h: Self)
        ensures
            h@ == (HelloText {
                token: if token is Some {
                    text::opt_text(token)
                } else {
                    self@.token
                },
                ..self@
            }),
    {
        if token.is_some() {
            Hello { token, ..self }
        } else {
            self
        }
    }

    pub fn with_client(self, client: String) -> (h: Self)
        ensures
            h@ == (HelloText { client: Some(client@), ..self@ }),
    {
        Hello { client: Some(client), ..self }
    }

    pub fn with_since_seq(self, since_seq: Option<u64>) -> (h: Self)
        ensures
            h@ == (HelloText { since_seq, ..self@ }),
    {
        Hello { since_seq, ..self }
    }
}

/// The shared token that a setting holds; a blank one is none.
pub open spec fn token_in(raw: Option<Seq<char>>) -> Option<Seq<char>> {
    match raw {
        Some(s) if text::trimmed(s).len() > 0 => Some(text::trimmed(s)),
        _ => None,
    }
}

pub fn token_from_env(raw: &Option<String>) -> (r: Option<String>)
    ensures
        text::opt_text(r) == token_in(text::opt_text(*raw)),
{
    match raw {
        Some(s) => {
            let t = text::trim(s);
            if t.as_str().is_empty() {
                None
            } else {
                Some(t)
            }
        },
        None => None,
    }
}

// ---------------------------------------------------------------------------
// Feed payloads
// ---------------------------------------------------------------------------

/// Times are microseconds since the Unix epoch.
#[derive(Debug, Clone)]
pub struct ChatEvent {
    /// The sequence number that the gateway assigned; none from a producer.
    pub seq: Option<u64>,
    /// The database id, where it is known.
    pub id: Option<i64>,
    pub ts: i64,
    pub kind: String,
    pub sender_name: Option<String>,
    pub sender_label: Option<String>,
    pub subject_name: Option<String>,
    pub killer_name: Option<String>,
    pub content: Option<String>,
    pub plain_text: String,
    /// The line as Minecraft drew it, with its ANSI escapes.
    pub ansi: Option<String>,
    pub server_host: Option<String>,
}

#[derive(Debug, Clone)]
pub struct PlayerEvent {
    pub seq: Option<u64>,
    pub ts: i64,
    pub event_type: String,
    pub source: String,
    pub player_name: String,
    /// Set where the event came from a chat line that the server drew.
    pub ansi: Option<String>,
    pub server_host: Option<String>,
}

#[derive(Debug, Clone)]
pub enum StreamEvent {
    Chat(ChatEvent),
    PlayerEvent(PlayerEvent),
}

/// The sequence number of an event.
pub open spec fn event_seq(event: StreamEvent) -> Option<u64> {
    match event {
        StreamEvent::Chat(c) => c.seq,
        StreamEvent::PlayerEvent(e) => e.seq,
    }
}

/// The names that stand there, in order.
pub open spec fn present(names: Seq<Option<Seq<char>>>) -> Seq<Seq<char>>
    decreases names.len(),
{
    if names.len() == 0 {
        Seq::empty()
    } else {
        match names.last() {
            Some(name) => present(names.drop_last()).push(name),
            None => present(names.drop_last()),
        }
    }
}

/// Everyone named by a line.
pub open spec fn names_of(event: StreamEvent) -> Seq<Seq<char>> {
    match event {
        StreamEvent::Chat(c) => present(
            seq![
                text::opt_text(c.sender_name),
                text::opt_text(c.subject_name),
                text::opt_text(c.killer_name),
                text::opt_text(c.sender_label),
            ],
        ),
        StreamEvent::PlayerEvent(e) => seq![e.player_name@],
    }
}

/// The player a line is about.
pub open spec fn player_of(event: StreamEvent) -> Option<Seq<char>> {
    match event {
        StreamEvent::Chat(c) => if c.sender_name is Some {
            text::opt_text(c.sender_name)
        } else if c.subject_name is Some {
            text::opt_text(c.subject_name)
        } else {
            text::opt_text(c.sender_label)
        },
        StreamEvent::PlayerEvent(e) => Some(e.player_name@),
    }
}

pub open spec fn str_texts(v: Seq<&str>) -> Seq<Seq<char>> {
    Seq::new(v.len(), |i: int| v[i]@)
}

fn push_name<'a>(names: &mut Vec<&'a str>, name: &'a Option<String>)
    ensures
        str_texts(final(names)@) == (match name {
            Some(n) => str_texts(old(names)@).push(n@),
            None => str_texts(old(names)@),
        }),
{
    let ghost before = names@;
    if let Some(n) = name {
        names.push(n.as_str());
        assert(str_texts(names@) =~= str_texts(before).push(n@));
    }
}

impl StreamEvent {
    pub fn seq(&self) -> (r: Option<u64>)
        ensures
            r == event_seq(*self),
    {
        match self {
            StreamEvent::Chat(c) => c.seq,
            StreamEvent::PlayerEvent(e) => e.seq,
        }
    }

    pub fn set_seq(&mut self, seq: u64)
        ensures
            *final(self) == numbered(*old(self), seq),
    {
        match self {
            StreamEvent::Chat(c) => {
                c.seq = Some(seq);
            },
            StreamEvent::PlayerEvent(e) => {
                e.seq = Some(seq);
            },
        }
    }

    pub fn ts(&self) -> (r: i64)
        ensures
            r == time_of(*self),
    {
        match self {
            StreamEvent::Chat(c) => c.ts,
            StreamEvent::PlayerEvent(e) => e.ts,
        }
    }

    /// The classifier's kind of a chat line, or the type of a presence event.
    pub fn kind(&self) -> (r: &str)
        ensures
            r@ == kind_of(*self),
    {
        match self {
            StreamEvent::Chat(c) => c.kind.as_str(),
            StreamEvent::PlayerEvent(e) => e.event_type.as_str(),
        }
    }

    /// The player this line is about, where there is one.
    pub fn player(&self) -> (r: Option<&str>)
        ensures
            text::opt_str(r) == player_of(*self),
    {
        match self {
            StreamEvent::Chat(c) => {
                if let Some(name) = &c.sender_name {
                    Some(name.as_str())
                } else if let Some(name) = &c.subject_name {
                    Some(name.as_str())
                } else if let Some(name) = &c.sender_label {
                    Some(name.as_str())
                } else {
                    None
                }
            },
            StreamEvent::PlayerEvent(e) => Some(e.player_name.as_str()),
        }
    }

    /// Everyone named by the line.
    pub fn names(&self) -> (r: Vec<&str>)
        ensures
            str_texts(r@) == names_of(*self),
    {
        let mut names: Vec<&str> = Vec::new();
        match self {
            StreamEvent::Chat(c) => {
                proof {
                    let all = seq![
                        text::opt_text(c.sender_name),
                        text::opt_text(c.subject_name),
                        text::opt_text(c.killer_name),
                        text::opt_text(c.sender_label),
                    ];
                    reveal_with_fuel(present, 5);
                    assert(all.drop_last() =~= seq![all[0], all[1], all[2]]);
                    assert(all.drop_last().drop_last() =~= seq![all[0], all[1]]);
                    assert(all.drop_last().drop_last().drop_last() =~= seq![all[0]]);
                    assert(all.drop_last().drop_last().drop_last().drop_last().len() == 0);
                    assert(str_texts(names@) =~= Seq::<Seq<char>>::empty());
                }
                push_name(&mut names, &c.sender_name);
                push_name(&mut names, &c.subject_name);
                push_name(&mut names, &c.killer_name);
                push_name(&mut names, &c.sender_label);
            },
            StreamEvent::PlayerEvent(e) => {
                names.push(e.player_name.as_str());
                assert(str_texts(names@) =~= seq![e.player_name@]);
            },
        }
        names
    }

    pub fn text(&self) -> (r: &str)
        ensures
            r@ == (match *self {
                StreamEvent::Chat(c) => c.plain_text@,
                StreamEvent::PlayerEvent(e) => e.event_type@,
            }),
    {
        match self {
            StreamEvent::Chat(c) => c.plain_text.as_str(),
            StreamEvent::PlayerEvent(e) => e.event_type.as_str(),
        }
    }

    /// The server's own rendering, where the logger captured one.
    pub fn ansi(&self) -> (r: Option<&str>)
        ensures
            text::opt_str(r) == (match *self {
                StreamEvent::Chat(c) => text::opt_text(c.ansi),
                StreamEvent::PlayerEvent(e) => text::opt_text(e.ansi),
            }),
    {
        let ansi = match self {
            StreamEvent::Chat(c) => &c.ansi,
            StreamEvent::PlayerEvent(e) => &e.ansi,
        };
        match ansi {
            Some(s) => Some(s.as_str()),
            None => None,
        }
    }
}

/// Whoever killed somebody is among the names of the line.
pub proof fn lemma_names_hold_the_killer(c: ChatEvent)
    requires
        c.killer_name is Some,
    ensures
        names_of(StreamEvent::Chat(c)).contains(c.killer_name->0@),
{
    let all = seq![
        text::opt_text(c.sender_name),
        text::opt_text(c.subject_name),
        text::opt_text(c.killer_name),
        text::opt_text(c.sender_label),
    ];
    reveal_with_fuel(present, 5);
    let three = all.drop_last();
    assert(three.last() == text::opt_text(c.killer_name));
    let some = present(three);
    assert(some.last() == c.killer_name->0@);
    assert(names_of(StreamEvent::Chat(c))[some.len() - 1] == c.killer_name->0@);
}

// ---------------------------------------------------------------------------
// Frames
// ---------------------------------------------------------------------------

#[derive(Debug, Clone)]
pub struct Ready {
    pub v: u32,
    pub role: Role,
    pub server: String,
    /// Events in the replay buffer of the server key.
    pub buffered: usize,
    /// The highest sequence that the gateway has assigned for the key.
    pub last_seq: u64,
    pub gateway: String,
}

#[derive(Debug, Clone)]
pub struct ProtocolError {
    /// One of `unauthorized`, `unknown_server`, `bad_version`, `missing_server`,
    /// `too_many_connections`, `malformed_hello`.
    pub code: String,
    pub message: String,
}

/// The rejections that a quick retry does not mend.
pub open spec fn fatal(code: Seq<char>) -> bool {
    code == "unauthorized"@ || code == "unknown_server"@ || code == "bad_version"@ || code
        == "missing_server"@
}

impl ProtocolError {
    pub fn new(code: &str, message: String) -> (e: Self)
        ensures
            e.code@ == code@,
            e.message@ == message@,
    {
        ProtocolError { code: text::copy(code), message }
    }

    /// Rejections that will not mend themselves on an immediate retry.
    pub fn is_fatal(&self) -> (b: bool)
        ensures
            b == fatal(self.code@),
    {
        text::same(&self.code, "unauthorized") || text::same(&self.code, "unknown_server")
            || text::same(&self.code, "bad_version") || text::same(&self.code, "missing_server")
    }
}

/// A line to speak in the game, sent from Discord.
#[derive(Debug, Clone)]
pub struct Say {
    pub text: String,
    /// Who asked.
    pub from: Option<String>,
}

impl Say {
    pub fn new(text: String, from: Option<String>) -> (s: Self)
        ensures
            s.text@ == text@,
            s.from == from,
    {
        Say { text, from }
    }
}

#[derive(Debug, Clone)]
pub struct Ping {
    pub ts: Option<i64>,
}

/// A snapshot of the whole gateway.
#[derive(Debug, Clone)]
pub struct GatewayStatus {
    pub gateway: String,
    pub listen: String,
    pub uptime_secs: u64,
    /// Whether a shared token is required.
    pub auth: bool,
    pub buffer_cap: usize,
    pub connections: usize,
    /// The keys this gateway accepts; empty where any key is accepted.
    pub allowed_keys: Vec<String>,
    pub servers: Vec<ServerStatus>,
}

#[derive(Debug, Clone)]
pub struct ServerStatus {
    pub server: String,
    pub producers: usize,
    pub consumers: usize,
    /// Events held for replay.
    pub buffered: usize,
    pub events_in: u64,
    pub events_out: u64,
    /// Events that a slow consumer missed.
    pub dropped: u64,
    /// Events that the buffer discarded because it filled up.
    pub ring_evicted: u64,
    /// Producer lines that did not parse.
    pub malformed: u64,
    pub last_seq: u64,
    /// Seconds since the last event, where the key has had one.
    pub last_event_secs: Option<u64>,
    /// False where the key is not among those the gateway allows.
    pub allowed: bool,
    /// Lines relayed from Discord into the game.
    pub said: u64,
    pub clients: Vec<ClientInfo>,
}

/// One live connection on a server key.
#[derive(Debug, Clone)]
pub struct ClientInfo {
    pub role: String,
    pub name: String,
    pub peer: String,
    pub since_secs: u64,
    pub v: u32,
}

/// Seconds without an event after which a key counts as quiet.
pub const QUIET_SECS: u64 = 900;

/// One word on the state of a key: the most common failure first.
pub open spec fn health_of(
    producers: int,
    consumers: int,
    last_event_secs: Option<u64>,
) -> Seq<char> {
    if producers == 0 {
        "no logger"@
    } else if consumers == 0 {
        "no reader"@
    } else if last_event_secs is None || last_event_secs->0 > QUIET_SECS {
        "quiet"@
    } else {
        "live"@
    }
}

impl ServerStatus {
    /// One word on the state of the key.
    pub fn health(&self) -> (s: &'static str)
        ensures
            s@ == health_of(self.producers as int, self.consumers as int, self.last_event_secs),
    {
        if self.producers == 0 {
            "no logger"
        } else if self.consumers == 0 {
            "no reader"
        } else {
            match self.last_event_secs {
                Some(secs) => if secs > QUIET_SECS {
                    "quiet"
                } else {
                    "live"
                },
                None => "quiet",
            }
        }
    }
}

/// Everything that can appear on the wire. Frames of a type that this build does
/// not know are `Unknown`, so that a newer gateway can add some.
#[derive(Debug, Clone)]
pub enum Frame {
    Chat(ChatEvent),
    PlayerEvent(PlayerEvent),
    /// Gateway to client, once, after the hello is accepted.
    Ready(Ready),
    /// Gateway to client, immediately before the connection is closed.
    Error(ProtocolError),
    /// Either direction: the socket is still alive.
    Ping(Ping),
    /// Discord to gateway to logger: say this in the game.
    Say(Say),
    /// Gateway to status client.
    Status(GatewayStatus),
    Unknown,
}

/// The payload of a frame that carries one.
pub open spec fn payload(frame: Frame) -> Option<StreamEvent> {
    match frame {
        Frame::Chat(c) => Some(StreamEvent::Chat(c)),
        Frame::PlayerEvent(e) => Some(StreamEvent::PlayerEvent(e)),
        _ => None,
    }
}

/// The frame that carries an event.
pub open spec fn frame_of(event: StreamEvent) -> Frame {
    match event {
        StreamEvent::Chat(c) => Frame::Chat(c),
        StreamEvent::PlayerEvent(e) => Frame::PlayerEvent(e),
    }
}

impl Frame {
    /// The feed payload, where this frame carries one.
    pub fn into_event(self) -> (r: Option<StreamEvent>)
        ensures
            r == payload(self),
    {
        match self {
            Frame::Chat(c) => Some(StreamEvent::Chat(c)),
            Frame::PlayerEvent(e) => Some(StreamEvent::PlayerEvent(e)),
            _ => None,
        }
    }
}

impl From<StreamEvent> for Frame {
    fn from(event: StreamEvent) -> (f: Self) {
        match event {
            StreamEvent::Chat(c) => Frame::Chat(c),
            StreamEvent::PlayerEvent(e) => Frame::PlayerEvent(e),
        }
    }
}

impl vstd::std_specs::convert::FromSpecImpl<StreamEvent> for Frame {
    open spec fn obeys_from_spec() -> bool {
        true
    }

    open spec fn from_spec(event: StreamEvent) -> Frame {
        frame_of(event)
    }
}

/// An event that is put in a frame comes out of it as it was.
pub proof fn lemma_frame_carries_event(event: StreamEvent)
    ensures
        payload(frame_of(event)) == Some(event),
{
}

/// The bytes of one line: the encoded value and a line feed.
pub fn encode_line(encoded: Vec<u8>) -> (line: Vec<u8>)
    ensures
        line@ == encoded@.push(10u8),
{
    let mut line = encoded;
    line.push(10u8);
    line
}

// ---------------------------------------------------------------------------
// Producer
// ---------------------------------------------------------------------------

/// How the logger introduces itself.
pub open spec fn producing(
    server: Seq<char>,
    env_token: Option<Seq<char>>,
    token: Option<Seq<char>>,
) -> HelloText {
    HelloText {
        client: Some("azalea-bot"@),
        ..plain_hello(
            Role::Producer,
            server,
            0,
            if token is Some {
                token
            } else {
                env_token
            },
        )
    }
}

/// The hello of the logger.
pub fn producer_hello(server: &str, env_token: Option<String>, token: Option<String>) -> (h: Hello)
    ensures
        h@ == producing(server@, text::opt_text(env_token), text::opt_text(token)),
{
    Hello::producer(text::copy(server), env_token).with_token(token).with_client(
        text::copy("azalea-bot"),
    )
}

/// What a producer does about a frame.
pub enum ProducerStep {
    Accepted(Ready),
    Rejected(ProtocolError),
    /// Somebody in Discord wants this said in the game.
    Say(Say),
    Ignore,
}

/// What a producer makes of a frame.
pub open spec fn produced(frame: Frame) -> ProducerStep {
    match frame {
        Frame::Ready(ready) => ProducerStep::Accepted(ready),
        Frame::Error(err) => ProducerStep::Rejected(err),
        Frame::Say(say) => ProducerStep::Say(say),
        _ => ProducerStep::Ignore,
    }
}

/// What a producer does about a frame.
pub fn producer_step(frame: Frame) -> (step: ProducerStep)
    ensures
        step == produced(frame),
{
    match frame {
        Frame::Ready(ready) => ProducerStep::Accepted(ready),
        Frame::Error(err) => ProducerStep::Rejected(err),
        Frame::Say(say) => ProducerStep::Say(say),
        _ => ProducerStep::Ignore,
    }
}

/// How many seconds lie before the next try.
pub open spec fn retry_after(rejected: bool) -> u64 {
    if rejected {
        REJECTED_DELAY_SECS
    } else {
        RECONNECT_DELAY_SECS
    }
}

/// Seconds until the next try: a rejection waits longer than a lost link.
pub fn retry_delay_secs(rejected: bool) -> (secs: u64)
    ensures
        secs == retry_after(rejected),
{
    if rejected {
        REJECTED_DELAY_SECS
    } else {
        RECONNECT_DELAY_SECS
    }
}

// ---------------------------------------------------------------------------
// Consumer
// ---------------------------------------------------------------------------

/// Options of a consumer.
#[derive(Debug, Clone)]
pub struct SubscribeOptions {
    /// Events to replay on the first connection.
    pub replay: u32,
    /// Start after this sequence instead.
    pub since: Option<u64>,
    pub token: Option<String>,
    /// The name shown in the gateway's logs.
    pub client: Option<String>,
}

/// What a consumer remembers across connections.
pub struct StreamSubscriber {
    /// The highest sequence handed on so far; zero before any.
    pub last_seq: u64,
    pub connected: bool,
}

/// The resume point of a hello.
pub open spec fn resume_point(last_seq: u64) -> Option<u64> {
    if last_seq > 0 {
        Some(last_seq)
    } else {
        None
    }
}

/// How a consumer introduces itself that was given events up to that number.
pub open spec fn consuming(
    last_seq: u64,
    server: Seq<char>,
    env_token: Option<Seq<char>>,
    opts: SubscribeOptions,
) -> HelloText {
    HelloText {
        since_seq: resume_point(last_seq),
        client: text::opt_text(opts.client),
        ..plain_hello(
            Role::Consumer,
            server,
            opts.replay,
            if opts.token is Some {
                text::opt_text(opts.token)
            } else {
                env_token
            },
        )
    }
}

/// What a consumer does about a frame.
pub enum ConsumerStep {
    /// Hand the event on.
    Deliver(StreamEvent),
    /// The hello was accepted.
    Accepted(Ready),
    /// The gateway rejected the consumer; the connection is over.
    Rejected(ProtocolError),
    Ignore,
}

/// The highest sequence after a frame, where `seen` was the resume point of this
/// connection. A gateway whose sequences are behind ours is another one, and its
/// feed is taken from the top.
pub open spec fn seq_after(last_seq: u64, seen: u64, frame: Frame) -> u64 {
    match payload(frame) {
        Some(event) => match event_seq(event) {
            Some(seq) if seq > last_seq => seq,
            _ => last_seq,
        },
        None => match frame {
            Frame::Ready(ready) if 0 < ready.last_seq < seen => 0,
            _ => last_seq,
        },
    }
}

/// What a consumer makes of a frame.
pub open spec fn consumed(frame: Frame) -> ConsumerStep {
    match frame {
        Frame::Chat(c) => ConsumerStep::Deliver(StreamEvent::Chat(c)),
        Frame::PlayerEvent(e) => ConsumerStep::Deliver(StreamEvent::PlayerEvent(e)),
        Frame::Ready(ready) => ConsumerStep::Accepted(ready),
        Frame::Error(err) => ConsumerStep::Rejected(err),
        _ => ConsumerStep::Ignore,
    }
}

/// Whether the link counts as up after a frame.
pub open spec fn up_after(connected: bool, frame: Frame) -> bool {
    connected || payload(frame) is Some || frame is Ready
}

impl StreamSubscriber {
    pub fn new(opts: &SubscribeOptions) -> (s: Self)
        ensures
            s.last_seq == (match opts.since {
                Some(seq) => seq,
                None => 0,
            }),
            !s.connected,
    {
        let last_seq: u64 = match opts.since {
            Some(seq) => seq,
            None => 0,
        };
        StreamSubscriber { last_seq, connected: false }
    }

    /// The hello of the next connection.
    pub fn hello(&self, server: &str, env_token: Option<String>, opts: &SubscribeOptions) -> (h:
        Hello)
        ensures
            h@ == consuming(self.last_seq, server@, text::opt_text(env_token), *opts),
    {
        let since: Option<u64> = if self.last_seq > 0 {
            Some(self.last_seq)
        } else {
            None
        };
        let hello = Hello::consumer(text::copy(server), opts.replay, env_token).with_token(
            text::copy_opt(&opts.token),
        ).with_since_seq(since);
        match &opts.client {
            Some(client) => hello.with_client(client.clone()),
            None => hello,
        }
    }

    /// Takes in a frame on a connection whose hello had `seen` as the highest
    /// sequence.
    pub fn take(&mut self, seen: u64, frame: Frame) -> (step: ConsumerStep)
        ensures
            final(self).last_seq == seq_after(old(self).last_seq, seen, frame),
            final(self).connected == up_after(old(self).connected, frame),
            step == consumed(frame),
    {
        match frame {
            Frame::Ready(ready) => {
                self.connected = true;
                if ready.last_seq > 0 && ready.last_seq < seen {
                    self.last_seq = 0;
                }
                ConsumerStep::Accepted(ready)
            },
            Frame::Error(err) => ConsumerStep::Rejected(err),
            Frame::Chat(c) => self.deliver(StreamEvent::Chat(c)),
            Frame::PlayerEvent(e) => self.deliver(StreamEvent::PlayerEvent(e)),
            Frame::Ping(_) | Frame::Status(_) | Frame::Say(_) | Frame::Unknown => ConsumerStep::Ignore,
        }
    }

    fn deliver(&mut self, event: StreamEvent) -> (step: ConsumerStep)
        ensures
            step == ConsumerStep::Deliver(event),
            final(self).connected,
            final(self).last_seq == (match event_seq(event) {
                Some(seq) if seq > old(self).last_seq => seq,
                _ => old(self).last_seq,
            }),
    {
        self.connected = true;
        if let Some(seq) = event.seq() {
            if seq > self.last_seq {
                self.last_seq = seq;
            }
        }
        ConsumerStep::Deliver(event)
    }

    /// The connection is gone.
    pub fn lost(&mut self)
        ensures
            !final(self).connected,
            final(self).last_seq == old(self).last_seq,
    {
        self.connected = false;
    }
}

/// The highest sequence after a list of frames on one connection.
pub open spec fn seq_after_all(last_seq: u64, seen: u64, frames: Seq<Frame>) -> u64
    decreases frames.len(),
{
    if frames.len() == 0 {
        last_seq
    } else {
        seq_after(seq_after_all(last_seq, seen, frames.drop_last()), seen, frames.last())
    }
}

/// A reconnecting consumer asks for exactly what it missed: its resume point is
/// not below any event that it was given, and is the number of one of them or
/// where it was before. Holds on every connection to a gateway whose sequences
/// are not behind the consumer's.
pub proof fn lemma_resumes_where_it_left_off(last_seq: u64, seen: u64, frames: Seq<Frame>)
    requires
        forall|i: int|
            0 <= i < frames.len() ==> !(#[trigger] frames[i] matches Frame::Ready(r) && 0
                < r.last_seq && r.last_seq < seen),
    ensures
        seq_after_all(last_seq, seen, frames) >= last_seq,
        forall|i: int|
            0 <= i < frames.len() && payload(#[trigger] frames[i]) is Some && event_seq(
                payload(frames[i])->0,
            ) is Some ==> event_seq(payload(frames[i])->0)->0 <= seq_after_all(
                last_seq,
                seen,
                frames,
            ),
        seq_after_all(last_seq, seen, frames) == last_seq || exists|i: int|
            0 <= i < frames.len() && payload(#[trigger] frames[i]) is Some && event_seq(
                payload(frames[i])->0,
            ) == Some(seq_after_all(last_seq, seen, frames)),
    decreases frames.len(),
{
    if frames.len() > 0 {
        let init = frames.drop_last();
        assert forall|i: int| 0 <= i < init.len() implies !(#[trigger] init[i] matches Frame::Ready(
            r,
        ) && 0 < r.last_seq && r.last_seq < seen) by {
            assert(init[i] == frames[i]);
        }
        lemma_resumes_where_it_left_off(last_seq, seen, init);
        let before = seq_after_all(last_seq, seen, init);
        let now = seq_after_all(last_seq, seen, frames);
        assert(frames[frames.len() - 1] == frames.last());
        assert forall|i: int|
            0 <= i < frames.len() && payload(#[trigger] frames[i]) is Some && event_seq(
                payload(frames[i])->0,
            ) is Some implies event_seq(payload(frames[i])->0)->0 <= now by {
            if i < init.len() {
                assert(init[i] == frames[i]);
            }
        }
        if now != last_seq {
            if now == before {
                let i = choose|i: int|
                    0 <= i < init.len() && payload(#[trigger] init[i]) is Some && event_seq(
                        payload(init[i])->0,
                    ) == Some(before);
                assert(frames[i] == init[i]);
            } else {
                assert(payload(frames[frames.len() - 1]) is Some);
            }
        }
    }
}

// ---------------------------------------------------------------------------
// Status
// ---------------------------------------------------------------------------

/// Why a snapshot was not given.
pub enum StatusError {
    Rejected(ProtocolError),
    /// The gateway answered with another frame.
    Unexpected,
}

/// What the answer of a gateway comes to.
pub open spec fn snapshot_in(frame: Frame) -> Result<GatewayStatus, StatusError> {
    match frame {
        Frame::Status(status) => Ok(status),
        Frame::Error(err) => Err(StatusError::Rejected(err)),
        _ => Err(StatusError::Unexpected),
    }
}

/// The snapshot in the answer of a gateway.
pub fn status_reply(frame: Frame) -> (r: Result<GatewayStatus, StatusError>)
    ensures
        r == snapshot_in(frame),
{
    match frame {
        Frame::Status(status) => Ok(status),
        Frame::Error(err) => Err(StatusError::Rejected(err)),
        _ => Err(StatusError::Unexpected),
    }
}

/// Whether a line holds a frame at all.
pub fn is_blank(line: &str) -> (b: bool)
    ensures
        b == (text::trimmed(line@).len() == 0),
{
    text::trim(line).as_str().is_empty()
}

// ---------------------------------------------------------------------------
// What each side of a stream does
// ---------------------------------------------------------------------------

/// A producer is told that it is accepted or rejected and what to say, and nothing else
/// reaches it; a consumer is handed every event, and is never told to speak.
pub proof fn lemma_frames_reach_their_side(frame: Frame)
    ensures
        frame matches Frame::Ready(r) ==> produced(frame) == ProducerStep::Accepted(r) && consumed(frame)
            == ConsumerStep::Accepted(r),
        frame matches Frame::Error(e) ==> produced(frame) == ProducerStep::Rejected(e) && consumed(frame)
            == ConsumerStep::Rejected(e),
        frame matches Frame::Say(s) ==> produced(frame) == ProducerStep::Say(s) && consumed(frame)
            is Ignore,
        payload(frame) matches Some(event) ==> produced(frame) is Ignore && consumed(frame)
            == ConsumerStep::Deliver(event),
        frame is Ping || frame is Status || frame is Unknown ==> produced(frame) is Ignore && consumed(
            frame,
        ) is Ignore,
        payload(frame) matches Some(event) ==> frame_of(event) == frame,
        payload(frame) is Some <==> frame is Chat || frame is PlayerEvent,
        frame matches Frame::Status(s) ==> snapshot_in(frame) == Ok::<GatewayStatus, StatusError>(s),
        frame !is Status ==> snapshot_in(frame) is Err,
{
}

/// A rejection is waited out longer than a lost link.
pub proof fn lemma_rejections_wait_longer()
    ensures
        retry_after(false) == 2,
        retry_after(true) == 30,
{
}

/// A logger introduces itself as a producer and asks for nothing; a token of its own goes
/// before the one of the surroundings.
pub proof fn lemma_loggers_introduce_themselves(
    server: Seq<char>,
    env_token: Option<Seq<char>>,
    token: Option<Seq<char>>,
)
    ensures
        ({
            let h = producing(server, env_token, token);
            &&& h.v == 2
            &&& h.role == Role::Producer
            &&& h.server == server
            &&& h.replay == 0
            &&& h.since_seq is None
            &&& h.client == Some("azalea-bot"@)
            &&& token is Some ==> h.token == token
            &&& token is None ==> h.token == env_token
        }),
{
}

/// A consumer introduces itself as one and asks for what comes behind the last event it
/// was given, or for a replay before any.
pub proof fn lemma_readers_introduce_themselves(
    last_seq: u64,
    server: Seq<char>,
    env_token: Option<Seq<char>>,
    opts: SubscribeOptions,
)
    ensures
        ({
            let h = consuming(last_seq, server, env_token, opts);
            &&& h.v == 2
            &&& h.role == Role::Consumer
            &&& h.server == server
            &&& h.replay == opts.replay
            &&& last_seq > 0 ==> h.since_seq == Some(last_seq)
            &&& last_seq == 0 ==> h.since_seq is None
            &&& opts.token is Some ==> h.token == Some(opts.token->0@)
            &&& opts.token is None ==> h.token == env_token
            &&& opts.client is Some ==> h.client == Some(opts.client->0@)
        }),
{
}

/// An event moves the number on and never back; a gateway whose numbers are behind starts
/// over, and nothing else changes the number.
pub proof fn lemma_numbers_move_on(last_seq: u64, seen: u64, frame: Frame)
    ensures
        payload(frame) matches Some(event) ==> (event_seq(event) matches Some(seq) ==> seq_after(
            last_seq,
            seen,
            frame,
        ) == (if seq > last_seq {
            seq
        } else {
            last_seq
        })),
        payload(frame) matches Some(event) ==> (event_seq(event) is None ==> seq_after(
            last_seq,
            seen,
            frame,
        ) == last_seq),
        frame matches Frame::Ready(r) ==> (0 < r.last_seq < seen ==> seq_after(last_seq, seen, frame)
            == 0),
        frame matches Frame::Ready(r) ==> (r.last_seq == 0 || r.last_seq >= seen ==> seq_after(
            last_seq,
            seen,
            frame,
        ) == last_seq),
        frame is Error || frame is Ping || frame is Say || frame is Status || frame is Unknown
            ==> seq_after(last_seq, seen, frame) == last_seq && up_after(false, frame) == false,
        frame is Ready || frame is Chat || frame is PlayerEvent ==> up_after(false, frame),
        up_after(true, frame),
{
}

/// An event tells of its sender, of who it is about, and of its killer; whose head it shows
/// is the sender, or else who it is about.
pub proof fn lemma_events_tell_of_players(c: ChatEvent, e: PlayerEvent)
    ensures
        player_of(StreamEvent::PlayerEvent(e)) == Some(e.player_name@),
        names_of(StreamEvent::PlayerEvent(e)) == seq![e.player_name@],
        c.sender_name is Some ==> player_of(StreamEvent::Chat(c)) == Some(c.sender_name->0@),
        c.sender_name is None && c.subject_name is Some ==> player_of(StreamEvent::Chat(c)) == Some(
            c.subject_name->0@,
        ),
        event_seq(StreamEvent::Chat(c)) == c.seq,
        event_seq(StreamEvent::PlayerEvent(e)) == e.seq,
{
}

/// A server without a logger has none; one that nobody reads has no reader; one of which
/// nothing came for a quarter of an hour is quiet; any other is live.
pub proof fn lemma_health(producers: int, consumers: int, secs: u64)
    requires
        producers > 0,
        consumers > 0,
    ensures
        health_of(0, consumers, Some(secs)) == "no logger"@,
        health_of(producers, 0, Some(secs)) == "no reader"@,
        health_of(producers, consumers, None) == "quiet"@,
        secs > 900 ==> health_of(producers, consumers, Some(secs)) == "quiet"@,
        secs <= 900 ==> health_of(producers, consumers, Some(secs)) == "live"@,
{
}

/// The errors that end the tries; no shorter word is one.
pub proof fn lemma_fatal_errors(code: Seq<char>)
    ensures
        fatal("unauthorized"@),
        fatal("unknown_server"@),
        fatal("bad_version"@),
        fatal("missing_server"@),
        code.len() < 11 ==> !fatal(code),
{
    reveal_strlit("unauthorized");
    reveal_strlit("unknown_server");
    reveal_strlit("bad_version");
    reveal_strlit("missing_server");
    assert("unauthorized"@.len() == 12 && "unknown_server"@.len() == 14);
    assert("bad_version"@.len() == 11 && "missing_server"@.len() == 14);
}

/// A token that is blank counts as none.
pub proof fn lemma_tokens(s: Seq<char>)
    ensures
        token_in(None) is None,
        text::trimmed(s).len() == 0 ==> token_in(Some(s)) is None,
        text::trimmed(s).len() > 0 ==> token_in(Some(s)) == Some(text::trimmed(s)),
{
}

/// The event under that number.
pub open spec fn numbered(event: StreamEvent, seq: u64) -> StreamEvent {
    match event {
        StreamEvent::Chat(c) => StreamEvent::Chat(ChatEvent { seq: Some(seq), ..c }),
        StreamEvent::PlayerEvent(e) => StreamEvent::PlayerEvent(PlayerEvent { seq: Some(seq), ..e }),
    }
}

/// When an event was.
pub open spec fn time_of(event: StreamEvent) -> i64 {
    match event {
        StreamEvent::Chat(c) => c.ts,
        StreamEvent::PlayerEvent(e) => e.ts,
    }
}

/// What kind of event it is.
pub open spec fn kind_of(event: StreamEvent) -> Seq<char> {
    match event {
        StreamEvent::Chat(c) => c.kind@,
        StreamEvent::PlayerEvent(e) => e.event_type@,
    }
}

/// A number is the number of its event from there on, and changes nothing else.
pub proof fn lemma_events_are_numbered(event: StreamEvent, a: u64, b: u64)
    ensures
        event_seq(numbered(event, a)) == Some(a),
        numbered(numbered(event, a), b) == numbered(event, b),
        time_of(numbered(event, a)) == time_of(event),
        kind_of(numbered(event, a)) == kind_of(event),
        names_of(numbered(event, a)) == names_of(event),
        player_of(numbered(event, a)) == player_of(event),
        event is Chat ==> time_of(event) == event->Chat_0.ts && kind_of(event) == event->Chat_0.kind@,
        event is PlayerEvent ==> time_of(event) == event->PlayerEvent_0.ts && kind_of(event)
            == event->PlayerEvent_0.event_type@,
{
}

} // verus!
