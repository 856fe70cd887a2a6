//! What the logger in the game does about what it sees.
//!
//! The client hands over each event and performs the actions that come back, in
//! order. Whatever is decided on the way is decided here.
use vstd::prelude::*;
use vstd::string::*;

use crate::classify;
use crate::classify::{Classification, Classifier, Kind};
use crate::deaths;
use crate::presence;
use crate::rows::{ChatRow, PlayerEventRow};
use crate::text;

verus! {

// ---------------------------------------------------------------------------
// A line of chat
// ---------------------------------------------------------------------------

/// The packet that a line came in.
#[derive(Debug, Clone, Copy, PartialEq, Eq, Structural)]
pub enum PacketSource {
    Player,
    System,
    Disguised,
}

pub open spec fn source_code(source: PacketSource) -> Seq<char> {
    match source {
        PacketSource::Player => "p"@,
        PacketSource::System => "s"@,
        PacketSource::Disguised => "d"@,
    }
}

impl PacketSource {
    pub fn code(self) -> (s: &'static str)
        ensures
            s@ == source_code(self),
    {
        match self {
            PacketSource::Player => "p",
            PacketSource::System => "s",
            PacketSource::Disguised => "d",
        }
    }
}

/// A line of chat as it came.
pub struct ChatPacket {
    pub source: PacketSource,
    pub plain_text: String,
    /// The line with its colours.
    pub ansi: String,
    pub is_whisper: bool,
    /// The sender and the content that a player packet carries.
    pub sender: Option<String>,
    pub sender_uuid: Option<u128>,
    pub content: String,
}

/// The contents of a [`ChatPacket`].
pub struct PacketText {
    pub source: PacketSource,
    pub plain: Seq<char>,
    pub ansi: Seq<char>,
    pub is_whisper: bool,
    pub sender: Option<Seq<char>>,
    pub sender_uuid: Option<u128>,
    pub content: Seq<char>,
}

impl View for ChatPacket {
    type V = PacketText;

    open spec fn view(&self) -> PacketText {
        PacketText {
            source: self.source,
            plain: self.plain_text@,
            ansi: self.ansi@,
            is_whisper: self.is_whisper,
            sender: text::opt_text(self.sender),
            sender_uuid: self.sender_uuid,
            content: self.content@,
        }
    }
}

/// The contents of a row of chat.
#[verifier::ext_equal]
pub struct ChatRowText {
    pub session_id: i64,
    pub received_at: i64,
    pub source: Seq<char>,
    pub kind: Seq<char>,
    pub sender_name: Option<Seq<char>>,
    pub sender_uuid: Option<u128>,
    pub subject_name: Option<Seq<char>>,
    pub killer_name: Option<Seq<char>>,
    pub sender_label: Option<Seq<char>>,
    pub plain_text: Seq<char>,
    pub ansi: Option<Seq<char>>,
}

pub open spec fn chat_row_text(row: ChatRow) -> ChatRowText {
    ChatRowText {
        session_id: row.session_id,
        received_at: row.received_at,
        source: row.source@,
        kind: row.kind@,
        sender_name: text::opt_text(row.sender_name),
        sender_uuid: row.sender_uuid,
        subject_name: text::opt_text(row.subject_name),
        killer_name: text::opt_text(row.killer_name),
        sender_label: text::opt_text(row.sender_label),
        plain_text: row.plain_text@,
        ansi: text::opt_text(row.ansi),
    }
}

/// The contents of a row of presence.
#[verifier::ext_equal]
pub struct EventRowText {
    pub session_id: i64,
    pub occurred_at: i64,
    pub event_type: Seq<char>,
    pub source: Seq<char>,
    pub player_name: Seq<char>,
    pub player_uuid: Option<u128>,
    pub ansi: Option<Seq<char>>,
}

pub open spec fn event_row_text(row: PlayerEventRow) -> EventRowText {
    EventRowText {
        session_id: row.session_id,
        occurred_at: row.occurred_at,
        event_type: row.event_type@,
        source: row.source@,
        player_name: row.player_name@,
        player_uuid: row.player_uuid,
        ansi: text::opt_text(row.ansi),
    }
}

/// Who said a line: for a player packet its sender, for a system line whoever was
/// recovered from the text, and in both cases only a name a player can have.
pub open spec fn speaker(packet: PacketText, line: classify::LineText) -> Option<Seq<char>> {
    let raw = if packet.source == PacketSource::Player {
        packet.sender
    } else {
        line.sender
    };
    match raw {
        Some(name) => classify::cleaned(name, classify::formatted(name)),
        None => None,
    }
}

/// What was said.
pub open spec fn content_of(packet: PacketText, line: classify::LineText) -> Option<Seq<char>> {
    if packet.source == PacketSource::Player {
        Some(packet.content)
    } else {
        line.content
    }
}

/// The decoration of the speaker, where it says more than the name.
pub open spec fn shown_label(packet: PacketText, line: classify::LineText) -> Option<Seq<char>> {
    let label = if line.sender_label is Some {
        line.sender_label
    } else {
        match content_of(packet, line) {
            Some(body) => classify::label_of(packet.plain, body),
            None => None,
        }
    };
    if label is Some && label == speaker(packet, line) {
        None
    } else {
        label
    }
}

/// Whether a line is nobody's and is dropped: repeated notices and plugin
/// speakers, unless a real player said it, and player packets without a speaker.
pub open spec fn dropped(packet: PacketText, line: classify::LineText) -> bool {
    let who = speaker(packet, line);
    let content = content_of(packet, line);
    let is_player = packet.source == PacketSource::Player;
    let plugin = who matches Some(name) && classify::plugin_speaker(name);
    let spam = classify::spam(packet.plain) || (content matches Some(body) && classify::spam(body))
        || line.kind == Kind::Unknown;
    let real_player = is_player && who is Some && !plugin;
    ((spam || plugin) && !real_player) || (is_player && who is None)
}

/// From the last opening to the last closing bracket.
pub open spec fn bracketed(line: Seq<char>) -> Seq<char> {
    match (text::rfind_text(line, "["@), text::rfind_text(line, "]"@)) {
        (Some(start), Some(end)) if end > start => line.subrange(start, end + 1),
        _ => Seq::empty(),
    }
}

/// What is stored of a line: of chat the message, of a death nothing, of an
/// advancement its title, of the rest the line.
pub open spec fn stored_text(
    kind: Kind,
    content: Option<Seq<char>>,
    plain: Seq<char>,
) -> Seq<char> {
    match kind {
        Kind::Chat | Kind::Whisper => match content {
            Some(body) => body,
            None => plain,
        },
        Kind::Death => Seq::empty(),
        Kind::Advancement => bracketed(plain),
        _ => plain,
    }
}

pub fn title_in_brackets(line: &str) -> (r: String)
    ensures
        r@ == bracketed(line@),
{
    let v = text::chars_of(line);
    let open = text::rfind_in(&v, &text::chars_of("["));
    let close = text::rfind_in(&v, &text::chars_of("]"));
    proof {
        reveal_strlit("]");
    }
    match (open, close) {
        (Some(start), Some(end)) if end > start => text::string_of(&v, start, end + 1),
        _ => String::new(),
    }
}

pub fn text_to_store(kind: Kind, content: &Option<String>, plain: &str) -> (r: String)
    ensures
        r@ == stored_text(kind, text::opt_text(*content), plain@),
{
    match kind {
        Kind::Chat | Kind::Whisper => match content {
            Some(body) => body.clone(),
            None => text::copy(plain),
        },
        Kind::Death => String::new(),
        Kind::Advancement => title_in_brackets(plain),
        _ => text::copy(plain),
    }
}

/// What a line of chat depends on besides itself.
pub struct ChatContext {
    pub session_id: i64,
    /// Microseconds since the epoch.
    pub now_us: i64,
    /// A countdown of so many seconds marks everyone offline.
    pub restart_offline_secs: u64,
    /// Whether the tab list, and not chat, gives joins and leaves.
    pub tablist_joins: bool,
    pub bot_username: Option<String>,
}

/// The row of chat that a line gives. Joins and leaves give none: they live with
/// the presence events alone.
pub open spec fn chat_row(
    session_id: i64,
    now_us: i64,
    packet: PacketText,
    line: classify::LineText,
) -> Option<ChatRowText> {
    if dropped(packet, line) || line.kind == Kind::Join || line.kind == Kind::Leave {
        None
    } else {
        Some(
            ChatRowText {
                session_id,
                received_at: now_us,
                source: source_code(packet.source),
                kind: classify::kind_code(line.kind),
                sender_name: speaker(packet, line),
                sender_uuid: packet.sender_uuid,
                subject_name: line.subject,
                killer_name: line.killer,
                sender_label: shown_label(packet, line),
                plain_text: stored_text(line.kind, content_of(packet, line), packet.plain),
                ansi: Some(packet.ansi),
            },
        )
    }
}

/// Whether a line is a countdown that has run out. Only system lines count, so
/// that nobody clears the list by typing about restarts.
pub open spec fn restarts_now(
    packet: PacketText,
    line: classify::LineText,
    offline_secs: int,
) -> bool {
    &&& !dropped(packet, line)
    &&& packet.source != PacketSource::Player
    &&& classify::countdown(packet.plain) matches Some(secs) && secs <= offline_secs
}

/// The presence event that a line announces, where chat gives joins and leaves.
pub open spec fn announced_event(
    session_id: i64,
    now_us: i64,
    tablist_joins: bool,
    bot: Option<Seq<char>>,
    packet: PacketText,
    line: classify::LineText,
) -> Option<EventRowText> {
    if dropped(packet, line) || tablist_joins || !(line.kind == Kind::Join || line.kind
        == Kind::Leave) {
        None
    } else {
        match line.subject {
            Some(name) if !presence::own(bot, name) => Some(
                EventRowText {
                    session_id,
                    occurred_at: now_us,
                    event_type: classify::kind_code(line.kind),
                    source: "c"@,
                    player_name: name,
                    player_uuid: None,
                    ansi: Some(packet.ansi),
                },
            ),
            _ => None,
        }
    }
}

/// What a line of chat gives.
pub struct ChatOutcome {
    pub chat: Option<ChatRow>,
    /// A restart countdown ran out.
    pub restart: bool,
    pub event: Option<PlayerEventRow>,
}

pub open spec fn opt_chat_row(o: Option<ChatRow>) -> Option<ChatRowText> {
    match o {
        Some(row) => Some(chat_row_text(row)),
        None => None,
    }
}

pub open spec fn opt_event_row(o: Option<PlayerEventRow>) -> Option<EventRowText> {
    match o {
        Some(row) => Some(event_row_text(row)),
        None => None,
    }
}

/// What a line that was classified gives. The classification is the only thing
/// here that patterns decide.
pub fn chat_outcome(
    classifier: &Classifier,
    c: &ChatContext,
    packet: &ChatPacket,
    line: Classification,
) -> (r: ChatOutcome)
    ensures
        opt_chat_row(r.chat) == chat_row(c.session_id, c.now_us, packet@, line@),
        r.restart == restarts_now(packet@, line@, c.restart_offline_secs as int),
        opt_event_row(r.event) == announced_event(
            c.session_id,
            c.now_us,
            c.tablist_joins,
            text::opt_text(c.bot_username),
            packet@,
            line@,
        ),
{
    let ghost known = line@;
    let is_player = packet.source == PacketSource::Player;
    let raw = if is_player {
        text::copy_opt(&packet.sender)
    } else {
        text::copy_opt(&line.sender)
    };
    let sender_name = match &raw {
        Some(name) => classify::clean_player_name(name),
        None => None,
    };
    let content = if is_player {
        Some(packet.content.clone())
    } else {
        text::copy_opt(&line.content)
    };
    let label = match &line.sender_label {
        Some(l) => Some(l.clone()),
        None => match &content {
            Some(body) => classify::label_before_content(&packet.plain_text, body),
            None => None,
        },
    };
    let sender_label = if label.is_some() && text::same_opt(&label, &sender_name) {
        None
    } else {
        label
    };
    let plugin = match &sender_name {
        Some(name) => classify::is_plugin_speaker(name),
        None => false,
    };
    let content_spam = match &content {
        Some(body) => classify::is_bridge_spam(body),
        None => false,
    };
    let spam = classify::is_bridge_spam(&packet.plain_text) || content_spam || line.kind
        == Kind::Unknown;
    let real_player = is_player && sender_name.is_some() && !plugin;
    if ((spam || plugin) && !real_player) || (is_player && sender_name.is_none()) {
        return ChatOutcome { chat: None, restart: false, event: None };
    }
    let presence_line = line.kind == Kind::Join || line.kind == Kind::Leave;
    let chat = if presence_line {
        None
    } else {
        let row = ChatRow {
            session_id: c.session_id,
            received_at: c.now_us,
            source: text::copy(packet.source.code()),
            kind: text::copy(line.kind.as_str()),
            plain_text: text_to_store(line.kind, &content, &packet.plain_text),
            sender_name,
            sender_uuid: packet.sender_uuid,
            subject_name: text::copy_opt(&line.subject),
            killer_name: text::copy_opt(&line.killer),
            sender_label,
            ansi: Some(packet.ansi.clone()),
        };
        assert(Some(chat_row_text(row)) == chat_row(c.session_id, c.now_us, packet@, known));
        Some(row)
    };
    let restart = if is_player {
        false
    } else {
        match classify::read_countdown(&classifier.patterns, &packet.plain_text) {
            Ok(Some(secs)) => secs <= c.restart_offline_secs,
            _ => false,
        }
    };
    let event = if presence_line && !c.tablist_joins {
        match &line.subject {
            Some(name) => if presence::is_own_bot(&c.bot_username, name) {
                None
            } else {
                Some(
                    PlayerEventRow {
                        session_id: c.session_id,
                        occurred_at: c.now_us,
                        event_type: text::copy(line.kind.as_str()),
                        source: text::copy("c"),
                        player_name: name.clone(),
                        player_uuid: None,
                        ansi: Some(packet.ansi.clone()),
                    },
                )
            },
            None => None,
        }
    } else {
        None
    };
    ChatOutcome { chat, restart, event }
}

/// What a packet of chat is classified as.
pub open spec fn line_of(matchers: Seq<deaths::MatcherText>, packet: PacketText) -> classify::LineText {
    classify::classified(
        matchers,
        packet.plain,
        packet.source == PacketSource::Player,
        packet.is_whisper,
        None,
    )
}

/// What a line of chat gives.
pub fn handle_chat(classifier: &Classifier, c: &ChatContext, packet: &ChatPacket) -> (r: ChatOutcome)
    ensures
        ({
            let line = line_of(deaths::matcher_texts(classifier.deaths@), packet@);
            &&& opt_chat_row(r.chat) == chat_row(c.session_id, c.now_us, packet@, line)
            &&& r.restart == restarts_now(packet@, line, c.restart_offline_secs as int)
            &&& opt_event_row(r.event) == announced_event(
                c.session_id,
                c.now_us,
                c.tablist_joins,
                text::opt_text(c.bot_username),
                packet@,
                line,
            )
        }),
{
    let line = classify::classify(
        classifier,
        &packet.plain_text,
        packet.source == PacketSource::Player,
        packet.is_whisper,
        None,
    );
    chat_outcome(classifier, c, packet, line)
}

/// A line is written as chat or announced as an event, never as both.
pub proof fn lemma_chat_or_event(
    session_id: i64,
    now_us: i64,
    tablist_joins: bool,
    bot: Option<Seq<char>>,
    packet: PacketText,
    line: classify::LineText,
)
    ensures
        chat_row(session_id, now_us, packet, line) is None || announced_event(
            session_id,
            now_us,
            tablist_joins,
            bot,
            packet,
            line,
        ) is None,
{
}

/// Nobody clears the online list by typing: a player packet is never a restart.
pub proof fn lemma_players_cannot_restart(
    packet: PacketText,
    line: classify::LineText,
    offline_secs: int,
)
    requires
        packet.source == PacketSource::Player,
    ensures
        !restarts_now(packet, line, offline_secs),
{
}

/// Whoever is stored as the sender has a name that a player can have, and a label
/// that is stored differs from it.
pub proof fn lemma_stored_senders(
    session_id: i64,
    now_us: i64,
    packet: PacketText,
    line: classify::LineText,
)
    ensures
        chat_row(session_id, now_us, packet, line) matches Some(row) ==> {
            &&& row.sender_name matches Some(name) ==> classify::player_shaped(name)
            &&& row.sender_label is Some ==> row.sender_label != row.sender_name
        },
{
}

// ---------------------------------------------------------------------------
// Lines from Discord
// ---------------------------------------------------------------------------

/// The most characters of a line in the game.
pub const MAX_SAY_CHARS: usize = 256;

/// The characters of a line that may be spoken.
pub open spec fn speakable() -> spec_fn(char) -> bool {
    |c: char| !text::is_control(c)
}

/// The text without its section signs, and without each code character that stands
/// directly behind one.
pub open spec fn uncoloured(s: Seq<char>) -> Seq<char>
    decreases s.len(),
{
    if s.len() == 0 {
        Seq::empty()
    } else if s[0] != '§' {
        seq![s[0]] + uncoloured(s.skip(1))
    } else if s.len() > 1 && classify::legacy_code(s[1]) {
        uncoloured(s.skip(2))
    } else {
        uncoloured(s.skip(1))
    }
}

fn uncolour(s: &str) -> (r: String)
    ensures
        r@ == uncoloured(s@),
{
    let v = text::chars_of(s);
    let mut out = String::new();
    let mut i: usize = 0;
    assert(v@.skip(0) =~= s@);
    assert(out@ + uncoloured(s@) =~= uncoloured(s@));
    while i < v.len()
        invariant
            i <= v.len(),
            out@ + uncoloured(v@.skip(i as int)) == uncoloured(s@),
        decreases v.len() - i,
    {
        let ghost rest = v@.skip(i as int);
        let ghost before = out@;
        assert(rest.skip(1) =~= v@.skip(i + 1));
        if v[i] != '§' {
            out.push(v[i]);
            assert(before + (seq![rest[0]] + uncoloured(rest.skip(1))) =~= out@ + uncoloured(
                rest.skip(1),
            ));
            i += 1;
        } else if i + 1 < v.len() && classify::is_legacy_code_char(v[i + 1]) {
            assert(rest.skip(2) =~= v@.skip(i + 2));
            i += 2;
        } else {
            i += 1;
        }
    }
    proof {
        assert(v@.skip(i as int).len() == 0);
        assert(out@ + uncoloured(v@.skip(i as int)) =~= out@);
    }
    out
}

/// A text without its colour codes, its control characters and the space around
/// it.
pub open spec fn guarded(s: Seq<char>) -> Seq<char> {
    text::trimmed(text::kept(uncoloured(s), speakable()))
}

fn guard(s: &str) -> (r: String)
    ensures
        r@ == guarded(s@),
{
    let plain = uncolour(s);
    let v = text::chars_of(&plain);
    let mut kept = String::new();
    for i in 0..v.len()
        invariant
            v@ == plain@,
            kept@ == text::kept(plain@.take(i as int), speakable()),
    {
        assert(plain@.take(i + 1).drop_last() =~= plain@.take(i as int));
        if !text::control(v[i]) {
            kept.push(v[i]);
        }
    }
    assert(plain@.take(plain@.len() as int) =~= plain@);
    text::trim(&kept)
}

/// What becomes of a line from Discord.
pub enum Relay {
    /// Nothing is left of it.
    Empty,
    /// It is a command, and those are not allowed.
    Refused,
    Speak(String),
}

/// The line that is spoken for somebody.
pub open spec fn spoken(prefix: Seq<char>, who: Seq<char>, said: Seq<char>) -> Seq<char> {
    let line = prefix + who + ": "@ + said;
    if line.len() > MAX_SAY_CHARS {
        line.take(MAX_SAY_CHARS as int)
    } else {
        line
    }
}

/// Who a line from Discord is from.
pub open spec fn said_by(from: Option<Seq<char>>) -> Seq<char> {
    match from {
        Some(name) => guarded(name),
        None => "discord"@,
    }
}

/// Guards what somebody else's keyboard makes this account say: no control
/// characters or colour codes in the words or in the name, nothing that the server
/// takes for a command unless commands are allowed, and no more than a line holds.
pub fn relay_line(said: &str, from: &Option<String>, prefix: &str, allow_commands: bool) -> (r: Relay)
    ensures
        relayed(
            r,
            guarded(said@),
            spoken(prefix@, said_by(text::opt_text(*from)), guarded(said@)),
            allow_commands,
        ),
        !allow_commands ==> (r matches Relay::Speak(line) ==> !text::begins(line@, "/"@)),
{
    let clean = guard(said);
    if clean.as_str().is_empty() {
        return Relay::Empty;
    }
    let who = match from {
        Some(name) => guard(name),
        None => text::copy("discord"),
    };
    let whole = text::cat4(prefix, &who, ": ", &clean);
    let chars = text::chars_of(&whole);
    let line = if chars.len() > MAX_SAY_CHARS {
        let cut = text::string_of(&chars, 0, MAX_SAY_CHARS);
        assert(cut@ =~= whole@.take(MAX_SAY_CHARS as int));
        cut
    } else {
        whole
    };
    if !allow_commands && (text::starts_with(&clean, "/") || text::starts_with(&line, "/")) {
        return Relay::Refused;
    }
    Relay::Speak(line)
}

/// A line that is spoken fits in a line of the game.
pub proof fn lemma_spoken_lines_fit(prefix: Seq<char>, who: Seq<char>, said: Seq<char>)
    ensures
        spoken(prefix, who, said).len() <= MAX_SAY_CHARS,
{
}

/// How long to wait before the next line is spoken, so that no two come closer than
/// the gap. `since_ms` is how long ago the last one was.
pub fn relay_wait(gap_ms: u64, since_ms: Option<u64>) -> (wait: u64)
    ensures
        wait == wait_for(gap_ms, since_ms),
{
    match since_ms {
        Some(ago) => if ago < gap_ms {
            gap_ms - ago
        } else {
            0
        },
        None => 0,
    }
}

// ---------------------------------------------------------------------------
// What is stored of a line
// ---------------------------------------------------------------------------

/// What a player says is stored under the player's name, with the words alone, as chat
/// or as a whisper.
pub proof fn lemma_words_of_players_are_stored(
    matchers: Seq<deaths::MatcherText>,
    session_id: i64,
    now_us: i64,
    packet: PacketText,
    name: Seq<char>,
)
    requires
        packet.source == PacketSource::Player,
        packet.sender == Some(name),
        classify::player_shaped(name),
        !classify::plugin_speaker(name),
    ensures
        chat_row(session_id, now_us, packet, line_of(matchers, packet)) matches Some(row) && {
            &&& row.session_id == session_id
            &&& row.received_at == now_us
            &&& row.source == "p"@
            &&& row.kind == (if packet.is_whisper {
                "w"@
            } else {
                "c"@
            })
            &&& row.sender_name == Some(name)
            &&& row.sender_uuid == packet.sender_uuid
            &&& row.subject_name is None
            &&& row.killer_name is None
            &&& row.plain_text == packet.content
            &&& row.ansi == Some(packet.ansi)
        },
{
    classify::lemma_player_names_are_clean(name);
}

/// What a player says under no name that a player can have is not stored.
pub proof fn lemma_nobody_says_nothing(
    matchers: Seq<deaths::MatcherText>,
    session_id: i64,
    now_us: i64,
    packet: PacketText,
)
    requires
        packet.source == PacketSource::Player,
        packet.sender is None || classify::plugin_speaker(packet.sender->0)
            && classify::player_shaped(packet.sender->0),
    ensures
        chat_row(session_id, now_us, packet, line_of(matchers, packet)) is None,
{
    if let Some(name) = packet.sender {
        classify::lemma_player_names_are_clean(name);
    }
}

/// What the server says for a player is stored under the name of the player, with the
/// words alone.
pub proof fn lemma_words_by_the_server_are_stored(
    session_id: i64,
    now_us: i64,
    packet: PacketText,
    line: classify::LineText,
    name: Seq<char>,
    words: Seq<char>,
)
    requires
        packet.source != PacketSource::Player,
        line.kind == Kind::Chat,
        line.sender == Some(name),
        line.content == Some(words),
        classify::player_shaped(name),
        !classify::plugin_speaker(name),
        !classify::spam(packet.plain),
        !classify::spam(words),
    ensures
        chat_row(session_id, now_us, packet, line) matches Some(row) && {
            &&& row.session_id == session_id
            &&& row.received_at == now_us
            &&& row.source == (if packet.source == PacketSource::System {
                "s"@
            } else {
                "d"@
            })
            &&& row.kind == "c"@
            &&& row.sender_name == Some(name)
            &&& row.subject_name == line.subject
            &&& row.killer_name == line.killer
            &&& row.plain_text == words
            &&& row.ansi == Some(packet.ansi)
        },
{
    classify::lemma_player_names_are_clean(name);
}

/// A death is stored with who died and by whom, and without a text; any other line of
/// the server that nobody said is stored as it stands.
pub proof fn lemma_lines_of_the_server_are_stored(
    session_id: i64,
    now_us: i64,
    packet: PacketText,
    line: classify::LineText,
)
    requires
        packet.source != PacketSource::Player,
        line.sender is None,
        line.content is None,
        line.kind != Kind::Unknown,
        line.kind != Kind::Join,
        line.kind != Kind::Leave,
        !classify::spam(packet.plain),
    ensures
        chat_row(session_id, now_us, packet, line) matches Some(row) && {
            &&& row.session_id == session_id
            &&& row.received_at == now_us
            &&& row.kind == classify::kind_code(line.kind)
            &&& row.sender_name is None
            &&& row.subject_name == line.subject
            &&& row.killer_name == line.killer
            &&& line.kind == Kind::Death ==> row.plain_text.len() == 0
            &&& line.kind == Kind::Server ==> row.plain_text == packet.plain
            &&& line.kind == Kind::Advancement ==> row.plain_text == bracketed(packet.plain)
        },
{
}

/// Of an advancement its title is stored, in its brackets.
pub proof fn lemma_titles_of_advancements(before: Seq<char>, title: Seq<char>, after: Seq<char>)
    requires
        !title.contains('['),
        !after.contains('['),
        !after.contains(']'),
    ensures
        bracketed(before.push('[') + title.push(']') + after) == seq!['['] + title + seq![']'],
{
    reveal_strlit("[");
    reveal_strlit("]");
    assert("["@ =~= seq!['[']);
    assert("]"@ =~= seq![']']);
    let line = before.push('[') + title.push(']') + after;
    let tail = title.push(']') + after;
    assert forall|i: int| 0 <= i < tail.len() implies tail[i] != '[' by {
        if i < title.len() {
            assert(title.contains(title[i]));
        } else if i > title.len() {
            assert(after.contains(after[i - title.len() - 1]));
        }
    }
    assert(line =~= before.push('[') + tail);
    text::lemma_last_one(before, '[', tail, "["@);
    let front = before.push('[') + title;
    assert(line =~= front.push(']') + after);
    text::lemma_last_one(front, ']', after, "]"@);
    assert(line.subrange(before.len() as int, (front.len() + 1) as int) =~= seq!['['] + title + seq![']']);
}

/// A join or leave that the server announces is stored as an event of that player,
/// unless the list of players tells of them anyway or the player is this account.
pub proof fn lemma_announced_joins_and_leaves_are_stored(
    session_id: i64,
    now_us: i64,
    bot: Option<Seq<char>>,
    packet: PacketText,
    line: classify::LineText,
    name: Seq<char>,
)
    requires
        packet.source != PacketSource::Player,
        line.kind == Kind::Join || line.kind == Kind::Leave,
        line.subject == Some(name),
        line.sender is None,
        line.content is None,
        !classify::spam(packet.plain),
    ensures
        chat_row(session_id, now_us, packet, line) is None,
        announced_event(session_id, now_us, true, bot, packet, line) is None,
        bot == Some(name) ==> announced_event(session_id, now_us, false, bot, packet, line) is None,
        bot is None || text::lowered(bot->0) != text::lowered(name) ==> (announced_event(
            session_id,
            now_us,
            false,
            bot,
            packet,
            line,
        ) matches Some(e) && {
            &&& e.session_id == session_id
            &&& e.occurred_at == now_us
            &&& e.event_type == (if line.kind == Kind::Join {
                "j"@
            } else {
                "l"@
            })
            &&& e.player_name == name
            &&& e.ansi == Some(packet.ansi)
        }),
{
}

/// A notice that is repeated over and over leaves nothing behind, unless a player says
/// it.
pub proof fn lemma_notices_are_not_stored(
    session_id: i64,
    now_us: i64,
    tablist_joins: bool,
    bot: Option<Seq<char>>,
    packet: PacketText,
    line: classify::LineText,
)
    requires
        packet.source != PacketSource::Player,
        classify::spam(packet.plain) || line.kind == Kind::Unknown,
    ensures
        chat_row(session_id, now_us, packet, line) is None,
        announced_event(session_id, now_us, tablist_joins, bot, packet, line) is None,
        forall|secs: int| !restarts_now(packet, line, secs),
{
}

/// A server that says it restarts now restarts, and one that counts down restarts once
/// no more time is left than it may take.
pub proof fn lemma_restarts_come_when_announced(
    packet: PacketText,
    line: classify::LineText,
    offline_secs: int,
)
    requires
        packet.source != PacketSource::Player,
        !dropped(packet, line),
    ensures
        classify::countdown(packet.plain) is None ==> !restarts_now(packet, line, offline_secs),
        classify::countdown(packet.plain) matches Some(secs) ==> (restarts_now(
            packet,
            line,
            offline_secs,
        ) <==> secs <= offline_secs),
{
}

/// A row is read field by field.
pub proof fn lemma_rows_are_read_by_field(row: ChatRow, event: PlayerEventRow)
    ensures
        ({
            let t = chat_row_text(row);
            &&& t.session_id == row.session_id && t.received_at == row.received_at
            &&& t.source == row.source@ && t.kind == row.kind@ && t.plain_text == row.plain_text@
            &&& t.sender_name is Some == row.sender_name is Some
            &&& row.sender_name is Some ==> t.sender_name == Some(row.sender_name->0@)
            &&& t.subject_name is Some == row.subject_name is Some
            &&& row.subject_name is Some ==> t.subject_name == Some(row.subject_name->0@)
            &&& t.killer_name is Some == row.killer_name is Some
            &&& row.killer_name is Some ==> t.killer_name == Some(row.killer_name->0@)
            &&& t.sender_label is Some == row.sender_label is Some
            &&& row.sender_label is Some ==> t.sender_label == Some(row.sender_label->0@)
            &&& t.sender_uuid == row.sender_uuid
        }),
        ({
            let t = event_row_text(event);
            &&& t.session_id == event.session_id && t.occurred_at == event.occurred_at
            &&& t.event_type == event.event_type@ && t.source == event.source@
            &&& t.player_name == event.player_name@ && t.player_uuid == event.player_uuid
        }),
{
}

proof fn lemma_uncoloured(s: Seq<char>)
    ensures
        !uncoloured(s).contains('§'),
        !s.contains('§') ==> uncoloured(s) == s,
    decreases s.len(),
{
    if s.len() > 0 {
        lemma_uncoloured(s.skip(1));
        if s[0] != '§' {
            let rest = uncoloured(s.skip(1));
            let all = seq![s[0]] + rest;
            assert forall|i: int| 0 <= i < all.len() implies all[i] != '§' by {
                if i > 0 {
                    assert(rest.contains(rest[i - 1]));
                }
            }
            if !s.contains('§') {
                assert forall|i: int| 0 <= i < s.skip(1).len() implies s.skip(1)[i] != '§' by {
                    assert(s.contains(s[i + 1]));
                }
                assert(s =~= seq![s[0]] + s.skip(1));
            }
        } else {
            assert(s.contains(s[0]));
            if s.len() > 1 {
                lemma_uncoloured(s.skip(2));
            }
        }
    }
}

/// Nothing that is spoken has a section sign or a control character, and words that have
/// neither are spoken as they stand, without the space around them.
pub proof fn lemma_spoken_words_are_plain(s: Seq<char>)
    ensures
        forall|i: int|
            0 <= i < guarded(s).len() ==> #[trigger] guarded(s)[i] != '§' && !text::is_control(
                guarded(s)[i],
            ),
        (forall|i: int| 0 <= i < s.len() ==> #[trigger] s[i] != '§' && !text::is_control(s[i]))
            ==> guarded(s) == text::trimmed(s),
{
    let plain = uncoloured(s);
    lemma_uncoloured(s);
    text::lemma_kept(plain, speakable());
    let k = text::kept(plain, speakable());
    let fine = |c: char| c != '§' && !text::is_control(c);
    assert forall|i: int| 0 <= i < k.len() implies fine(#[trigger] k[i]) by {
        assert(speakable()(k[i]));
        if k[i] == '§' {
            assert(speakable()('§'));
            assert(k.contains('§'));
            assert(plain.contains('§'));
        }
    }
    text::lemma_trimmed_part(k, fine);
    assert forall|i: int| 0 <= i < guarded(s).len() implies #[trigger] guarded(s)[i] != '§'
        && !text::is_control(guarded(s)[i]) by {
        assert(fine(text::trimmed(k)[i]));
    }
    if forall|i: int| 0 <= i < s.len() ==> #[trigger] s[i] != '§' && !text::is_control(s[i]) {
        assert(!s.contains('§'));
        assert forall|i: int| 0 <= i < plain.len() implies speakable()(#[trigger] plain[i]) by {
            assert(!text::is_control(s[i]));
        }
    }
}

/// A line is spoken as its prefix, the name, a colon and the words, as much of it as fits.
pub proof fn lemma_spoken_lines(prefix: Seq<char>, who: Seq<char>, words: Seq<char>)
    ensures
        prefix.len() + who.len() + 2 + words.len() <= 256 ==> spoken(prefix, who, words) == prefix + who
            + seq![':', ' '] + words,
        prefix.len() + who.len() + 2 + words.len() > 256 ==> spoken(prefix, who, words).len() == 256,
        text::begins(prefix + who + seq![':', ' '] + words, spoken(prefix, who, words)),
{
    reveal_strlit(": ");
    assert(": "@ =~= seq![':', ' ']);
    let line = prefix + who + ": "@ + words;
    assert(line.take(line.len() as int) =~= line);
}

/// How long a line waits behind the last one.
pub open spec fn wait_for(gap_ms: u64, since_ms: Option<u64>) -> int {
    match since_ms {
        Some(ago) if ago < gap_ms => gap_ms - ago,
        _ => 0,
    }
}

/// Whether that becomes of the words and of the line they make.
pub open spec fn relayed(r: Relay, clean: Seq<char>, whole: Seq<char>, allow_commands: bool) -> bool {
    let command = text::begins(clean, "/"@) || text::begins(whole, "/"@);
    match r {
        Relay::Empty => clean.len() == 0,
        Relay::Refused => clean.len() > 0 && command && !allow_commands,
        Relay::Speak(line) => clean.len() > 0 && (allow_commands || !command) && line@ == whole,
    }
}

/// No two lines come closer than the gap, and none waits longer than it has to.
pub proof fn lemma_lines_keep_their_distance(gap_ms: u64, ago: u64)
    ensures
        wait_for(gap_ms, None) == 0,
        ago + wait_for(gap_ms, Some(ago)) >= gap_ms,
        ago >= gap_ms ==> wait_for(gap_ms, Some(ago)) == 0,
        wait_for(gap_ms, Some(ago)) > 0 ==> ago + wait_for(gap_ms, Some(ago)) == gap_ms,
{
}

/// Words are spoken as their line; nothing comes of no words, and a command is refused
/// unless commands are allowed.
pub proof fn lemma_what_becomes_of_words(
    r: Relay,
    clean: Seq<char>,
    whole: Seq<char>,
    allow_commands: bool,
)
    requires
        relayed(r, clean, whole, allow_commands),
    ensures
        clean.len() == 0 <==> r is Empty,
        r is Refused ==> !allow_commands,
        clean.len() > 0 && allow_commands ==> (r matches Relay::Speak(line) && line@ == whole),
        clean.len() > 0 && !text::begins(clean, "/"@) && !text::begins(whole, "/"@) ==> (r
            matches Relay::Speak(line) && line@ == whole),
        clean.len() > 0 && text::begins(clean, "/"@) && !allow_commands ==> r is Refused,
{
}

/// A line from Discord is from the one who wrote it.
pub proof fn lemma_lines_are_from_somebody(name: Seq<char>)
    ensures
        said_by(None) == "discord"@,
        said_by(Some(name)) == guarded(name),
{
}

} // verus!
