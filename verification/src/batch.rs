//! What a batch of rows writes to the database.
//!
//! A name reaches the database once and is a number on every row after that, so
//! a batch first resolves the names it mentions. Presence is state: of several
//! events about one player in one session only the latest counts.
use vstd::prelude::*;
use vstd::string::*;

use crate::rows::{ChatRow, Write};
use crate::stream;
use crate::table::Table;
use crate::text;

verus! {

// ---------------------------------------------------------------------------
// Names
// ---------------------------------------------------------------------------

/// The most bytes a name in the dictionary has.
pub const DICT_KEY_BYTES: usize = 64;

/// A name as it stands in the dictionary. Death lines name mobs, so this is not
/// only for players.
pub open spec fn dict_text(name: Seq<char>) -> Option<Seq<char>> {
    let t = text::trimmed(name);
    if t.len() == 0 || text::byte_len(t) > DICT_KEY_BYTES {
        None
    } else {
        Some(t)
    }
}

pub fn dict_key(name: &str) -> (r: Option<String>)
    ensures
        text::opt_text(r) == dict_text(name@),
{
    let t = text::trim(name);
    if t.as_str().is_empty() || text::bytes_in(&t) > DICT_KEY_BYTES {
        None
    } else {
        Some(t)
    }
}

/// The first letter of a code, or `u` for an empty one.
pub open spec fn code_text(value: Seq<char>) -> Seq<char> {
    if value.len() > 0 {
        seq![value[0]]
    } else {
        seq!['u']
    }
}

pub fn code(value: &str) -> (r: String)
    ensures
        r@ == code_text(value@),
{
    let mut r = String::new();
    if value.is_empty() {
        r.push('u');
    } else {
        r.push(value.get_char(0));
    }
    assert(r@ =~= code_text(value@));
    r
}

/// A session number, where the narrow column holds it.
pub open spec fn session_of(value: i64) -> Option<i32> {
    if i32::MIN <= value <= i32::MAX {
        Some(value as i32)
    } else {
        None
    }
}

pub fn session_id(value: i64) -> (r: Option<i32>)
    ensures
        r == session_of(value),
{
    if value >= -2_147_483_648 && value <= 2_147_483_647 {
        Some(value as i32)
    } else {
        None
    }
}

/// The name without the mark that some proxies put before Bedrock players.
pub open spec fn unmarked(name: Seq<char>) -> Seq<char> {
    if text::begins(name, "*"@) || text::begins(name, "."@) {
        name.skip(1)
    } else {
        name
    }
}

/// A name a player can have: a mark may stand before one to sixteen letters,
/// digits or underscores.
pub open spec fn mc_name(name: Seq<char>) -> Option<Seq<char>> {
    let t = text::trimmed(name);
    let body = unmarked(t);
    if 0 < body.len() <= 16 && forall|i: int|
        0 <= i < body.len() ==> text::is_name_char(#[trigger] body[i]) {
        Some(t)
    } else {
        None
    }
}

pub fn normalize_mc_name(name: &str) -> (r: Option<String>)
    ensures
        text::opt_text(r) == mc_name(name@),
{
    let t = text::trim(name);
    proof {
        reveal_strlit("*");
        reveal_strlit(".");
    }
    let body = match text::strip_prefix(&t, "*") {
        Some(b) => b,
        None => match text::strip_prefix(&t, ".") {
            Some(b) => b,
            None => t.clone(),
        },
    };
    assert(body@ == unmarked(t@));
    let v = text::chars_of(&body);
    if v.len() == 0 || v.len() > 16 {
        return None;
    }
    for i in 0..v.len()
        invariant
            v@ == body@,
            body@ == unmarked(t@),
            t@ == text::trimmed(name@),
            forall|j: int| 0 <= j < i ==> text::is_name_char(#[trigger] body@[j]),
    {
        if !text::name_char(v[i]) {
            assert(!text::is_name_char(body@[i as int]));
            return None;
        }
    }
    Some(t)
}

/// What stands before the name in the label of a speaker: ranks and symbols.
pub open spec fn rank_text(label: Seq<char>, name: Seq<char>) -> Option<Seq<char>> {
    match text::rfind_text(label, name) {
        Some(at) if name.len() > 0 => {
            let before = text::trimmed(
                text::drop_back(
                    text::drop_front(text::trimmed(label.take(at)), text::one_of("<"@)),
                    text::one_of("<>»"@),
                ),
            );
            if before.len() == 0 {
                None
            } else {
                Some(before)
            }
        },
        _ => None,
    }
}

pub fn rank_prefix(label: &str, name: &str) -> (r: Option<String>)
    ensures
        text::opt_text(r) == rank_text(label@, name@),
{
    if name.is_empty() {
        return None;
    }
    let v = text::chars_of(label);
    match text::rfind_in(&v, &text::chars_of(name)) {
        None => None,
        Some(at) => {
            let head = text::string_of(&v, 0, at);
            assert(head@ =~= label@.take(at as int));
            let before = text::trim(
                &text::trim_back_set(&text::trim_front_set(&text::trim(&head), "<"), "<>»"),
            );
            if before.as_str().is_empty() {
                None
            } else {
                Some(before)
            }
        },
    }
}

/// The UUID under which a player is kept of whom only the name is known: version
/// 5 in the namespace for object identifiers, of these bytes.
pub uninterp spec fn uuid_v5_oid(name: Seq<char>) -> u128;

/// `Uuid::new_v5` with `Uuid::NAMESPACE_OID`, as a number. Claimed is only that
/// it depends on the text alone.
#[verifier::external_body]
fn new_v5_oid(name: &str) -> (id: u128)
    ensures
        id == uuid_v5_oid(name@),
{
    uuid::Uuid::new_v5(&uuid::Uuid::NAMESPACE_OID, name.as_bytes()).as_u128()
}

/// The UUID of a player of whom only the name is known. It does not depend on
/// the case of the name.
pub open spec fn name_based(name: Seq<char>) -> u128 {
    uuid_v5_oid("mc-logger-player:"@ + text::unicode_lower(name))
}

pub fn name_based_player_uuid(name: &str) -> (id: u128)
    ensures
        id == name_based(name@),
{
    new_v5_oid(&text::cat2("mc-logger-player:", &text::to_lowercase(name)))
}

// ---------------------------------------------------------------------------
// Resolving names
// ---------------------------------------------------------------------------

/// The names that a row mentions.
pub open spec fn mentioned(w: Write) -> Seq<Seq<char>> {
    match w {
        Write::Chat(row) => stream::present(
            seq![
                text::opt_text(row.sender_name),
                text::opt_text(row.subject_name),
                text::opt_text(row.killer_name),
            ],
        ),
        Write::Event(row) => seq![row.player_name@],
        Write::ReconcileOnline { players, .. } => text::texts(players@),
        Write::ServerRestart { .. } => Seq::empty(),
    }
}

/// The names as they stand in the dictionary, where they can.
pub open spec fn dict_names(names: Seq<Seq<char>>) -> Seq<Seq<char>>
    decreases names.len(),
{
    if names.len() == 0 {
        Seq::empty()
    } else {
        match dict_text(names.last()) {
            Some(name) => dict_names(names.drop_last()).push(name),
            None => dict_names(names.drop_last()),
        }
    }
}

/// Every name that a batch wants from the dictionary.
pub open spec fn wanted(batch: Seq<Write>) -> Seq<Seq<char>>
    decreases batch.len(),
{
    if batch.len() == 0 {
        Seq::empty()
    } else {
        wanted(batch.drop_last()) + dict_names(mentioned(batch.last()))
    }
}

proof fn lemma_dict_names_push(names: Seq<Seq<char>>, name: Seq<char>)
    ensures
        dict_names(names.push(name)) == (match dict_text(name) {
            Some(n) => dict_names(names).push(n),
            None => dict_names(names),
        }),
{
    assert(names.push(name).drop_last() =~= names);
}

/// Adds a name to a list, where the dictionary can hold it.
fn want(list: &mut Vec<String>, name: &str, Ghost(before): Ghost<Seq<Seq<char>>>, Ghost(names): Ghost<
    Seq<Seq<char>>,
>)
    requires
        text::texts(old(list)@) == before + dict_names(names),
    ensures
        text::texts(final(list)@) == before + dict_names(names.push(name@)),
{
    let ghost so_far = list@;
    proof {
        lemma_dict_names_push(names, name@);
    }
    if let Some(key) = dict_key(name) {
        list.push(key);
        proof {
            text::lemma_texts_push(so_far, key);
            assert((before + dict_names(names)).push(key@) =~= before + dict_names(names).push(
                key@,
            ));
        }
    }
}

/// Every name that a batch wants from the dictionary, in order.
pub fn wanted_names(batch: &Vec<Write>) -> (list: Vec<String>)
    ensures
        text::texts(list@) == wanted(batch@),
{
    let mut list: Vec<String> = Vec::new();
    assert(text::texts(list@) =~= wanted(batch@.take(0)));
    for i in 0..batch.len()
        invariant
            text::texts(list@) == wanted(batch@.take(i as int)),
    {
        let ghost before = text::texts(list@);
        let ghost mut names: Seq<Seq<char>> = Seq::empty();
        assert(batch@.take(i + 1).drop_last() =~= batch@.take(i as int));
        assert(before + dict_names(names) =~= before);
        match &batch[i] {
            Write::Chat(row) => {
                proof {
                    let all = seq![
                        text::opt_text(row.sender_name),
                        text::opt_text(row.subject_name),
                        text::opt_text(row.killer_name),
                    ];
                    reveal_with_fuel(stream::present, 4);
                    assert(all.drop_last() =~= seq![all[0], all[1]]);
                    assert(all.drop_last().drop_last() =~= seq![all[0]]);
                    assert(all.drop_last().drop_last().drop_last().len() == 0);
                }
                if let Some(name) = &row.sender_name {
                    want(&mut list, name, Ghost(before), Ghost(names));
                    proof {
                        names = names.push(name@);
                    }
                }
                if let Some(name) = &row.subject_name {
                    want(&mut list, name, Ghost(before), Ghost(names));
                    proof {
                        names = names.push(name@);
                    }
                }
                if let Some(name) = &row.killer_name {
                    want(&mut list, name, Ghost(before), Ghost(names));
                    proof {
                        names = names.push(name@);
                    }
                }
                assert(names =~= mentioned(batch[i as int]));
            },
            Write::Event(row) => {
                want(&mut list, &row.player_name, Ghost(before), Ghost(names));
                assert(names.push(row.player_name@) =~= mentioned(batch[i as int]));
            },
            Write::ReconcileOnline { players, .. } => {
                let ghost all = text::texts(players@);
                for k in 0..players.len()
                    invariant
                        all == text::texts(players@),
                        text::texts(list@) == before + dict_names(all.take(k as int)),
                {
                    assert(all.take(k + 1) =~= all.take(k as int).push(players[k as int]@));
                    want(&mut list, &players[k], Ghost(before), Ghost(all.take(k as int)));
                }
                assert(all.take(players.len() as int) =~= all);
            },
            Write::ServerRestart { .. } => {},
        }
    }
    assert(batch@.take(batch.len() as int) =~= batch@);
    list
}

/// The names to add to the dictionary: those of which neither the cache nor an
/// earlier one in the list has the lower case.
pub open spec fn missing(known: Set<Seq<char>>, names: Seq<Seq<char>>) -> Seq<Seq<char>>
    decreases names.len(),
{
    if names.len() == 0 {
        Seq::empty()
    } else {
        let before = missing(known, names.drop_last());
        let key = text::unicode_lower(names.last());
        if known.contains(key) || lowers(before).contains(key) {
            before
        } else {
            before.push(names.last())
        }
    }
}

/// The names in lower case.
pub open spec fn lowers(names: Seq<Seq<char>>) -> Seq<Seq<char>> {
    Seq::new(names.len(), |i: int| text::unicode_lower(names[i]))
}

/// No name is added twice, and none that is known; and every name of the batch is
/// known or added.
pub proof fn lemma_missing(known: Set<Seq<char>>, names: Seq<Seq<char>>)
    ensures
        lowers(missing(known, names)).no_duplicates(),
        forall|i: int|
            0 <= i < missing(known, names).len() ==> !known.contains(
                #[trigger] lowers(missing(known, names))[i],
            ),
        forall|i: int|
            0 <= i < names.len() ==> known.contains(text::unicode_lower(#[trigger] names[i]))
                || lowers(missing(known, names)).contains(text::unicode_lower(names[i])),
    decreases names.len(),
{
    if names.len() > 0 {
        let init = names.drop_last();
        lemma_missing(known, init);
        let before = missing(known, init);
        let now = missing(known, names);
        let key = text::unicode_lower(names.last());
        if !(known.contains(key) || lowers(before).contains(key)) {
            assert(lowers(now) =~= lowers(before).push(key));
            assert(lowers(now)[before.len() as int] == key);
            assert(lowers(now).no_duplicates()) by {
                assert forall|a: int, b: int|
                    0 <= a < lowers(now).len() && 0 <= b < lowers(now).len() && a
                        != b implies lowers(now)[a] != lowers(now)[b] by {
                    if a == before.len() {
                        assert(lowers(before)[b] == lowers(now)[b]);
                        assert(lowers(before).contains(lowers(before)[b]));
                    } else if b == before.len() {
                        assert(lowers(before)[a] == lowers(now)[a]);
                        assert(lowers(before).contains(lowers(before)[a]));
                    }
                }
            }
        }
        assert forall|i: int| 0 <= i < names.len() implies known.contains(
            text::unicode_lower(#[trigger] names[i]),
        ) || lowers(now).contains(text::unicode_lower(names[i])) by {
            if i < init.len() {
                assert(init[i] == names[i]);
                let k = text::unicode_lower(names[i]);
                if lowers(before).contains(k) {
                    let j = choose|j: int| 0 <= j < lowers(before).len() && lowers(before)[j] == k;
                    assert(lowers(now)[j] == k);
                }
            }
        }
    }
}

/// The caches of the writer. Keys are names in lower case.
pub struct Flusher {
    /// The number of each name in the dictionary.
    pub names: Table<i32>,
    /// Whether the UUID on file for a player came from the server.
    pub known_players: Table<bool>,
    /// The rank last written.
    pub ranks: Table<String>,
    /// The day that the rollups last covered.
    pub rollup_day: Option<i64>,
}

/// The number of a name in the dictionary.
pub open spec fn id_of(names: Map<Seq<char>, i32>, name: Option<Seq<char>>) -> Option<i32> {
    match name {
        Some(n) => match dict_text(n) {
            Some(key) if names.contains_key(text::unicode_lower(key)) => Some(
                names[text::unicode_lower(key)],
            ),
            _ => None,
        },
        None => None,
    }
}

/// A row of the chat log.
#[derive(Debug)]
pub struct ChatRecord {
    pub session: Option<i32>,
    pub at: i64,
    pub sender: Option<i32>,
    pub subject: Option<i32>,
    pub killer: Option<i32>,
    pub source: String,
    pub kind: String,
    pub text: String,
}

/// The contents of a [`ChatRecord`].
#[verifier::ext_equal]
pub struct ChatRecordText {
    pub session: Option<i32>,
    pub at: i64,
    pub sender: Option<i32>,
    pub subject: Option<i32>,
    pub killer: Option<i32>,
    pub source: Seq<char>,
    pub kind: Seq<char>,
    pub text: Seq<char>,
}

impl View for ChatRecord {
    type V = ChatRecordText;

    open spec fn view(&self) -> ChatRecordText {
        ChatRecordText {
            session: self.session,
            at: self.at,
            sender: self.sender,
            subject: self.subject,
            killer: self.killer,
            source: self.source@,
            kind: self.kind@,
            text: self.text@,
        }
    }
}

pub open spec fn record_texts(v: Seq<ChatRecord>) -> Seq<ChatRecordText> {
    Seq::new(v.len(), |i: int| v[i]@)
}

/// The row of the chat log for a line.
pub open spec fn chat_record(names: Map<Seq<char>, i32>, row: ChatRow) -> ChatRecordText {
    ChatRecordText {
        session: session_of(row.session_id),
        at: row.received_at,
        sender: id_of(names, text::opt_text(row.sender_name)),
        subject: id_of(names, text::opt_text(row.subject_name)),
        killer: id_of(names, text::opt_text(row.killer_name)),
        source: code_text(row.source@),
        kind: code_text(row.kind@),
        text: row.plain_text@,
    }
}

/// The rows of the chat log for the lines of a batch, in order.
pub open spec fn chat_records(names: Map<Seq<char>, i32>, batch: Seq<Write>) -> Seq<ChatRecordText>
    decreases batch.len(),
{
    if batch.len() == 0 {
        Seq::empty()
    } else {
        match batch.last() {
            Write::Chat(row) => chat_records(names, batch.drop_last()).push(
                chat_record(names, row),
            ),
            _ => chat_records(names, batch.drop_last()),
        }
    }
}

/// A row of the event log.
#[derive(Debug)]
pub struct EventRecord {
    pub session: Option<i32>,
    pub at: i64,
    pub player: i32,
    pub event_type: String,
    pub source: String,
}

/// The contents of an [`EventRecord`].
#[verifier::ext_equal]
pub struct EventRecordText {
    pub session: Option<i32>,
    pub at: i64,
    pub player: i32,
    pub event_type: Seq<char>,
    pub source: Seq<char>,
}

impl View for EventRecord {
    type V = EventRecordText;

    open spec fn view(&self) -> EventRecordText {
        EventRecordText {
            session: self.session,
            at: self.at,
            player: self.player,
            event_type: self.event_type@,
            source: self.source@,
        }
    }
}

pub open spec fn event_texts(v: Seq<EventRecord>) -> Seq<EventRecordText> {
    Seq::new(v.len(), |i: int| v[i]@)
}

/// Whether a player is on the tab list of a session.
#[derive(Debug, Clone, Copy, PartialEq, Eq, Structural)]
pub struct PresenceRecord {
    pub session: i32,
    pub player: i32,
    pub present: bool,
    pub at: i64,
}

pub open spec fn presence_at(v: Seq<PresenceRecord>, i: int, key: (i32, i32)) -> bool {
    0 <= i < v.len() && v[i].session == key.0 && v[i].player == key.1
}

/// The state of each player in each session.
pub open spec fn presence_map(v: Seq<PresenceRecord>) -> Map<(i32, i32), (bool, i64)> {
    Map::new(
        |key: (i32, i32)| exists|i: int| presence_at(v, i, key),
        |key: (i32, i32)|
            {
                let i = choose|i: int| presence_at(v, i, key);
                (v[i].present, v[i].at)
            },
    )
}

/// No player stands twice for a session.
pub open spec fn presence_distinct(v: Seq<PresenceRecord>) -> bool {
    forall|i: int, j: int|
        0 <= i < j < v.len() ==> !(#[trigger] v[i].session == #[trigger] v[j].session
            && v[i].player == v[j].player)
}

/// The state with one more event: an older one than the one it has changes
/// nothing.
pub open spec fn presence_noted(
    m: Map<(i32, i32), (bool, i64)>,
    key: (i32, i32),
    present: bool,
    at: i64,
) -> Map<(i32, i32), (bool, i64)> {
    if m.contains_key(key) && at < m[key].1 {
        m
    } else {
        m.insert(key, (present, at))
    }
}

/// Whether an event says that the player is there. `l` and `p` say the player is
/// gone.
pub open spec fn says_present(event_type: Seq<char>) -> bool {
    event_type != "l"@ && event_type != "p"@
}

/// Whether an event goes to the log. What only the tab list shows is state, not
/// history.
pub open spec fn is_history(event_type: Seq<char>) -> bool {
    event_type != "p"@ && event_type != "s"@
}

/// The rows of the event log and the state after a batch.
pub open spec fn event_outcome(names: Map<Seq<char>, i32>, batch: Seq<Write>) -> (
    Seq<EventRecordText>,
    Map<(i32, i32), (bool, i64)>,
)
    decreases batch.len(),
{
    if batch.len() == 0 {
        (Seq::empty(), Map::empty())
    } else {
        let (log, state) = event_outcome(names, batch.drop_last());
        match batch.last() {
            Write::Event(row) => match id_of(names, Some(row.player_name@)) {
                Some(player) => {
                    let session = session_of(row.session_id);
                    let kind = code_text(row.event_type@);
                    let source = code_text(row.source@);
                    let next = if source == "t"@ && session is Some {
                        presence_noted(
                            state,
                            (session->0, player),
                            says_present(kind),
                            row.occurred_at,
                        )
                    } else {
                        state
                    };
                    if is_history(kind) {
                        (
                            log.push(
                                EventRecordText {
                                    session,
                                    at: row.occurred_at,
                                    player,
                                    event_type: kind,
                                    source,
                                },
                            ),
                            next,
                        )
                    } else {
                        (log, next)
                    }
                },
                None => (log, state),
            },
            _ => (log, state),
        }
    }
}

/// What a batch writes about presence.
pub struct EventBatch {
    pub log: Vec<EventRecord>,
    pub presence: Vec<PresenceRecord>,
}

fn note_presence(v: &mut Vec<PresenceRecord>, record: PresenceRecord)
    requires
        presence_distinct(old(v)@),
    ensures
        presence_distinct(final(v)@),
        presence_map(final(v)@) == presence_noted(
            presence_map(old(v)@),
            (record.session, record.player),
            record.present,
            record.at,
        ),
{
    let ghost before = v@;
    let ghost key = (record.session, record.player);
    let ghost m = presence_map(before);
    let n: usize = v.len();
    for i in 0..n
        invariant
            n == v.len(),
            v@ == before,
            before == old(v)@,
            m == presence_map(before),
            presence_distinct(before),
            key == (record.session, record.player),
            forall|j: int| 0 <= j < i ==> !presence_at(before, j, key),
    {
        if v[i].session == record.session && v[i].player == record.player {
            proof {
                assert(presence_at(before, i as int, key));
                let c = choose|c: int| presence_at(before, c, key);
                assert(c == i);
                assert(m.contains_key(key));
                assert(m[key] == (before[i as int].present, before[i as int].at));
            }
            if record.at >= v[i].at {
                v.set(i, record);
                proof {
                    let after = v@;
                    assert(presence_distinct(after)) by {
                        assert forall|a: int, b: int| 0 <= a < b < after.len() implies !(
                        #[trigger] after[a].session == #[trigger] after[b].session
                            && after[a].player == after[b].player) by {
                            assert(before[a].session == after[a].session);
                            assert(before[b].session == after[b].session);
                        }
                    }
                    lemma_presence_set(before, after, i as int, record);
                }
            }
            return;
        }
    }
    v.push(record);
    proof {
        let after = v@;
        assert(!m.contains_key(key));
        assert(presence_distinct(after)) by {
            assert forall|a: int, b: int| 0 <= a < b < after.len() implies !(
            #[trigger] after[a].session == #[trigger] after[b].session && after[a].player
                == after[b].player) by {
                if b == before.len() {
                    assert(!presence_at(before, a, key));
                } else {
                    assert(before[a].session == after[a].session);
                    assert(before[b].session == after[b].session);
                }
            }
        }
        lemma_presence_set(before, after, before.len() as int, record);
    }
}

proof fn lemma_presence_set(
    before: Seq<PresenceRecord>,
    after: Seq<PresenceRecord>,
    at: int,
    record: PresenceRecord,
)
    requires
        presence_distinct(before),
        presence_distinct(after),
        0 <= at <= before.len(),
        at < before.len() ==> after == before.update(at, record) && presence_at(
            before,
            at,
            (record.session, record.player),
        ),
        at == before.len() ==> after == before.push(record),
    ensures
        presence_map(after) == presence_map(before).insert(
            (record.session, record.player),
            (record.present, record.at),
        ),
{
    let key = (record.session, record.player);
    let want = presence_map(before).insert(key, (record.present, record.at));
    let got = presence_map(after);
    assert(presence_at(after, at, key));
    assert forall|k: (i32, i32)| got.contains_key(k) == want.contains_key(k) by {
        if got.contains_key(k) {
            let j = choose|j: int| presence_at(after, j, k);
            if j != at {
                assert(presence_at(before, j, k));
            }
        }
        if presence_map(before).contains_key(k) {
            let j = choose|j: int| presence_at(before, j, k);
            assert(presence_at(after, j, k));
        }
    }
    assert forall|k: (i32, i32)| got.contains_key(k) implies #[trigger] got[k] == want[k] by {
        assert(got.contains_key(k) == want.contains_key(k));
        let j = choose|j: int| presence_at(after, j, k);
        if k == key {
            assert(j == at) by {
                if j < at {
                    assert(after[j].session == after[at].session);
                } else if at < j {
                    assert(after[at].session == after[j].session);
                }
            }
        } else {
            assert(presence_at(before, j, k));
            let c = choose|c: int| presence_at(before, c, k);
            assert(c == j) by {
                if c < j {
                    assert(before[c].session == before[j].session);
                } else if j < c {
                    assert(before[j].session == before[c].session);
                }
            }
        }
    }
    assert(got =~= want);
}

/// A restart that retires everyone of a session.
#[derive(Debug, Clone, Copy, PartialEq, Eq, Structural)]
pub struct Restart {
    pub session: i32,
    pub at: i64,
}

/// The restarts in a batch, in order.
pub open spec fn restarts_in(batch: Seq<Write>) -> Seq<Restart>
    decreases batch.len(),
{
    if batch.len() == 0 {
        Seq::empty()
    } else {
        match batch.last() {
            Write::ServerRestart { session_id, at } if session_of(session_id) is Some =>
                restarts_in(batch.drop_last()).push(
                    Restart { session: session_of(session_id)->0, at },
                ),
            _ => restarts_in(batch.drop_last()),
        }
    }
}

/// A settled tab list: everyone on it is there, and everyone else is not.
#[derive(Debug)]
pub struct Rejoin {
    pub session: i32,
    pub at: i64,
    pub players: Vec<i32>,
}

/// The numbers of those players that the dictionary knows.
pub open spec fn ids_of(names: Map<Seq<char>, i32>, players: Seq<Seq<char>>) -> Seq<i32>
    decreases players.len(),
{
    if players.len() == 0 {
        Seq::empty()
    } else {
        match id_of(names, Some(players.last())) {
            Some(id) => ids_of(names, players.drop_last()).push(id),
            None => ids_of(names, players.drop_last()),
        }
    }
}

/// The settled tab lists in a batch on which the dictionary knows anybody.
pub open spec fn rejoins_in(names: Map<Seq<char>, i32>, batch: Seq<Write>) -> Seq<
    (i32, i64, Seq<i32>),
>
    decreases batch.len(),
{
    if batch.len() == 0 {
        Seq::empty()
    } else {
        let before = rejoins_in(names, batch.drop_last());
        match batch.last() {
            Write::ReconcileOnline { session_id, at, players } => {
                let ids = ids_of(names, text::texts(players@));
                match session_of(session_id) {
                    Some(session) if ids.len() > 0 => before.push((session, at, ids)),
                    _ => before,
                }
            },
            _ => before,
        }
    }
}

pub open spec fn rejoin_texts(v: Seq<Rejoin>) -> Seq<(i32, i64, Seq<i32>)> {
    Seq::new(v.len(), |i: int| (v[i].session, v[i].at, v[i].players@))
}

impl Flusher {
    pub open spec fn wf(self) -> bool {
        self.names.wf() && self.known_players.wf() && self.ranks.wf()
    }

    pub fn new() -> (f: Self)
        ensures
            f.wf(),
            f.names@ == Map::<Seq<char>, i32>::empty(),
            f.known_players@ == Map::<Seq<char>, bool>::empty(),
            f.ranks@ == Map::<Seq<char>, String>::empty(),
            f.rollup_day is None,
    {
        Flusher {
            names: Table::new(),
            known_players: Table::new(),
            ranks: Table::new(),
            rollup_day: None,
        }
    }

    /// The names that the dictionary has to be asked for, each once.
    pub fn missing_names(&self, names: &Vec<String>) -> (r: Vec<String>)
        requires
            self.wf(),
        ensures
            text::texts(r@) == missing(self.names@.dom(), text::texts(names@)),
    {
        let ghost all = text::texts(names@);
        let ghost known = self.names@.dom();
        let mut r: Vec<String> = Vec::new();
        let mut queued: Vec<String> = Vec::new();
        assert(text::texts(r@) =~= missing(known, all.take(0)));
        assert(text::texts(queued@) =~= lowers(text::texts(r@)));
        for i in 0..names.len()
            invariant
                self.wf(),
                known == self.names@.dom(),
                all == text::texts(names@),
                text::texts(r@) == missing(known, all.take(i as int)),
                text::texts(queued@) == lowers(text::texts(r@)),
        {
            proof {
                assert(all.take(i + 1).drop_last() =~= all.take(i as int));
                assert(all.take(i + 1).last() == names[i as int]@);
            }
            let key = text::to_lowercase(&names[i]);
            if !self.names.contains(&key) && !text::listed(&queued, &key) {
                let ghost before = r@;
                let ghost queue = queued@;
                r.push(names[i].clone());
                queued.push(key);
                proof {
                    text::lemma_texts_push(before, r@.last());
                    text::lemma_texts_push(queue, key);
                    assert(lowers(text::texts(before).push(names[i as int]@)) =~= lowers(
                        text::texts(before),
                    ).push(key@));
                }
            }
        }
        assert(all.take(names.len() as int) =~= all);
        r
    }

    /// Takes in an answer of the dictionary: a name in lower case and its number.
    pub fn learn_name(&mut self, key: String, id: i32)
        requires
            old(self).wf(),
        ensures
            final(self).wf(),
            final(self).names@ == old(self).names@.insert(key@, id),
            final(self).known_players == old(self).known_players,
            final(self).ranks == old(self).ranks,
            final(self).rollup_day == old(self).rollup_day,
    {
        self.names.insert(key, id);
    }

    /// The number of a name.
    pub fn name_id(&self, name: &Option<String>) -> (r: Option<i32>)
        requires
            self.wf(),
        ensures
            r == id_of(self.names@, text::opt_text(*name)),
    {
        match name {
            Some(n) => self.id_for(n),
            None => None,
        }
    }

    fn id_for(&self, name: &str) -> (r: Option<i32>)
        requires
            self.wf(),
        ensures
            r == id_of(self.names@, Some(name@)),
    {
        match dict_key(name) {
            Some(key) => match self.names.get(&text::to_lowercase(&key)) {
                Some(id) => Some(*id),
                None => None,
            },
            None => None,
        }
    }

    /// The rows of the chat log for a batch.
    pub fn write_chat(&self, batch: &Vec<Write>) -> (r: Vec<ChatRecord>)
        requires
            self.wf(),
        ensures
            record_texts(r@) == chat_records(self.names@, batch@),
    {
        let mut r: Vec<ChatRecord> = Vec::new();
        assert(record_texts(r@) =~= chat_records(self.names@, batch@.take(0)));
        for i in 0..batch.len()
            invariant
                self.wf(),
                record_texts(r@) == chat_records(self.names@, batch@.take(i as int)),
        {
            assert(batch@.take(i + 1).drop_last() =~= batch@.take(i as int));
            if let Write::Chat(row) = &batch[i] {
                let ghost before = r@;
                let record = ChatRecord {
                    session: session_id(row.session_id),
                    at: row.received_at,
                    sender: self.name_id(&row.sender_name),
                    subject: self.name_id(&row.subject_name),
                    killer: self.name_id(&row.killer_name),
                    source: code(&row.source),
                    kind: code(&row.kind),
                    text: row.plain_text.clone(),
                };
                assert(record@ =~= chat_record(self.names@, *row));
                r.push(record);
                assert(record_texts(r@) =~= record_texts(before).push(record@));
            }
        }
        assert(batch@.take(batch.len() as int) =~= batch@);
        r
    }

    /// The rows of the event log, and the latest state of everyone whom the tab
    /// list of a session showed or dropped.
    pub fn write_events(&self, batch: &Vec<Write>) -> (r: EventBatch)
        requires
            self.wf(),
        ensures
            presence_distinct(r.presence@),
            (event_texts(r.log@), presence_map(r.presence@)) == event_outcome(
                self.names@,
                batch@,
            ),
    {
        let mut log: Vec<EventRecord> = Vec::new();
        let mut presence: Vec<PresenceRecord> = Vec::new();
        assert(event_texts(log@) =~= Seq::<EventRecordText>::empty());
        assert(presence_map(presence@) =~= Map::<(i32, i32), (bool, i64)>::empty());
        for i in 0..batch.len()
            invariant
                self.wf(),
                presence_distinct(presence@),
                (event_texts(log@), presence_map(presence@)) == event_outcome(
                    self.names@,
                    batch@.take(i as int),
                ),
        {
            assert(batch@.take(i + 1).drop_last() =~= batch@.take(i as int));
            if let Write::Event(row) = &batch[i] {
                if let Some(player) = self.id_for(&row.player_name) {
                    let session = session_id(row.session_id);
                    let kind = code(&row.event_type);
                    let source = code(&row.source);
                    if text::same(&source, "t") {
                        if let Some(s) = session {
                            let present = !text::same(&kind, "l") && !text::same(&kind, "p");
                            note_presence(
                                &mut presence,
                                PresenceRecord { session: s, player, present, at: row.occurred_at },
                            );
                        }
                    }
                    if !text::same(&kind, "p") && !text::same(&kind, "s") {
                        let ghost before = log@;
                        let record = EventRecord {
                            session,
                            at: row.occurred_at,
                            player,
                            event_type: kind,
                            source,
                        };
                        log.push(record);
                        assert(event_texts(log@) =~= event_texts(before).push(record@));
                    }
                }
            }
        }
        assert(batch@.take(batch.len() as int) =~= batch@);
        EventBatch { log, presence }
    }

    /// The settled tab lists of a batch.
    pub fn write_rejoins(&self, batch: &Vec<Write>) -> (r: Vec<Rejoin>)
        requires
            self.wf(),
        ensures
            rejoin_texts(r@) == rejoins_in(self.names@, batch@),
    {
        let mut r: Vec<Rejoin> = Vec::new();
        assert(rejoin_texts(r@) =~= rejoins_in(self.names@, batch@.take(0)));
        for i in 0..batch.len()
            invariant
                self.wf(),
                rejoin_texts(r@) == rejoins_in(self.names@, batch@.take(i as int)),
        {
            assert(batch@.take(i + 1).drop_last() =~= batch@.take(i as int));
            if let Write::ReconcileOnline { session_id: sid, at, players } = &batch[i] {
                let ghost all = text::texts(players@);
                let mut ids: Vec<i32> = Vec::new();
                assert(ids@ =~= ids_of(self.names@, all.take(0)));
                for k in 0..players.len()
                    invariant
                        self.wf(),
                        all == text::texts(players@),
                        ids@ == ids_of(self.names@, all.take(k as int)),
                {
                    proof {
                        assert(all.take(k + 1).drop_last() =~= all.take(k as int));
                        assert(all.take(k + 1).last() == players[k as int]@);
                    }
                    if let Some(id) = self.id_for(&players[k]) {
                        ids.push(id);
                    }
                }
                assert(all.take(players.len() as int) =~= all);
                if let Some(session) = session_id(*sid) {
                    if ids.len() > 0 {
                        let ghost before = r@;
                        let rejoin = Rejoin { session, at: *at, players: ids };
                        r.push(rejoin);
                        assert(rejoin_texts(r@) =~= rejoin_texts(before).push(
                            (rejoin.session, rejoin.at, rejoin.players@),
                        ));
                    }
                }
            }
        }
        assert(batch@.take(batch.len() as int) =~= batch@);
        r
    }
}

/// The restarts of a batch.
pub fn write_restarts(batch: &Vec<Write>) -> (r: Vec<Restart>)
    ensures
        r@ == restarts_in(batch@),
{
    let mut r: Vec<Restart> = Vec::new();
    assert(r@ =~= restarts_in(batch@.take(0)));
    for i in 0..batch.len()
        invariant
            r@ == restarts_in(batch@.take(i as int)),
    {
        assert(batch@.take(i + 1).drop_last() =~= batch@.take(i as int));
        if let Write::ServerRestart { session_id: sid, at } = &batch[i] {
            if let Some(session) = session_id(*sid) {
                r.push(Restart { session, at: *at });
            }
        }
    }
    assert(batch@.take(batch.len() as int) =~= batch@);
    r
}

// ---------------------------------------------------------------------------
// What is stored
// ---------------------------------------------------------------------------

/// What stands in a row for a name: the number of the name in lower case and without
/// the space around it, where the dictionary has one and the name can be in it.
pub open spec fn stands_for(
    names: Map<Seq<char>, i32>,
    name: Option<Seq<char>>,
    id: Option<i32>,
) -> bool {
    match name {
        Some(n) => {
            let plain = text::trimmed(n);
            let key = text::unicode_lower(plain);
            if 0 < plain.len() && text::byte_len(plain) <= 64 && names.contains_key(key) {
                id == Some(names[key])
            } else {
                id is None
            }
        },
        None => id is None,
    }
}

/// A line of a batch is stored behind those before it, with what it says under its
/// own names: the sender, the victim and the killer each under their number.
pub proof fn lemma_lines_are_stored(names: Map<Seq<char>, i32>, batch: Seq<Write>, row: ChatRow)
    ensures
        ({
            let before = chat_records(names, batch);
            let now = chat_records(names, batch.push(Write::Chat(row)));
            let r = now.last();
            &&& now.len() == before.len() + 1
            &&& now.drop_last() == before
            &&& stands_for(names, text::opt_text(row.sender_name), r.sender)
            &&& stands_for(names, text::opt_text(row.subject_name), r.subject)
            &&& stands_for(names, text::opt_text(row.killer_name), r.killer)
            &&& r.at == row.received_at
            &&& r.text == row.plain_text@
            &&& row.kind@.len() > 0 ==> r.kind == row.kind@.take(1)
            &&& row.source@.len() > 0 ==> r.source == row.source@.take(1)
            &&& r.session matches Some(s) ==> s == row.session_id
            &&& r.session is Some <==> -0x8000_0000 <= row.session_id <= 0x7fff_ffff
        }),
        chat_records(names, Seq::empty()).len() == 0,
{
    let all = batch.push(Write::Chat(row));
    assert(all.drop_last() =~= batch);
    assert(chat_records(names, all).drop_last() =~= chat_records(names, batch));
    if row.kind@.len() > 0 {
        assert(code_text(row.kind@) =~= row.kind@.take(1));
    }
    if row.source@.len() > 0 {
        assert(code_text(row.source@) =~= row.source@.take(1));
    }
}

/// Nothing but lines of chat is stored as one.
pub proof fn lemma_only_lines_are_stored(names: Map<Seq<char>, i32>, batch: Seq<Write>, w: Write)
    requires
        !(w is Chat),
    ensures
        chat_records(names, batch.push(w)) == chat_records(names, batch),
{
    assert(batch.push(w).drop_last() =~= batch);
}

/// A join or a leave goes to the log under its player, and what the tab list alone
/// shows does not. Of the tab list the newest event decides whether the player is
/// there: a leave says not, anything else says so.
pub proof fn lemma_events_are_stored(
    names: Map<Seq<char>, i32>,
    batch: Seq<Write>,
    row: crate::rows::PlayerEventRow,
    player: i32,
)
    requires
        stands_for(names, Some(row.player_name@), Some(player)),
        row.event_type@.len() == 1,
        row.source@.len() == 1,
    ensures
        ({
            let (log, state) = event_outcome(names, batch);
            let (now, after) = event_outcome(names, batch.push(Write::Event(row)));
            let c = row.event_type@[0];
            let fits = -0x8000_0000 <= row.session_id <= 0x7fff_ffff;
            let key = (row.session_id as i32, player);
            &&& c == 'p' || c == 's' ==> now == log
            &&& c != 'p' && c != 's' ==> {
                &&& now.len() == log.len() + 1
                &&& now.drop_last() == log
                &&& now.last().player == player
                &&& now.last().at == row.occurred_at
                &&& now.last().event_type == row.event_type@
                &&& now.last().source == row.source@
                &&& now.last().session == (if fits {
                    Some(row.session_id as i32)
                } else {
                    None
                })
            }
            &&& row.source@[0] != 't' || !fits ==> after == state
            &&& row.source@[0] == 't' && fits && (!state.contains_key(key) || state[key].1
                <= row.occurred_at) ==> after == state.insert(
                key,
                (c != 'l' && c != 'p', row.occurred_at),
            )
            &&& row.source@[0] == 't' && fits && state.contains_key(key) && state[key].1
                > row.occurred_at ==> after == state
        }),
{
    reveal_strlit("l");
    reveal_strlit("p");
    reveal_strlit("s");
    reveal_strlit("t");
    let all = batch.push(Write::Event(row));
    assert(all.drop_last() =~= batch);
    assert(code_text(row.event_type@) =~= row.event_type@);
    assert(code_text(row.source@) =~= row.source@);
    let kind = row.event_type@;
    assert(kind == "l"@ <==> kind[0] == 'l') by {
        if kind[0] == 'l' {
            assert(kind =~= "l"@);
        }
    }
    assert(kind == "p"@ <==> kind[0] == 'p') by {
        if kind[0] == 'p' {
            assert(kind =~= "p"@);
        }
    }
    assert(kind == "s"@ <==> kind[0] == 's') by {
        if kind[0] == 's' {
            assert(kind =~= "s"@);
        }
    }
    assert(row.source@ == "t"@ <==> row.source@[0] == 't') by {
        if row.source@[0] == 't' {
            assert(row.source@ =~= "t"@);
        }
    }
    assert(id_of(names, Some(row.player_name@)) == Some(player));
    let log = event_outcome(names, batch).0;
    if is_history(kind) {
        assert(event_outcome(names, all).0.drop_last() =~= log);
    }
}

/// An event of somebody whom the dictionary does not know, and anything that is no
/// event, leaves no trace among the events.
pub proof fn lemma_only_events_are_stored(names: Map<Seq<char>, i32>, batch: Seq<Write>, w: Write)
    requires
        w matches Write::Event(row) ==> stands_for(names, Some(row.player_name@), None),
    ensures
        event_outcome(names, batch.push(w)) == event_outcome(names, batch),
{
    assert(batch.push(w).drop_last() =~= batch);
}

/// A restart is stored for its session at its time.
pub proof fn lemma_restarts_are_stored(batch: Seq<Write>, session_id: i64, at: i64)
    requires
        -0x8000_0000 <= session_id <= 0x7fff_ffff,
    ensures
        ({
            let now = restarts_in(batch.push(Write::ServerRestart { session_id, at }));
            &&& now.len() == restarts_in(batch).len() + 1
            &&& now.drop_last() == restarts_in(batch)
            &&& now.last().session == session_id
            &&& now.last().at == at
        }),
{
    let w = Write::ServerRestart { session_id, at };
    assert(batch.push(w).drop_last() =~= batch);
    assert(restarts_in(batch.push(w)).drop_last() =~= restarts_in(batch));
}

/// Whoever is on a settled list and in the dictionary is held against the log under
/// their number, and nobody else is.
pub proof fn lemma_settled_lists_are_held(names: Map<Seq<char>, i32>, players: Seq<Seq<char>>)
    ensures
        forall|id: i32| #[trigger]
            ids_of(names, players).contains(id) <==> exists|i: int|
                0 <= i < players.len() && stands_for(names, Some(#[trigger] players[i]), Some(id)),
    decreases players.len(),
{
    if players.len() > 0 {
        let init = players.drop_last();
        lemma_settled_lists_are_held(names, init);
        let before = ids_of(names, init);
        let now = ids_of(names, players);
        assert forall|id: i32| #[trigger] now.contains(id) <==> exists|i: int|
            0 <= i < players.len() && stands_for(names, Some(#[trigger] players[i]), Some(id)) by {
            assert(before.contains(id) <==> exists|i: int|
                0 <= i < init.len() && stands_for(names, Some(#[trigger] init[i]), Some(id)));
            if now.contains(id) {
                let k = choose|k: int| 0 <= k < now.len() && now[k] == id;
                if k < before.len() {
                    assert(before[k] == id);
                    let i = choose|i: int|
                        0 <= i < init.len() && stands_for(names, Some(#[trigger] init[i]), Some(id));
                    assert(players[i] == init[i]);
                } else {
                    assert(stands_for(names, Some(players[players.len() - 1]), Some(id)));
                }
            }
            if exists|i: int|
                0 <= i < players.len() && stands_for(names, Some(#[trigger] players[i]), Some(id)) {
                let i = choose|i: int|
                    0 <= i < players.len() && stands_for(
                        names,
                        Some(#[trigger] players[i]),
                        Some(id),
                    );
                if i < init.len() {
                    assert(init[i] == players[i]);
                    let k = choose|k: int| 0 <= k < before.len() && before[k] == id;
                    assert(now[k] == id);
                } else {
                    assert(now[before.len() as int] == id);
                }
            }
        }
    }
}

/// The names of a batch are looked up that its rows mention: senders, who lines are about,
/// killers, players of events and everyone on a settled list.
pub proof fn lemma_mentioned_names_are_looked_up(batch: Seq<Write>, w: Write, name: Seq<char>)
    requires
        dict_text(name) == Some(name),
        mentioned(w).contains(name),
    ensures
        wanted(batch.push(w)).contains(name),
{
    assert(batch.push(w).drop_last() =~= batch);
    lemma_dict_names_kept(mentioned(w), name);
    let more = dict_names(mentioned(w));
    let i = choose|i: int| 0 <= i < more.len() && more[i] == name;
    assert(wanted(batch.push(w))[wanted(batch).len() + i] == name);
}

proof fn lemma_dict_names_kept(names: Seq<Seq<char>>, name: Seq<char>)
    requires
        dict_text(name) == Some(name),
        names.contains(name),
    ensures
        dict_names(names).contains(name),
    decreases names.len(),
{
    let rest = names.drop_last();
    let all = dict_names(names);
    let i = choose|i: int| 0 <= i < names.len() && names[i] == name;
    if i < rest.len() {
        assert(rest[i] == name);
        lemma_dict_names_kept(rest, name);
        let before = dict_names(rest);
        let j = choose|j: int| 0 <= j < before.len() && before[j] == name;
        assert(all[j] == name);
    } else {
        assert(all[all.len() - 1] == name);
    }
}

/// A chat line mentions its sender, who it is about and its killer; an event its player.
pub proof fn lemma_rows_mention_their_players(
    row: ChatRow,
    event: crate::rows::PlayerEventRow,
    session_id: i64,
    at: i64,
    players: Vec<String>,
)
    ensures
        row.sender_name is Some ==> mentioned(Write::Chat(row)).contains(row.sender_name->0@),
        row.subject_name is Some ==> mentioned(Write::Chat(row)).contains(row.subject_name->0@),
        row.killer_name is Some ==> mentioned(Write::Chat(row)).contains(row.killer_name->0@),
        mentioned(Write::Event(event)) == seq![event.player_name@],
        mentioned(Write::ReconcileOnline { session_id, at, players }) == text::texts(players@),
        mentioned(Write::ServerRestart { session_id, at }).len() == 0,
{
    let all = seq![
        text::opt_text(row.sender_name),
        text::opt_text(row.subject_name),
        text::opt_text(row.killer_name),
    ];
    reveal_with_fuel(stream::present, 4);
    let two = all.drop_last();
    let one = two.drop_last();
    assert(two.last() == text::opt_text(row.subject_name));
    assert(one.last() == text::opt_text(row.sender_name));
    assert(one.drop_last().len() == 0);
    let a = stream::present(one);
    let b = stream::present(two);
    let c = stream::present(all);
    if row.sender_name is Some {
        assert(a[0] == row.sender_name->0@);
        assert(b[0] == row.sender_name->0@);
        assert(c[0] == row.sender_name->0@);
    }
    if row.subject_name is Some {
        assert(b[b.len() - 1] == row.subject_name->0@);
        assert(c[b.len() - 1] == row.subject_name->0@);
    }
    if row.killer_name is Some {
        assert(c[c.len() - 1] == row.killer_name->0@);
    }
}

/// A name is added that is not on file, once, in whatever case it comes.
pub proof fn lemma_missing_names_are_added(known: Set<Seq<char>>, names: Seq<Seq<char>>, name: Seq<char>)
    ensures
        known.contains(text::unicode_lower(name)) ==> missing(known, names.push(name)) == missing(
            known,
            names,
        ),
        lowers(missing(known, names)).contains(text::unicode_lower(name)) ==> missing(
            known,
            names.push(name),
        ) == missing(known, names),
        !known.contains(text::unicode_lower(name)) && !lowers(missing(known, names)).contains(
            text::unicode_lower(name),
        ) ==> missing(known, names.push(name)) == missing(known, names).push(name),
        missing(known, Seq::empty()).len() == 0,
{
    assert(names.push(name).drop_last() =~= names);
}

/// A settled list is stored with its session, its time and the numbers of those on it.
pub proof fn lemma_settled_lists_are_stored(
    names: Map<Seq<char>, i32>,
    batch: Seq<Write>,
    session_id: i64,
    at: i64,
    players: Vec<String>,
)
    requires
        i32::MIN <= session_id <= i32::MAX,
    ensures
        ({
            let ids = ids_of(names, text::texts(players@));
            let w = Write::ReconcileOnline { session_id, at, players };
            &&& ids.len() > 0 ==> rejoins_in(names, batch.push(w)) == rejoins_in(names, batch).push(
                (session_id as i32, at, ids),
            )
            &&& ids.len() == 0 ==> rejoins_in(names, batch.push(w)) == rejoins_in(names, batch)
        }),
{
    let w = Write::ReconcileOnline { session_id, at, players };
    assert(batch.push(w).drop_last() =~= batch);
}

/// The list of numbers has the number of each name that is on file, in order.
pub proof fn lemma_numbers_of_players(names: Map<Seq<char>, i32>, players: Seq<Seq<char>>, p: Seq<char>)
    ensures
        id_of(names, Some(p)) matches Some(id) ==> ids_of(names, players.push(p)) == ids_of(
            names,
            players,
        ).push(id),
        id_of(names, Some(p)) is None ==> ids_of(names, players.push(p)) == ids_of(names, players),
        stands_for(names, Some(p), id_of(names, Some(p))),
{
    assert(players.push(p).drop_last() =~= players);
}

/// A later sight of a player on the list counts, and an earlier one does not.
pub proof fn lemma_later_sights_count(
    m: Map<(i32, i32), (bool, i64)>,
    key: (i32, i32),
    present: bool,
    at: i64,
    other: (i32, i32),
)
    ensures
        !m.contains_key(key) ==> presence_noted(m, key, present, at)[key] == (present, at),
        m.contains_key(key) && at >= m[key].1 ==> presence_noted(m, key, present, at)[key] == (
            present,
            at,
        ),
        m.contains_key(key) && at < m[key].1 ==> presence_noted(m, key, present, at) == m,
        other != key ==> presence_noted(m, key, present, at).contains_key(other) == m.contains_key(other),
        other != key && m.contains_key(other) ==> presence_noted(m, key, present, at)[other] == m[other],
        says_present("j"@) && says_present("s"@),
        !says_present("l"@) && !says_present("p"@),
        is_history("j"@) && is_history("l"@),
        !is_history("s"@) && !is_history("p"@),
{
    reveal_strlit("j");
    reveal_strlit("l");
    reveal_strlit("s");
    reveal_strlit("p");
    assert("j"@[0] == 'j' && "l"@[0] == 'l' && "s"@[0] == 's' && "p"@[0] == 'p');
}

/// The name of a player is what is left without the space around it, with or without the
/// mark before it, where it is made of the letters of names and is no longer than sixteen.
pub proof fn lemma_names_of_players(name: Seq<char>)
    requires
        text::trimmed(name) == name,
        name.len() > 0,
    ensures
        name.len() <= 16 && (forall|i: int| 0 <= i < name.len() ==> text::is_name_char(#[trigger] name[i]))
            ==> mc_name(name) == Some(name),
        name.len() > 17 ==> mc_name(name) is None,
        mc_name(name) matches Some(n) ==> n == name,
{
    reveal_strlit("*");
    reveal_strlit(".");
    if name.len() <= 16 && (forall|i: int|
        0 <= i < name.len() ==> text::is_name_char(#[trigger] name[i])) {
        assert(text::is_name_char(name[0]));
        assert(name.take(1)[0] == name[0]);
        assert("*"@[0] == '*' && "."@[0] == '.');
        assert(unmarked(name) == name);
    }
}

/// A record is read field by field.
pub proof fn lemma_records_are_read_by_field(c: ChatRecord, e: EventRecord)
    ensures
        c@.session == c.session && c@.at == c.at && c@.sender == c.sender,
        c@.subject == c.subject && c@.killer == c.killer,
        c@.source == c.source@ && c@.kind == c.kind@ && c@.text == c.text@,
        e@.session == e.session && e@.at == e.at && e@.player == e.player,
        e@.event_type == e.event_type@ && e@.source == e.source@,
{
}

/// The rank of a sender is what the label has before the last place of the name, without
/// the brackets around it.
pub proof fn lemma_ranks_stand_before_names(before: Seq<char>, name: Seq<char>)
    requires
        name.len() > 0,
        text::rfind_text(before + name, name) == Some(before.len() as int),
    ensures
        ({
            let rank = text::trimmed(
                text::drop_back(
                    text::drop_front(text::trimmed(before), text::one_of("<"@)),
                    text::one_of("<>»"@),
                ),
            );
            &&& rank.len() > 0 ==> rank_text(before + name, name) == Some(rank)
            &&& rank.len() == 0 ==> rank_text(before + name, name) is None
        }),
{
    assert((before + name).take(before.len() as int) =~= before);
}

} // verus!
