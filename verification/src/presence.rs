//! Who is online, as the tab list shows it.
//!
//! The tab list is the authoritative source for who is online. It arrives as a
//! flood after each login, so a player who appears soon after it is taken for
//! one who was there already, and the list counts as settled only once it has
//! stopped growing for a while.
use vstd::prelude::*;
use vstd::string::*;

use crate::classify;
use crate::text;

verus! {

/// How long after a login an appearance counts as part of the first list.
pub const SNAPSHOT_GRACE_MS: i64 = 60_000;

/// The tab list is held against ours once in so many game ticks.
pub const TAB_RECONCILE_TICKS: u32 = 100;

/// So many checks without growth make a settled list.
pub const SETTLE_QUIET_TICKS: u32 = 8;

/// The players counted as online.
pub struct Presence {
    /// UUID and name of each.
    pub online: Vec<(u128, String)>,
    /// Players who are hidden from the list.
    pub hidden: Vec<u128>,
    pub ticks: u32,
    /// How many were online at the last check.
    pub last_len: usize,
    /// Checks in a row without growth.
    pub quiet: u32,
    pub settled: bool,
}

/// The contents of a [`Presence`].
#[verifier::ext_equal]
pub struct PresenceText {
    pub online: Seq<(u128, Seq<char>)>,
    pub hidden: Set<u128>,
    pub ticks: u32,
    pub last_len: int,
    pub quiet: int,
    pub settled: bool,
}

pub open spec fn roster(v: Seq<(u128, String)>) -> Seq<(u128, Seq<char>)> {
    Seq::new(v.len(), |i: int| (v[i].0, v[i].1@))
}

impl View for Presence {
    type V = PresenceText;

    open spec fn view(&self) -> PresenceText {
        PresenceText {
            online: roster(self.online@),
            hidden: self.hidden@.to_set(),
            ticks: self.ticks,
            last_len: self.last_len as int,
            quiet: self.quiet as int,
            settled: self.settled,
        }
    }
}

/// No player stands twice in a roster.
pub open spec fn distinct(online: Seq<(u128, Seq<char>)>) -> bool {
    forall|i: int, j: int|
        0 <= i < j < online.len() ==> #[trigger] online[i].0 != #[trigger] online[j].0
}

/// The first position of a player.
pub open spec fn at_of(online: Seq<(u128, Seq<char>)>, uuid: u128) -> Option<int>
    decreases online.len(),
{
    if online.len() == 0 {
        None
    } else if at_of(online.drop_last(), uuid) is Some {
        at_of(online.drop_last(), uuid)
    } else if online.last().0 == uuid {
        Some(online.len() - 1)
    } else {
        None
    }
}

pub proof fn lemma_at_of(online: Seq<(u128, Seq<char>)>, uuid: u128)
    ensures
        match at_of(online, uuid) {
            Some(i) => 0 <= i < online.len() && online[i].0 == uuid && forall|j: int|
                0 <= j < i ==> #[trigger] online[j].0 != uuid,
            None => forall|j: int| 0 <= j < online.len() ==> #[trigger] online[j].0 != uuid,
        },
    decreases online.len(),
{
    if online.len() > 0 {
        let init = online.drop_last();
        lemma_at_of(init, uuid);
        match at_of(init, uuid) {
            Some(i) => {
                assert(init[i] == online[i]);
                assert forall|j: int| 0 <= j < i implies #[trigger] online[j].0 != uuid by {
                    assert(init[j] == online[j]);
                }
            },
            None => {
                assert forall|j: int| 0 <= j < init.len() implies #[trigger] online[j].0
                    != uuid by {
                    assert(init[j] == online[j]);
                }
            },
        }
    }
}

/// Nobody online, and a list that is not settled. The tick count goes on.
pub open spec fn cleared(p: PresenceText) -> PresenceText {
    PresenceText {
        online: Seq::empty(),
        hidden: Set::empty(),
        ticks: p.ticks,
        last_len: 0,
        quiet: 0,
        settled: false,
    }
}

/// What the presence of a player depends on besides the list.
pub struct PresenceContext {
    /// Whether what the client sees is kept out of the feed.
    pub suppressed: bool,
    /// The logger's own name in the game.
    pub bot_username: Option<String>,
    /// Whether joins and leaves are taken from the tab list. Where chat announces
    /// them, the list only gives snapshots.
    pub tablist_joins: bool,
    /// When the login was; zero before any.
    pub login_at_ms: i64,
    pub now_ms: i64,
}

/// The contents of a [`PresenceContext`].
pub struct ContextText {
    pub suppressed: bool,
    pub bot: Option<Seq<char>>,
    pub tablist_joins: bool,
    pub login_at_ms: int,
    pub now_ms: int,
}

impl View for PresenceContext {
    type V = ContextText;

    open spec fn view(&self) -> ContextText {
        ContextText {
            suppressed: self.suppressed,
            bot: text::opt_text(self.bot_username),
            tablist_joins: self.tablist_joins,
            login_at_ms: self.login_at_ms as int,
            now_ms: self.now_ms as int,
        }
    }
}

/// Whether a name is the logger's own.
pub open spec fn own(bot: Option<Seq<char>>, name: Seq<char>) -> bool {
    bot matches Some(b) && text::lowered(b) == text::lowered(name)
}

pub fn is_own_bot(bot: &Option<String>, name: &str) -> (b: bool)
    ensures
        b == own(text::opt_text(*bot), name@),
{
    match bot {
        Some(b) => text::same_ignoring_case(b, name),
        None => false,
    }
}

/// An event that the tab list gives: `s` for a player who was there, `j` for a
/// join, `l` for a leave, `p` for a leave that only the list shows.
pub struct TabEvent {
    pub event_type: &'static str,
    pub name: String,
    pub uuid: u128,
}

/// The contents of a [`TabEvent`].
#[verifier::ext_equal]
pub struct TabEventText {
    pub event_type: Seq<char>,
    pub name: Seq<char>,
    pub uuid: u128,
}

impl View for TabEvent {
    type V = TabEventText;

    open spec fn view(&self) -> TabEventText {
        TabEventText { event_type: self.event_type@, name: self.name@, uuid: self.uuid }
    }
}

pub open spec fn opt_event(o: Option<TabEvent>) -> Option<TabEventText> {
    match o {
        Some(e) => Some(e@),
        None => None,
    }
}

pub open spec fn tab_events(v: Seq<TabEvent>) -> Seq<TabEventText> {
    Seq::new(v.len(), |i: int| v[i]@)
}

/// The type of an appearance.
pub open spec fn join_type(c: ContextText, name: Seq<char>) -> Seq<char> {
    if own(c.bot, name) || !c.tablist_joins || c.login_at_ms == 0 || c.now_ms - c.login_at_ms
        < SNAPSHOT_GRACE_MS {
        "s"@
    } else {
        "j"@
    }
}

/// The type of a disappearance.
pub open spec fn leave_type(c: ContextText, name: Seq<char>) -> Seq<char> {
    if own(c.bot, name) || !c.tablist_joins {
        "p"@
    } else {
        "l"@
    }
}

/// What an appearance makes of the list, and the event it gives.
pub open spec fn joined(p: PresenceText, c: ContextText, uuid: u128, raw: Seq<char>) -> (
    PresenceText,
    Option<TabEventText>,
) {
    match classify::cleaned(raw, classify::formatted(raw)) {
        Some(name) if !c.suppressed && !p.hidden.contains(uuid) => match at_of(p.online, uuid) {
            Some(i) => (
                PresenceText { online: p.online.update(i, (uuid, name)), ..p },
                None,
            ),
            None => (
                PresenceText { online: p.online.push((uuid, name)), ..p },
                Some(TabEventText { event_type: join_type(c, name), name, uuid }),
            ),
        },
        _ => (p, None),
    }
}

/// What a disappearance makes of the list, and the event it gives.
pub open spec fn left(p: PresenceText, c: ContextText, uuid: u128) -> (
    PresenceText,
    Option<TabEventText>,
) {
    match at_of(p.online, uuid) {
        Some(i) => (
            PresenceText { online: p.online.remove(i), ..p },
            if c.suppressed {
                None
            } else {
                let name = p.online[i].1;
                Some(TabEventText { event_type: leave_type(c, name), name, uuid })
            },
        ),
        None => (p, None),
    }
}

/// An entry of a tab-list update.
pub struct TabEntry {
    pub uuid: u128,
    pub name: String,
    pub listed: bool,
}

/// What a packet says of the tab list.
pub enum TabPacket {
    Update { update_listed: bool, add_player: bool, entries: Vec<TabEntry> },
    Remove(Vec<u128>),
    Other,
}

/// What one entry of an update makes of the list.
pub open spec fn entry_step(
    p: PresenceText,
    c: ContextText,
    update_listed: bool,
    add_player: bool,
    entry: TabEntry,
) -> (PresenceText, Option<TabEventText>) {
    if update_listed {
        if entry.listed {
            let shown = PresenceText { hidden: p.hidden.remove(entry.uuid), ..p };
            if entry.name@.len() > 0 {
                joined(shown, c, entry.uuid, entry.name@)
            } else {
                (shown, None)
            }
        } else {
            left(PresenceText { hidden: p.hidden.insert(entry.uuid), ..p }, c, entry.uuid)
        }
    } else if add_player && entry.name@.len() > 0 {
        joined(p, c, entry.uuid, entry.name@)
    } else {
        (p, None)
    }
}

/// A list of events with one more, where there is one.
pub open spec fn and_event(events: Seq<TabEventText>, event: Option<TabEventText>) -> Seq<
    TabEventText,
> {
    match event {
        Some(e) => events.push(e),
        None => events,
    }
}

/// What the entries of an update make of the list, one after another.
pub open spec fn entries_step(
    p: PresenceText,
    c: ContextText,
    update_listed: bool,
    add_player: bool,
    entries: Seq<TabEntry>,
) -> (PresenceText, Seq<TabEventText>)
    decreases entries.len(),
{
    if entries.len() == 0 {
        (p, Seq::empty())
    } else {
        let (before, events) = entries_step(
            p,
            c,
            update_listed,
            add_player,
            entries.drop_last(),
        );
        let (after, event) = entry_step(before, c, update_listed, add_player, entries.last());
        (after, and_event(events, event))
    }
}

/// What the removal of players makes of the list.
pub open spec fn removals(p: PresenceText, c: ContextText, uuids: Seq<u128>) -> (
    PresenceText,
    Seq<TabEventText>,
)
    decreases uuids.len(),
{
    if uuids.len() == 0 {
        (p, Seq::empty())
    } else {
        let (before, events) = removals(p, c, uuids.drop_last());
        let uuid = uuids.last();
        let (after, event) = left(
            PresenceText { hidden: before.hidden.remove(uuid), ..before },
            c,
            uuid,
        );
        (after, and_event(events, event))
    }
}

/// What a packet makes of the list.
pub open spec fn packet_step(p: PresenceText, c: ContextText, packet: TabPacket) -> (
    PresenceText,
    Seq<TabEventText>,
) {
    match packet {
        TabPacket::Update { update_listed, add_player, entries } => entries_step(
            p,
            c,
            update_listed,
            add_player,
            entries@,
        ),
        TabPacket::Remove(uuids) => removals(p, c, uuids@),
        TabPacket::Other => (p, Seq::empty()),
    }
}

/// The players of a roster who are not on the tab list, in order.
pub open spec fn gone(online: Seq<(u128, Seq<char>)>, tab: Set<u128>) -> Seq<u128>
    decreases online.len(),
{
    if online.len() == 0 {
        Seq::empty()
    } else if tab.contains(online.last().0) {
        gone(online.drop_last(), tab)
    } else {
        gone(online.drop_last(), tab).push(online.last().0)
    }
}

/// What the disappearance of several players makes of the list.
pub open spec fn left_all(p: PresenceText, c: ContextText, uuids: Seq<u128>) -> (
    PresenceText,
    Seq<TabEventText>,
)
    decreases uuids.len(),
{
    if uuids.len() == 0 {
        (p, Seq::empty())
    } else {
        let (before, events) = left_all(p, c, uuids.drop_last());
        let (after, event) = left(before, c, uuids.last());
        (after, and_event(events, event))
    }
}

/// The watch for a settled list, after a check that found so many players.
pub open spec fn watched(p: PresenceText, counted_now: int) -> PresenceText {
    if p.settled {
        p
    } else if counted_now > 0 && counted_now == p.last_len {
        PresenceText {
            last_len: counted_now,
            quiet: p.quiet + 1,
            settled: p.quiet + 1 >= SETTLE_QUIET_TICKS,
            ..p
        }
    } else {
        PresenceText { last_len: counted_now, quiet: 0, ..p }
    }
}

/// What a check makes of the list: those who are not on the tab list any more
/// have left, and the watch goes on.
pub open spec fn checked(p: PresenceText, c: ContextText, tab: Option<Set<u128>>) -> (
    PresenceText,
    Seq<TabEventText>,
) {
    let counted = PresenceText { ticks: next_tick(p.ticks), ..p };
    if p.ticks % TAB_RECONCILE_TICKS != 0 || c.suppressed || tab is None {
        (counted, Seq::empty())
    } else {
        let (after, events) = left_all(counted, c, gone(p.online, tab->0));
        (watched(after, p.online.len() as int), events)
    }
}

/// The count after a tick; it starts over where it is full.
pub open spec fn next_tick(ticks: u32) -> u32 {
    if ticks == u32::MAX {
        0
    } else {
        (ticks + 1) as u32
    }
}

/// The names of a roster but for the logger's own.
pub open spec fn others(online: Seq<(u128, Seq<char>)>, bot: Option<Seq<char>>) -> Seq<Seq<char>>
    decreases online.len(),
{
    if online.len() == 0 {
        Seq::empty()
    } else if own(bot, online.last().1) {
        others(online.drop_last(), bot)
    } else {
        others(online.drop_last(), bot).push(online.last().1)
    }
}

/// What a check found.
pub struct Check {
    pub events: Vec<TabEvent>,
    /// Whether the list settled with this check.
    pub settled: bool,
}

impl Presence {
    pub open spec fn wf(self) -> bool {
        &&& distinct(roster(self.online@))
        &&& self.quiet <= SETTLE_QUIET_TICKS
        &&& self.settled || self.quiet < SETTLE_QUIET_TICKS
    }

    pub fn new() -> (p: Self)
        ensures
            p.wf(),
            p@ == (PresenceText {
                online: Seq::empty(),
                hidden: Set::empty(),
                ticks: 0,
                last_len: 0,
                quiet: 0,
                settled: false,
            }),
    {
        let p = Presence {
            online: Vec::new(),
            hidden: Vec::new(),
            ticks: 0,
            last_len: 0,
            quiet: 0,
            settled: false,
        };
        assert(roster(p.online@) =~= Seq::<(u128, Seq<char>)>::empty());
        assert(p.hidden@.to_set() =~= Set::<u128>::empty());
        p
    }

    /// Forgets who is online: whatever list comes next is a new flood.
    pub fn clear_tab_presence(&mut self)
        ensures
            final(self).wf(),
            final(self)@ == cleared(old(self)@),
    {
        let ticks: u32 = self.ticks;
        *self = Presence::new();
        self.ticks = ticks;
    }

    /// Marks everyone offline, and says how many that were.
    pub fn retire_all(&mut self) -> (n: usize)
        requires
            old(self).wf(),
        ensures
            final(self).wf(),
            n == old(self)@.online.len(),
            final(self)@ == (PresenceText { online: Seq::empty(), ..old(self)@ }),
    {
        let n: usize = self.online.len();
        self.online = Vec::new();
        assert(roster(self.online@) =~= Seq::<(u128, Seq<char>)>::empty());
        n
    }

    fn position(&self, uuid: u128) -> (r: Option<usize>)
        ensures
            (match r {
                Some(i) => Some(i as int),
                None => None,
            }) == at_of(roster(self.online@), uuid),
            r matches Some(i) ==> i < self.online.len(),
    {
        let ghost list = roster(self.online@);
        proof {
            lemma_at_of(list, uuid);
        }
        for i in 0..self.online.len()
            invariant
                list == roster(self.online@),
                forall|j: int| 0 <= j < i ==> #[trigger] list[j].0 != uuid,
        {
            assert(list[i as int].0 == self.online[i as int].0);
            if self.online[i].0 == uuid {
                proof {
                    lemma_at_of(list, uuid);
                    assert(list[i as int].0 == uuid);
                    assert(list[at_of(list, uuid)->0].0 == uuid);
                }
                return Some(i);
            }
        }
        proof {
            assert(list.len() == self.online.len());
        }
        None
    }

    fn is_hidden(&self, uuid: u128) -> (b: bool)
        ensures
            b == self@.hidden.contains(uuid),
    {
        for i in 0..self.hidden.len()
            invariant
                forall|j: int| 0 <= j < i ==> self.hidden@[j] != uuid,
        {
            if self.hidden[i] == uuid {
                assert(self.hidden@[i as int] == uuid);
                return true;
            }
        }
        false
    }

    fn conceal(&mut self, uuid: u128)
        requires
            old(self).wf(),
        ensures
            final(self).wf(),
            final(self)@ == (PresenceText { hidden: old(self)@.hidden.insert(uuid), ..old(self)@ }),
    {
        let ghost before = self.hidden@;
        if !self.is_hidden(uuid) {
            self.hidden.push(uuid);
            proof {
                let after = self.hidden@;
                assert forall|u: u128|
                    after.to_set().contains(u) == before.to_set().insert(uuid).contains(u) by {
                    if before.contains(u) {
                        let k = choose|k: int| 0 <= k < before.len() && before[k] == u;
                        assert(after[k] == u);
                    }
                    assert(after[before.len() as int] == uuid);
                }
                assert(after.to_set() =~= before.to_set().insert(uuid));
            }
        } else {
            assert(before.to_set() =~= before.to_set().insert(uuid));
        }
    }

    fn show(&mut self, uuid: u128)
        requires
            old(self).wf(),
        ensures
            final(self).wf(),
            final(self)@ == (PresenceText { hidden: old(self)@.hidden.remove(uuid), ..old(self)@ }),
    {
        let ghost before = self.hidden@;
        let mut kept: Vec<u128> = Vec::new();
        for i in 0..self.hidden.len()
            invariant
                before == self.hidden@,
                forall|u: u128| #[trigger]
                    kept@.contains(u) <==> u != uuid && before.take(i as int).contains(u),
        {
            let ghost so_far = kept@;
            let ghost head = before.take(i as int);
            let ghost now = before.take(i + 1);
            if self.hidden[i] != uuid {
                kept.push(self.hidden[i]);
            }
            proof {
                assert forall|u: u128| #[trigger] kept@.contains(u) <==> u != uuid && now.contains(
                    u,
                ) by {
                    assert(so_far.contains(u) <==> u != uuid && head.contains(u));
                    if kept@.contains(u) {
                        let k = choose|k: int| 0 <= k < kept@.len() && kept@[k] == u;
                        if k < so_far.len() {
                            assert(so_far[k] == u);
                            let m = choose|m: int| 0 <= m < head.len() && head[m] == u;
                            assert(now[m] == u);
                        } else {
                            assert(now[i as int] == u);
                        }
                    }
                    if u != uuid && now.contains(u) {
                        let m = choose|m: int| 0 <= m < now.len() && now[m] == u;
                        if m < i {
                            assert(head[m] == u);
                            assert(so_far.contains(u));
                            let k = choose|k: int| 0 <= k < so_far.len() && so_far[k] == u;
                            assert(kept@[k] == u);
                        } else {
                            assert(kept@[so_far.len() as int] == u);
                        }
                    }
                }
            }
        }
        assert(before.take(before.len() as int) =~= before);
        assert(kept@.to_set() =~= before.to_set().remove(uuid));
        self.hidden = kept;
    }

    /// Somebody is on the list.
    pub fn presence_note_join(&mut self, c: &PresenceContext, uuid: u128, raw: &str) -> (r: Option<
        TabEvent,
    >)
        requires
            old(self).wf(),
        ensures
            final(self).wf(),
            (final(self)@, opt_event(r)) == joined(old(self)@, c@, uuid, raw@),
    {
        let ghost before = self@;
        let name = match classify::clean_player_name(raw) {
            Some(name) => name,
            None => {
                return None;
            },
        };
        if c.suppressed || self.is_hidden(uuid) {
            return None;
        }
        proof {
            lemma_at_of(before.online, uuid);
        }
        match self.position(uuid) {
            Some(i) => {
                let _ = self.online.remove(i);
                self.online.insert(i, (uuid, name));
                proof {
                    assert(roster(self.online@) =~= before.online.update(i as int, (uuid, name@)));
                    assert forall|a: int, b: int| 0 <= a < b < self@.online.len() implies
                        #[trigger] self@.online[a].0 != #[trigger] self@.online[b].0 by {
                        assert(before.online[a].0 != before.online[b].0);
                    }
                }
                None
            },
            None => {
                let elapsed: i128 = (c.now_ms as i128) - (c.login_at_ms as i128);
                let event_type = if is_own_bot(&c.bot_username, &name) || !c.tablist_joins
                    || c.login_at_ms == 0 || elapsed < SNAPSHOT_GRACE_MS as i128 {
                    "s"
                } else {
                    "j"
                };
                let event = TabEvent { event_type, name: name.clone(), uuid };
                self.online.push((uuid, name));
                proof {
                    assert(roster(self.online@) =~= before.online.push((uuid, name@)));
                    assert forall|a: int, b: int| 0 <= a < b < self@.online.len() implies
                        #[trigger] self@.online[a].0 != #[trigger] self@.online[b].0 by {
                        if b == before.online.len() {
                            assert(before.online[a].0 != uuid);
                        } else {
                            assert(before.online[a].0 != before.online[b].0);
                        }
                    }
                }
                Some(event)
            },
        }
    }

    /// Somebody is off the list.
    pub fn presence_note_leave(&mut self, c: &PresenceContext, uuid: u128) -> (r: Option<TabEvent>)
        requires
            old(self).wf(),
        ensures
            final(self).wf(),
            (final(self)@, opt_event(r)) == left(old(self)@, c@, uuid),
    {
        let ghost before = self@;
        match self.position(uuid) {
            Some(i) => {
                assert(before.online[i as int].1 == self.online[i as int].1@);
                let (_, name) = self.online.remove(i);
                proof {
                    assert(roster(self.online@) =~= before.online.remove(i as int));
                    assert forall|a: int, b: int| 0 <= a < b < self@.online.len() implies
                        #[trigger] self@.online[a].0 != #[trigger] self@.online[b].0 by {
                        let x = if a < i {
                            a
                        } else {
                            a + 1
                        };
                        let y = if b < i {
                            b
                        } else {
                            b + 1
                        };
                        assert(before.online[x].0 != before.online[y].0);
                    }
                }
                if c.suppressed {
                    None
                } else {
                    let event_type = if is_own_bot(&c.bot_username, &name) || !c.tablist_joins {
                        "p"
                    } else {
                        "l"
                    };
                    Some(TabEvent { event_type, name, uuid })
                }
            },
            None => None,
        }
    }

    fn note_entry(
        &mut self,
        c: &PresenceContext,
        update_listed: bool,
        add_player: bool,
        entry: &TabEntry,
    ) -> (r: Option<TabEvent>)
        requires
            old(self).wf(),
        ensures
            final(self).wf(),
            (final(self)@, opt_event(r)) == entry_step(
                old(self)@,
                c@,
                update_listed,
                add_player,
                *entry,
            ),
    {
        if update_listed {
            if entry.listed {
                self.show(entry.uuid);
                if entry.name.as_str().is_empty() {
                    None
                } else {
                    self.presence_note_join(c, entry.uuid, &entry.name)
                }
            } else {
                self.conceal(entry.uuid);
                self.presence_note_leave(c, entry.uuid)
            }
        } else if add_player && !entry.name.as_str().is_empty() {
            self.presence_note_join(c, entry.uuid, &entry.name)
        } else {
            None
        }
    }

    /// Takes in a packet about the tab list.
    pub fn handle_tab_presence_packet(&mut self, c: &PresenceContext, packet: &TabPacket) -> (events:
        Vec<TabEvent>)
        requires
            old(self).wf(),
        ensures
            final(self).wf(),
            (final(self)@, tab_events(events@)) == packet_step(old(self)@, c@, *packet),
    {
        let mut events: Vec<TabEvent> = Vec::new();
        let ghost start = self@;
        assert(tab_events(events@) =~= Seq::<TabEventText>::empty());
        match packet {
            TabPacket::Update { update_listed, add_player, entries } => {
                for i in 0..entries.len()
                    invariant
                        self.wf(),
                        (self@, tab_events(events@)) == entries_step(
                            start,
                            c@,
                            *update_listed,
                            *add_player,
                            entries@.take(i as int),
                        ),
                {
                    assert(entries@.take(i + 1).drop_last() =~= entries@.take(i as int));
                    let ghost so_far = events@;
                    if let Some(e) = self.note_entry(c, *update_listed, *add_player, &entries[i]) {
                        events.push(e);
                        assert(tab_events(events@) =~= tab_events(so_far).push(e@));
                    }
                }
                assert(entries@.take(entries.len() as int) =~= entries@);
            },
            TabPacket::Remove(uuids) => {
                for i in 0..uuids.len()
                    invariant
                        self.wf(),
                        (self@, tab_events(events@)) == removals(
                            start,
                            c@,
                            uuids@.take(i as int),
                        ),
                {
                    assert(uuids@.take(i + 1).drop_last() =~= uuids@.take(i as int));
                    let ghost so_far = events@;
                    self.show(uuids[i]);
                    if let Some(e) = self.presence_note_leave(c, uuids[i]) {
                        events.push(e);
                        assert(tab_events(events@) =~= tab_events(so_far).push(e@));
                    }
                }
                assert(uuids@.take(uuids.len() as int) =~= uuids@);
            },
            TabPacket::Other => {},
        }
        events
    }

    fn missing_from(&self, tab: &Vec<u128>) -> (r: Vec<u128>)
        ensures
            r@ == gone(self@.online, tab@.to_set()),
    {
        let ghost list = self@.online;
        let mut r: Vec<u128> = Vec::new();
        assert(r@ =~= gone(list.take(0), tab@.to_set()));
        for i in 0..self.online.len()
            invariant
                list == roster(self.online@),
                r@ == gone(list.take(i as int), tab@.to_set()),
        {
            let uuid: u128 = self.online[i].0;
            proof {
                assert(list.take(i + 1).drop_last() =~= list.take(i as int));
                assert(list.take(i + 1).last().0 == uuid);
            }
            let mut found = false;
            let mut k: usize = 0;
            while k < tab.len() && !found
                invariant
                    k <= tab.len(),
                    found ==> tab@.contains(uuid),
                    !found ==> forall|j: int| 0 <= j < k ==> tab@[j] != uuid,
                decreases tab.len() - k, (if found { 0int } else { 1int }),
            {
                if tab[k] == uuid {
                    assert(tab@[k as int] == uuid);
                    found = true;
                } else {
                    k += 1;
                }
            }
            if !found {
                r.push(uuid);
            }
        }
        assert(list.take(list.len() as int) =~= list);
        r
    }

    /// Counts a tick and, once in a while, holds our list against the tab list.
    pub fn maybe_reconcile_tab_presence(&mut self, c: &PresenceContext, tab: &Option<Vec<u128>>) -> (r:
        Check)
        requires
            old(self).wf(),
        ensures
            final(self).wf(),
            (final(self)@, tab_events(r.events@)) == checked(
                old(self)@,
                c@,
                match tab {
                    Some(t) => Some(t@.to_set()),
                    None => None,
                },
            ),
            r.settled == (final(self).settled && !old(self).settled),
    {
        let tick: u32 = self.ticks;
        self.ticks = if tick == u32::MAX {
            0
        } else {
            tick + 1
        };
        let mut events: Vec<TabEvent> = Vec::new();
        assert(tab_events(events@) =~= Seq::<TabEventText>::empty());
        if tick % TAB_RECONCILE_TICKS != 0 || c.suppressed {
            return Check { events, settled: false };
        }
        let list = match tab {
            Some(t) => t,
            None => {
                return Check { events, settled: false };
            },
        };
        let counted_now: usize = self.online.len();
        let missing = self.missing_from(list);
        let ghost start = self@;
        let was_settled = self.settled;
        for i in 0..missing.len()
            invariant
                self.wf(),
                (self@, tab_events(events@)) == left_all(start, c@, missing@.take(i as int)),
                self.settled == was_settled,
                self@.quiet == start.quiet,
                self@.last_len == start.last_len,
        {
            assert(missing@.take(i + 1).drop_last() =~= missing@.take(i as int));
            let ghost so_far = events@;
            if let Some(e) = self.presence_note_leave(c, missing[i]) {
                events.push(e);
                assert(tab_events(events@) =~= tab_events(so_far).push(e@));
            }
        }
        assert(missing@.take(missing.len() as int) =~= missing@);
        let ghost after = self@;
        let mut settled = false;
        if !self.settled {
            let previous: usize = self.last_len;
            self.last_len = counted_now;
            if counted_now > 0 && counted_now == previous {
                self.quiet = self.quiet + 1;
                if self.quiet >= SETTLE_QUIET_TICKS {
                    self.settled = true;
                    settled = true;
                }
            } else {
                self.quiet = 0;
            }
        }
        assert(self@ =~= watched(after, counted_now as int));
        Check { events, settled }
    }

    /// The players to hold against the log: everyone but the logger itself.
    pub fn online_players(&self, bot: &Option<String>) -> (r: Vec<String>)
        ensures
            text::texts(r@) == others(self@.online, text::opt_text(*bot)),
    {
        let ghost list = self@.online;
        let mut r: Vec<String> = Vec::new();
        assert(text::texts(r@) =~= others(list.take(0), text::opt_text(*bot)));
        for i in 0..self.online.len()
            invariant
                list == roster(self.online@),
                text::texts(r@) == others(list.take(i as int), text::opt_text(*bot)),
        {
            proof {
                assert(list.take(i + 1).drop_last() =~= list.take(i as int));
                assert(list.take(i + 1).last().1 == self.online[i as int].1@);
            }
            if !is_own_bot(bot, &self.online[i].1) {
                let ghost before = r@;
                r.push(self.online[i].1.clone());
                proof {
                    text::lemma_texts_push(before, r@.last());
                }
            }
        }
        assert(list.take(list.len() as int) =~= list);
        r
    }
}

// ---------------------------------------------------------------------------
// What holds of every list
// ---------------------------------------------------------------------------

/// A player who is on the list gives no second join: the event of an appearance
/// comes only where the player was not counted.
pub proof fn lemma_one_join_each(p: PresenceText, c: ContextText, uuid: u128, raw: Seq<char>)
    ensures
        joined(p, c, uuid, raw).1 is Some ==> at_of(p.online, uuid) is None && at_of(
            joined(p, c, uuid, raw).0.online,
            uuid,
        ) is Some,
{
    if let Some(name) = classify::cleaned(raw, classify::formatted(raw)) {
        if !c.suppressed && !p.hidden.contains(uuid) && at_of(p.online, uuid) is None {
            let now = p.online.push((uuid, name));
            assert(now.drop_last() =~= p.online);
        }
    }
}

/// Joining and leaving again gives back the list: whoever was not counted is not
/// counted after both.
pub proof fn lemma_leave_undoes_join(
    p: PresenceText,
    c: ContextText,
    uuid: u128,
    raw: Seq<char>,
)
    requires
        at_of(p.online, uuid) is None,
    ensures
        left(joined(p, c, uuid, raw).0, c, uuid).0 == p,
{
    if let Some(name) = classify::cleaned(raw, classify::formatted(raw)) {
        if !c.suppressed && !p.hidden.contains(uuid) {
            let now = p.online.push((uuid, name));
            assert(now.drop_last() =~= p.online);
            assert(at_of(now, uuid) == Some(p.online.len() as int));
            assert(now.remove(p.online.len() as int) =~= p.online);
        }
    }
    assert(left(joined(p, c, uuid, raw).0, c, uuid).0 =~= p);
}

/// While the client is kept out of the feed, nobody is counted as joining.
pub proof fn lemma_suppressed_counts_nobody(
    p: PresenceText,
    c: ContextText,
    uuid: u128,
    raw: Seq<char>,
)
    requires
        c.suppressed,
    ensures
        joined(p, c, uuid, raw) == (p, None::<TabEventText>),
        left(p, c, uuid).1 is None,
{
}

/// The logger's own account is never a public join or leave.
pub proof fn lemma_own_account_is_not_news(c: ContextText, name: Seq<char>)
    requires
        own(c.bot, name),
    ensures
        join_type(c, name) == "s"@,
        leave_type(c, name) == "p"@,
{
}

// ---------------------------------------------------------------------------
// What the list is for
// ---------------------------------------------------------------------------

/// Whether a player stands in a roster.
pub open spec fn is_online(online: Seq<(u128, Seq<char>)>, uuid: u128) -> bool {
    exists|i: int| 0 <= i < online.len() && (#[trigger] online[i]).0 == uuid
}

proof fn lemma_left(p: PresenceText, c: ContextText, uuid: u128)
    requires
        distinct(p.online),
    ensures
        ({
            let (after, event) = left(p, c, uuid);
            &&& distinct(after.online)
            &&& forall|x: (u128, Seq<char>)| #[trigger]
                after.online.contains(x) <==> p.online.contains(x) && x.0 != uuid
            &&& event is Some <==> is_online(p.online, uuid) && !c.suppressed
            &&& event matches Some(e) ==> e.uuid == uuid && p.online.contains((uuid, e.name))
            &&& after.hidden == p.hidden
            &&& after.ticks == p.ticks
            &&& after.last_len == p.last_len
            &&& after.quiet == p.quiet
            &&& after.settled == p.settled
        }),
{
    lemma_at_of(p.online, uuid);
    let after = left(p, c, uuid).0;
    match at_of(p.online, uuid) {
        Some(i) => {
            assert(p.online[i].0 == uuid);
            assert forall|a: int, b: int| 0 <= a < b < after.online.len() implies
                #[trigger] after.online[a].0 != #[trigger] after.online[b].0 by {
                let x = if a < i { a } else { a + 1 };
                let y = if b < i { b } else { b + 1 };
                assert(p.online[x].0 != p.online[y].0);
            }
            assert forall|x: (u128, Seq<char>)| #[trigger] after.online.contains(x)
                <==> p.online.contains(x) && x.0 != uuid by {
                if after.online.contains(x) {
                    let k = choose|k: int| 0 <= k < after.online.len() && after.online[k] == x;
                    let m = if k < i { k } else { k + 1 };
                    assert(p.online[m] == x);
                    if m < i {
                        assert(p.online[m].0 != p.online[i].0);
                    } else {
                        assert(p.online[i].0 != p.online[m].0);
                    }
                }
                if p.online.contains(x) && x.0 != uuid {
                    let m = choose|m: int| 0 <= m < p.online.len() && p.online[m] == x;
                    let k = if m < i { m } else { m - 1 };
                    assert(after.online[k] == x);
                }
            }
            assert(p.online.contains(p.online[i]));
        },
        None => {
            assert forall|x: (u128, Seq<char>)| #[trigger] after.online.contains(x)
                <==> p.online.contains(x) && x.0 != uuid by {
                if p.online.contains(x) {
                    let m = choose|m: int| 0 <= m < p.online.len() && p.online[m] == x;
                    assert(p.online[m].0 != uuid);
                }
            }
        },
    }
}

proof fn lemma_left_all(p: PresenceText, c: ContextText, uuids: Seq<u128>)
    requires
        distinct(p.online),
        !c.suppressed,
        uuids.no_duplicates(),
        forall|k: int| 0 <= k < uuids.len() ==> is_online(p.online, #[trigger] uuids[k]),
    ensures
        ({
            let (after, events) = left_all(p, c, uuids);
            &&& distinct(after.online)
            &&& forall|x: (u128, Seq<char>)| #[trigger]
                after.online.contains(x) <==> p.online.contains(x) && !uuids.contains(x.0)
            &&& events.len() == uuids.len()
            &&& forall|k: int|
                0 <= k < uuids.len() ==> (#[trigger] events[k]).uuid == uuids[k]
                    && p.online.contains((uuids[k], events[k].name))
            &&& after.hidden == p.hidden
            &&& after.ticks == p.ticks
        }),
    decreases uuids.len(),
{
    if uuids.len() > 0 {
        let init = uuids.drop_last();
        let uuid = uuids.last();
        assert(init.no_duplicates());
        assert forall|k: int| 0 <= k < init.len() implies is_online(
            p.online,
            #[trigger] init[k],
        ) by {
            assert(is_online(p.online, uuids[k]));
        }
        lemma_left_all(p, c, init);
        let (before, events) = left_all(p, c, init);
        lemma_left(before, c, uuid);
        assert(is_online(p.online, uuids[uuids.len() - 1]));
        let i = choose|i: int| 0 <= i < p.online.len() && (#[trigger] p.online[i]).0 == uuid;
        assert(p.online.contains(p.online[i]));
        assert(!init.contains(uuid));
        assert(before.online.contains(p.online[i]));
        let j = choose|j: int| 0 <= j < before.online.len() && before.online[j] == p.online[i];
        assert(is_online(before.online, uuid)) by {
            assert(before.online[j].0 == uuid);
        }
        let (after, event) = left(before, c, uuid);
        assert forall|x: (u128, Seq<char>)| #[trigger] after.online.contains(x)
            <==> p.online.contains(x) && !uuids.contains(x.0) by {
            assert(before.online.contains(x) <==> p.online.contains(x) && !init.contains(x.0));
            if uuids.contains(x.0) && x.0 != uuid {
                let k = choose|k: int| 0 <= k < uuids.len() && uuids[k] == x.0;
                assert(init[k] == x.0);
            }
            if init.contains(x.0) {
                let k = choose|k: int| 0 <= k < init.len() && init[k] == x.0;
                assert(uuids[k] == x.0);
            }
            assert(uuids[uuids.len() - 1] == uuid);
        }
        let all = left_all(p, c, uuids).1;
        assert(all == events.push(event->0));
        assert forall|k: int| 0 <= k < uuids.len() implies (#[trigger] all[k]).uuid == uuids[k]
            && p.online.contains((uuids[k], all[k].name)) by {
            if k < init.len() {
                assert(all[k] == events[k]);
                assert(init[k] == uuids[k]);
                assert(events[k].uuid == init[k]);
            } else {
                assert(before.online.contains((uuid, all[k].name)));
            }
        }
    }
}

proof fn lemma_gone(online: Seq<(u128, Seq<char>)>, tab: Set<u128>)
    requires
        distinct(online),
    ensures
        gone(online, tab).no_duplicates(),
        forall|u: u128| #[trigger]
            gone(online, tab).contains(u) <==> is_online(online, u) && !tab.contains(u),
    decreases online.len(),
{
    if online.len() > 0 {
        let init = online.drop_last();
        let last = online.last().0;
        assert forall|a: int, b: int| 0 <= a < b < init.len() implies #[trigger] init[a].0
            != #[trigger] init[b].0 by {
            assert(online[a].0 != online[b].0);
        }
        lemma_gone(init, tab);
        let before = gone(init, tab);
        let now = gone(online, tab);
        assert(!is_online(init, last)) by {
            if is_online(init, last) {
                let i = choose|i: int| 0 <= i < init.len() && (#[trigger] init[i]).0 == last;
                assert(online[i].0 != online[online.len() - 1].0);
            }
        }
        assert forall|u: u128| is_online(online, u) <==> #[trigger] is_online(init, u) || u
            == last by {
            if is_online(online, u) {
                let i = choose|i: int| 0 <= i < online.len() && (#[trigger] online[i]).0 == u;
                if i < init.len() {
                    assert(init[i].0 == u);
                }
            }
            if is_online(init, u) {
                let i = choose|i: int| 0 <= i < init.len() && (#[trigger] init[i]).0 == u;
                assert(online[i].0 == u);
            }
            assert(online[online.len() - 1].0 == last);
        }
        assert(!before.contains(last)) by {
            assert(before.contains(last) <==> is_online(init, last) && !tab.contains(last));
        }
        assert forall|u: u128| #[trigger] now.contains(u) <==> is_online(online, u)
            && !tab.contains(u) by {
            assert(before.contains(u) <==> is_online(init, u) && !tab.contains(u));
            assert(is_online(online, u) <==> is_online(init, u) || u == last);
            if !tab.contains(last) {
                if now.contains(u) {
                    let k = choose|k: int| 0 <= k < now.len() && now[k] == u;
                    if k < before.len() {
                        assert(before[k] == u);
                    }
                }
                if before.contains(u) {
                    let k = choose|k: int| 0 <= k < before.len() && before[k] == u;
                    assert(now[k] == u);
                }
                assert(now[before.len() as int] == last);
            }
        }
        if !tab.contains(last) {
            assert forall|a: int, b: int| 0 <= a < now.len() && 0 <= b < now.len() && a
                != b implies now[a] != now[b] by {
                if a < before.len() && b < before.len() {
                    assert(before[a] != before[b]);
                } else if a < before.len() {
                    assert(before.contains(before[a]));
                } else {
                    assert(before.contains(before[b]));
                }
            }
        }
    } else {
        assert forall|u: u128| #[trigger] gone(online, tab).contains(u) <==> is_online(online, u)
            && !tab.contains(u) by {
        }
    }
}

/// A check that is due leaves online exactly those players who were online and are
/// on the tab list, and gives one leave for each of the others, under their own
/// name, and for nobody else. Once in a hundred ticks a check is due.
pub proof fn lemma_check_holds_the_list(p: PresenceText, c: ContextText, tab: Set<u128>)
    requires
        distinct(p.online),
        p.ticks % 100 == 0,
        !c.suppressed,
    ensures
        ({
            let (after, events) = checked(p, c, Some(tab));
            &&& forall|x: (u128, Seq<char>)| #[trigger]
                after.online.contains(x) <==> p.online.contains(x) && tab.contains(x.0)
            &&& distinct(after.online)
            &&& after.hidden == p.hidden
            &&& forall|k: int|
                0 <= k < events.len() ==> p.online.contains(
                    ((#[trigger] events[k]).uuid, events[k].name),
                ) && !tab.contains(events[k].uuid)
            &&& forall|u: u128|
                #[trigger] is_online(p.online, u) && !tab.contains(u) ==> exists|k: int|
                    0 <= k < events.len() && (#[trigger] events[k]).uuid == u
            &&& forall|a: int, b: int|
                0 <= a < b < events.len() ==> (#[trigger] events[a]).uuid != (
                #[trigger] events[b]).uuid
        }),
{
    let counted = PresenceText { ticks: next_tick(p.ticks), ..p };
    let uuids = gone(p.online, tab);
    lemma_gone(p.online, tab);
    assert forall|k: int| 0 <= k < uuids.len() implies is_online(
        counted.online,
        #[trigger] uuids[k],
    ) by {
        assert(uuids.contains(uuids[k]));
    }
    lemma_left_all(counted, c, uuids);
    let (after, events) = checked(p, c, Some(tab));
    assert forall|x: (u128, Seq<char>)| #[trigger] after.online.contains(x)
        <==> p.online.contains(x) && tab.contains(x.0) by {
        if p.online.contains(x) {
            let i = choose|i: int| 0 <= i < p.online.len() && p.online[i] == x;
            assert(p.online[i].0 == x.0);
            assert(is_online(p.online, x.0));
            assert(uuids.contains(x.0) <==> !tab.contains(x.0));
        }
        assert(left_all(counted, c, uuids).0.online.contains(x) <==> counted.online.contains(x)
            && !uuids.contains(x.0));
    }
    assert forall|k: int| 0 <= k < events.len() implies p.online.contains(
        ((#[trigger] events[k]).uuid, events[k].name),
    ) && !tab.contains(events[k].uuid) by {
        assert(events[k].uuid == uuids[k]);
        assert(uuids.contains(uuids[k]));
    }
    assert forall|u: u128|
        #[trigger] is_online(p.online, u) && !tab.contains(u) implies exists|k: int|
        0 <= k < events.len() && (#[trigger] events[k]).uuid == u by {
        assert(uuids.contains(u));
        let k = choose|k: int| 0 <= k < uuids.len() && uuids[k] == u;
        assert(events[k].uuid == u);
    }
    assert forall|a: int, b: int| 0 <= a < b < events.len() implies (#[trigger] events[a]).uuid
        != (#[trigger] events[b]).uuid by {
        assert(uuids[a] != uuids[b]);
    }
}

/// Between two checks, without a tab list, or while the client is kept out of the
/// feed, nobody comes or goes.
pub proof fn lemma_no_check_no_change(p: PresenceText, c: ContextText, tab: Option<Set<u128>>)
    requires
        p.ticks % 100 != 0 || c.suppressed || tab is None,
    ensures
        checked(p, c, tab).0.online == p.online,
        checked(p, c, tab).0.hidden == p.hidden,
        checked(p, c, tab).0.settled == p.settled,
        checked(p, c, tab).1.len() == 0,
{
}

/// A list counts as settled with the eighth check in a row that finds as many
/// players as the one before, and never while it is empty.
pub proof fn lemma_settled_after_quiet(p: PresenceText, c: ContextText, tab: Set<u128>)
    requires
        p.ticks % 100 == 0,
        !c.suppressed,
        !p.settled,
        distinct(p.online),
    ensures
        ({
            let after = checked(p, c, Some(tab)).0;
            let same = p.online.len() > 0 && p.online.len() == p.last_len;
            &&& after.last_len == p.online.len()
            &&& after.quiet == (if same { p.quiet + 1 } else { 0 })
            &&& after.settled == (same && p.quiet + 1 >= 8)
        }),
{
    let counted = PresenceText { ticks: next_tick(p.ticks), ..p };
    lemma_left_all_keeps(counted, c, gone(p.online, tab));
}

proof fn lemma_left_all_keeps(p: PresenceText, c: ContextText, uuids: Seq<u128>)
    ensures
        left_all(p, c, uuids).0.last_len == p.last_len,
        left_all(p, c, uuids).0.quiet == p.quiet,
        left_all(p, c, uuids).0.settled == p.settled,
    decreases uuids.len(),
{
    if uuids.len() > 0 {
        lemma_left_all_keeps(p, c, uuids.drop_last());
    }
}

/// Whoever appears under a name that a player can have is online under it, nobody
/// else changes, and the first appearance gives an event: a join where the tab list
/// announces joins, a minute or more after the login, and not for the logger itself;
/// else only the note that the player was there.
pub proof fn lemma_appearing(p: PresenceText, c: ContextText, uuid: u128, name: Seq<char>)
    requires
        distinct(p.online),
        classify::player_shaped(name),
        !c.suppressed,
        !p.hidden.contains(uuid),
    ensures
        ({
            let (after, event) = joined(p, c, uuid, name);
            let news = c.tablist_joins && c.login_at_ms != 0 && c.now_ms - c.login_at_ms >= 60_000
                && !(c.bot matches Some(b) && text::lowered(b) == text::lowered(name));
            &&& after.online.contains((uuid, name))
            &&& forall|x: (u128, Seq<char>)|
                x.0 != uuid ==> (#[trigger] after.online.contains(x) <==> p.online.contains(x))
            &&& event is Some <==> !is_online(p.online, uuid)
            &&& event matches Some(e) ==> e.uuid == uuid && e.name == name && e.event_type == (
            if news { "j"@ } else { "s"@ })
        }),
{
    classify::lemma_player_names_are_clean(name);
    lemma_at_of(p.online, uuid);
    let after = joined(p, c, uuid, name).0;
    match at_of(p.online, uuid) {
        Some(i) => {
            assert(after.online[i] == (uuid, name));
            assert(p.online[i].0 == uuid);
            assert forall|x: (u128, Seq<char>)| x.0 != uuid implies (
            #[trigger] after.online.contains(x) <==> p.online.contains(x)) by {
                if after.online.contains(x) {
                    let k = choose|k: int| 0 <= k < after.online.len() && after.online[k] == x;
                    assert(p.online[k] == x);
                }
                if p.online.contains(x) {
                    let k = choose|k: int| 0 <= k < p.online.len() && p.online[k] == x;
                    assert(after.online[k] == x);
                }
            }
        },
        None => {
            assert(after.online[p.online.len() as int] == (uuid, name));
            assert forall|x: (u128, Seq<char>)| x.0 != uuid implies (
            #[trigger] after.online.contains(x) <==> p.online.contains(x)) by {
                if after.online.contains(x) {
                    let k = choose|k: int| 0 <= k < after.online.len() && after.online[k] == x;
                    assert(p.online[k] == x);
                }
                if p.online.contains(x) {
                    let k = choose|k: int| 0 <= k < p.online.len() && p.online[k] == x;
                    assert(after.online[k] == x);
                }
            }
        },
    }
}

/// Whoever disappears is off the roster, nobody else changes, and the event names
/// the player: a leave where the tab list announces leaves and it is not the logger
/// itself, else only a note of the list.
pub proof fn lemma_disappearing(p: PresenceText, c: ContextText, uuid: u128)
    requires
        distinct(p.online),
        !c.suppressed,
    ensures
        ({
            let (after, event) = left(p, c, uuid);
            &&& forall|x: (u128, Seq<char>)| #[trigger]
                after.online.contains(x) <==> p.online.contains(x) && x.0 != uuid
            &&& event is Some <==> is_online(p.online, uuid)
            &&& event matches Some(e) ==> {
                &&& e.uuid == uuid
                &&& p.online.contains((uuid, e.name))
                &&& e.event_type == (if c.tablist_joins && !(c.bot matches Some(b)
                    && text::lowered(b) == text::lowered(e.name)) {
                    "l"@
                } else {
                    "p"@
                })
            }
        }),
{
    lemma_left(p, c, uuid);
}

/// A player whom an update hides is off the roster and stays off it until an update
/// shows them; one whom it shows is on the roster.
pub proof fn lemma_hiding_and_showing(p: PresenceText, c: ContextText, entry: TabEntry, again: bool)
    requires
        distinct(p.online),
        !c.suppressed,
    ensures
        !entry.listed ==> {
            let hidden = entry_step(p, c, true, again, entry).0;
            &&& !is_online(hidden.online, entry.uuid)
            &&& hidden.hidden == p.hidden.insert(entry.uuid)
            &&& entry_step(hidden, c, false, true, entry).0.online == hidden.online
        },
        entry.listed && classify::player_shaped(entry.name@) ==> {
            let shown = entry_step(p, c, true, again, entry).0;
            &&& shown.online.contains((entry.uuid, entry.name@))
            &&& shown.hidden == p.hidden.remove(entry.uuid)
        },
{
    if !entry.listed {
        let concealed = PresenceText { hidden: p.hidden.insert(entry.uuid), ..p };
        lemma_left(concealed, c, entry.uuid);
        let hidden = entry_step(p, c, true, again, entry).0;
        if is_online(hidden.online, entry.uuid) {
            let i = choose|i: int|
                0 <= i < hidden.online.len() && (#[trigger] hidden.online[i]).0 == entry.uuid;
            assert(hidden.online.contains(hidden.online[i]));
        }
    } else if classify::player_shaped(entry.name@) {
        reveal_strlit(".");
        assert(entry.name@.len() > 0);
        lemma_appearing(
            PresenceText { hidden: p.hidden.remove(entry.uuid), ..p },
            c,
            entry.uuid,
            entry.name@,
        );
    }
}

/// Whoever a packet removes is off the roster, and everybody else stays.
pub proof fn lemma_removing(p: PresenceText, c: ContextText, uuids: Seq<u128>)
    requires
        distinct(p.online),
    ensures
        distinct(removals(p, c, uuids).0.online),
        forall|x: (u128, Seq<char>)| #[trigger]
            removals(p, c, uuids).0.online.contains(x) <==> p.online.contains(x) && !uuids.contains(
                x.0,
            ),
        forall|k: int|
            0 <= k < removals(p, c, uuids).1.len() ==> p.online.contains(
                ((#[trigger] removals(p, c, uuids).1[k]).uuid, removals(p, c, uuids).1[k].name),
            ) && uuids.contains(removals(p, c, uuids).1[k].uuid),
    decreases uuids.len(),
{
    if uuids.len() > 0 {
        let init = uuids.drop_last();
        lemma_removing(p, c, init);
        let (before, events) = removals(p, c, init);
        let uuid = uuids.last();
        let shown = PresenceText { hidden: before.hidden.remove(uuid), ..before };
        lemma_left(shown, c, uuid);
        let (after, all) = removals(p, c, uuids);
        assert forall|u: u128| #[trigger] uuids.contains(u) <==> init.contains(u) || u == uuid by {
            if uuids.contains(u) {
                let k = choose|k: int| 0 <= k < uuids.len() && uuids[k] == u;
                if k < init.len() {
                    assert(init[k] == u);
                }
            }
            if init.contains(u) {
                let k = choose|k: int| 0 <= k < init.len() && init[k] == u;
                assert(uuids[k] == u);
            }
            assert(uuids[uuids.len() - 1] == uuid);
        }
        assert forall|x: (u128, Seq<char>)| #[trigger] after.online.contains(x)
            <==> p.online.contains(x) && !uuids.contains(x.0) by {
            assert(shown.online.contains(x) <==> p.online.contains(x) && !init.contains(x.0));
        }
        assert forall|k: int| 0 <= k < all.len() implies p.online.contains(
            ((#[trigger] all[k]).uuid, all[k].name),
        ) && uuids.contains(all[k].uuid) by {
            if k < events.len() {
                assert(all[k] == events[k]);
            } else {
                assert(shown.online.contains((all[k].uuid, all[k].name)));
            }
        }
    } else {
        assert forall|x: (u128, Seq<char>)| #[trigger] removals(p, c, uuids).0.online.contains(x)
            <==> p.online.contains(x) && !uuids.contains(x.0) by {
        }
    }
}

/// The players to hold against the log are all who are online but the logger.
pub proof fn lemma_everyone_else(online: Seq<(u128, Seq<char>)>, bot: Option<Seq<char>>)
    ensures
        forall|name: Seq<char>| #[trigger]
            others(online, bot).contains(name) <==> (exists|i: int|
                0 <= i < online.len() && (#[trigger] online[i]).1 == name) && !(bot matches Some(b)
                && text::lowered(b) == text::lowered(name)),
    decreases online.len(),
{
    if online.len() > 0 {
        let init = online.drop_last();
        lemma_everyone_else(init, bot);
        let before = others(init, bot);
        let now = others(online, bot);
        assert forall|name: Seq<char>| #[trigger] now.contains(name) <==> (exists|i: int|
            0 <= i < online.len() && (#[trigger] online[i]).1 == name) && !(bot matches Some(b)
            && text::lowered(b) == text::lowered(name)) by {
            assert(before.contains(name) <==> (exists|i: int|
                0 <= i < init.len() && (#[trigger] init[i]).1 == name) && !(bot matches Some(b)
                && text::lowered(b) == text::lowered(name)));
            if now.contains(name) {
                let k = choose|k: int| 0 <= k < now.len() && now[k] == name;
                if k < before.len() {
                    assert(before[k] == name);
                    let i = choose|i: int| 0 <= i < init.len() && (#[trigger] init[i]).1 == name;
                    assert(online[i].1 == name);
                } else {
                    assert(online[online.len() - 1].1 == name);
                }
            }
            if exists|i: int| 0 <= i < online.len() && (#[trigger] online[i]).1 == name {
                let i = choose|i: int| 0 <= i < online.len() && (#[trigger] online[i]).1 == name;
                if i < init.len() {
                    assert(init[i].1 == name);
                    if before.contains(name) {
                        let k = choose|k: int| 0 <= k < before.len() && before[k] == name;
                        assert(now[k] == name);
                    }
                } else if now.len() > before.len() {
                    assert(now[before.len() as int] == name);
                }
            }
        }
    }
}

/// Each entry of an update is taken in turn, and so is each removal; what it tells comes
/// in that order.
pub proof fn lemma_packets_are_taken_in_turn(
    p: PresenceText,
    c: ContextText,
    update_listed: bool,
    add_player: bool,
    entries: Seq<TabEntry>,
    entry: TabEntry,
)
    ensures
        ({
            let (before, events) = entries_step(p, c, update_listed, add_player, entries);
            let (after, all) = entries_step(p, c, update_listed, add_player, entries.push(entry));
            let (next, event) = entry_step(before, c, update_listed, add_player, entry);
            &&& after == next
            &&& event matches Some(e) ==> all == events.push(e)
            &&& event is None ==> all == events
        }),
        packet_step(p, c, TabPacket::Other) == (p, Seq::<TabEventText>::empty()),
{
    assert(entries.push(entry).drop_last() =~= entries);
}

/// A list that is cleared has nobody on it and nobody hidden, and has to settle again.
pub proof fn lemma_cleared_lists(p: PresenceText)
    ensures
        cleared(p).online.len() == 0,
        cleared(p).hidden == Set::<u128>::empty(),
        !cleared(p).settled,
        cleared(p).quiet == 0,
        cleared(p).ticks == p.ticks,
{
}

/// The list is read as it stands.
pub proof fn lemma_lists_are_read(p: Presence, i: int)
    requires
        0 <= i < p.online@.len(),
    ensures
        p@.online.len() == p.online@.len(),
        p@.online[i].0 == p.online@[i].0,
        p@.online[i].1 == p.online@[i].1@,
        p@.settled == p.settled,
        forall|uuid: u128| p@.hidden.contains(uuid) <==> #[trigger] p.hidden@.contains(uuid),
{
}

/// An event of the list is read field by field.
pub proof fn lemma_events_are_read_by_field(e: TabEvent, c: PresenceContext)
    ensures
        e@.event_type == e.event_type@ && e@.name == e.name@ && e@.uuid == e.uuid,
        c@.suppressed == c.suppressed && c@.tablist_joins == c.tablist_joins,
        c@.login_at_ms == c.login_at_ms && c@.now_ms == c.now_ms,
        c.bot_username is Some ==> c@.bot == Some(c.bot_username->0@),
        c.bot_username is None ==> c@.bot is None,
{
}

/// A join of the list is one where joins are read from it, long enough after the login and
/// not of this account; a leave is one where they are read from it and not of this account.
/// Any other is only a sight.
pub proof fn lemma_types_of_list_events(c: ContextText, name: Seq<char>)
    ensures
        c.tablist_joins && !own(c.bot, name) && c.login_at_ms != 0 && c.now_ms - c.login_at_ms >= 60_000
            ==> join_type(c, name) == "j"@,
        !c.tablist_joins || own(c.bot, name) || c.login_at_ms == 0 || c.now_ms - c.login_at_ms < 60_000
            ==> join_type(c, name) == "s"@,
        c.tablist_joins && !own(c.bot, name) ==> leave_type(c, name) == "l"@,
        !c.tablist_joins || own(c.bot, name) ==> leave_type(c, name) == "p"@,
        own(Some(name), name),
        !own(None, name),
{
}

} // verus!
