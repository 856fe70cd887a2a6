//! Keeping the table of players current.
//!
//! A player who was only ever mentioned in chat gets a UUID made from the name.
//! It is corrected as soon as the server gives a real one, and never written
//! over after that.
use vstd::prelude::*;
use vstd::string::*;

use crate::batch;
use crate::batch::Flusher;
use crate::rows::Write;
use crate::text;

verus! {

/// A player whom a batch mentions.
#[derive(Debug)]
pub struct Sighting {
    /// The name in lower case.
    pub key: String,
    pub name: String,
    /// The UUID, where the server gave one.
    pub uuid: Option<u128>,
}

/// The contents of a [`Sighting`].
#[verifier::ext_equal]
pub struct SightingText {
    pub key: Seq<char>,
    pub name: Seq<char>,
    pub uuid: Option<u128>,
}

impl View for Sighting {
    type V = SightingText;

    open spec fn view(&self) -> SightingText {
        SightingText { key: self.key@, name: self.name@, uuid: self.uuid }
    }
}

pub open spec fn sighting_texts(v: Seq<Sighting>) -> Seq<SightingText> {
    Seq::new(v.len(), |i: int| v[i]@)
}

/// The first position of a key.
pub open spec fn sighted_at(seen: Seq<SightingText>, key: Seq<char>) -> Option<int>
    decreases seen.len(),
{
    if seen.len() == 0 {
        None
    } else if sighted_at(seen.drop_last(), key) is Some {
        sighted_at(seen.drop_last(), key)
    } else if seen.last().key == key {
        Some(seen.len() - 1)
    } else {
        None
    }
}

proof fn lemma_sighted_at(seen: Seq<SightingText>, key: Seq<char>)
    ensures
        match sighted_at(seen, key) {
            Some(i) => 0 <= i < seen.len() && seen[i].key == key && forall|j: int|
                0 <= j < i ==> #[trigger] seen[j].key != key,
            None => forall|j: int| 0 <= j < seen.len() ==> #[trigger] seen[j].key != key,
        },
    decreases seen.len(),
{
    if seen.len() > 0 {
        let init = seen.drop_last();
        lemma_sighted_at(init, key);
        match sighted_at(init, key) {
            Some(i) => {
                assert(init[i] == seen[i]);
                assert forall|j: int| 0 <= j < i implies #[trigger] seen[j].key != key by {
                    assert(init[j] == seen[j]);
                }
            },
            None => {
                assert forall|j: int| 0 <= j < init.len() implies #[trigger] seen[j].key != key by {
                    assert(init[j] == seen[j]);
                }
            },
        }
    }
}

/// The list with one more mention. The first mention gives the name; a UUID that
/// comes with a later one is taken.
pub open spec fn sighted(
    seen: Seq<SightingText>,
    name: Option<Seq<char>>,
    uuid: Option<u128>,
) -> Seq<SightingText> {
    match name {
        Some(raw) => match batch::mc_name(raw) {
            Some(n) => {
                let key = text::unicode_lower(n);
                match sighted_at(seen, key) {
                    Some(i) => if uuid is Some {
                        seen.update(i, SightingText { uuid, ..seen[i] })
                    } else {
                        seen
                    },
                    None => seen.push(SightingText { key, name: n, uuid }),
                }
            },
            None => seen,
        },
        None => seen,
    }
}

/// The mentions in a row.
pub open spec fn mentions(w: Write) -> Seq<(Option<Seq<char>>, Option<u128>)> {
    match w {
        Write::Chat(row) => seq![
            (text::opt_text(row.sender_name), row.sender_uuid),
            (text::opt_text(row.subject_name), None),
            (text::opt_text(row.killer_name), None),
        ],
        Write::Event(row) => seq![(Some(row.player_name@), row.player_uuid)],
        Write::ReconcileOnline { players, .. } => Seq::new(
            players.len() as nat,
            |i: int| (Some(players[i]@), None),
        ),
        Write::ServerRestart { .. } => Seq::empty(),
    }
}

pub open spec fn sighted_all(
    seen: Seq<SightingText>,
    names: Seq<(Option<Seq<char>>, Option<u128>)>,
) -> Seq<SightingText>
    decreases names.len(),
{
    if names.len() == 0 {
        seen
    } else {
        sighted(sighted_all(seen, names.drop_last()), names.last().0, names.last().1)
    }
}

/// Everyone whom a batch mentions, each once.
pub open spec fn seen_in(batch: Seq<Write>) -> Seq<SightingText>
    decreases batch.len(),
{
    if batch.len() == 0 {
        Seq::empty()
    } else {
        sighted_all(seen_in(batch.drop_last()), mentions(batch.last()))
    }
}

fn sight(seen: &mut Vec<Sighting>, name: &str, uuid: Option<u128>)
    ensures
        sighting_texts(final(seen)@) == sighted(sighting_texts(old(seen)@), Some(name@), uuid),
{
    let ghost before = sighting_texts(seen@);
    if let Some(n) = batch::normalize_mc_name(name) {
        let key = text::to_lowercase(&n);
        let len: usize = seen.len();
        proof {
            lemma_sighted_at(before, key@);
        }
        for i in 0..len
            invariant
                len == seen.len(),
                before == sighting_texts(seen@),
                before == sighting_texts(old(seen)@),
                batch::mc_name(name@) == Some(n@),
                key@ == text::unicode_lower(n@),
                forall|j: int| 0 <= j < i ==> #[trigger] before[j].key != key@,
        {
            assert(before[i as int] == seen[i as int]@);
            if seen[i].key == key {
                proof {
                    lemma_sighted_at(before, key@);
                    assert(before[i as int].key == key@);
                    let at = sighted_at(before, key@)->0;
                    assert(before[at].key == key@);
                    assert(at == i);
                }
                if uuid.is_some() {
                    let old_entry = seen.remove(i);
                    let entry = Sighting { key: old_entry.key, name: old_entry.name, uuid };
                    seen.insert(i, entry);
                    assert(sighting_texts(seen@) =~= before.update(i as int, entry@));
                }
                return;
            }
        }
        let ghost list = seen@;
        let entry = Sighting { key, name: n, uuid };
        seen.push(entry);
        assert(sighting_texts(seen@) =~= sighting_texts(list).push(entry@));
    }
}

/// Everyone whom a batch mentions, each once.
pub fn sightings(batch: &Vec<Write>) -> (seen: Vec<Sighting>)
    ensures
        sighting_texts(seen@) == seen_in(batch@),
{
    let mut seen: Vec<Sighting> = Vec::new();
    assert(sighting_texts(seen@) =~= seen_in(batch@.take(0)));
    for i in 0..batch.len()
        invariant
            sighting_texts(seen@) == seen_in(batch@.take(i as int)),
    {
        let ghost start = sighting_texts(seen@);
        assert(batch@.take(i + 1).drop_last() =~= batch@.take(i as int));
        match &batch[i] {
            Write::Chat(row) => {
                proof {
                    let all = mentions(batch[i as int]);
                    reveal_with_fuel(sighted_all, 4);
                    assert(all.drop_last() =~= seq![all[0], all[1]]);
                    assert(all.drop_last().drop_last() =~= seq![all[0]]);
                    assert(all.drop_last().drop_last().drop_last().len() == 0);
                }
                if let Some(name) = &row.sender_name {
                    sight(&mut seen, name, row.sender_uuid);
                }
                if let Some(name) = &row.subject_name {
                    sight(&mut seen, name, None);
                }
                if let Some(name) = &row.killer_name {
                    sight(&mut seen, name, None);
                }
            },
            Write::Event(row) => {
                proof {
                    let all = mentions(batch[i as int]);
                    reveal_with_fuel(sighted_all, 2);
                    assert(all.drop_last().len() == 0);
                }
                sight(&mut seen, &row.player_name, row.player_uuid);
            },
            Write::ReconcileOnline { players, .. } => {
                let ghost all = mentions(batch[i as int]);
                for k in 0..players.len()
                    invariant
                        all == Seq::new(
                            players.len() as nat,
                            |j: int| (Some(players[j]@), None::<u128>),
                        ),
                        sighting_texts(seen@) == sighted_all(start, all.take(k as int)),
                {
                    proof {
                        assert(all.take(k + 1).drop_last() =~= all.take(k as int));
                        assert(all.take(k + 1).last() == (Some(players[k as int]@), None::<u128>));
                    }
                    sight(&mut seen, &players[k], None);
                }
                assert(all.take(players.len() as int) =~= all);
            },
            Write::ServerRestart { .. } => {},
        }
    }
    assert(batch@.take(batch.len() as int) =~= batch@);
    seen
}

/// A player to write to the table of players.
#[derive(Debug)]
pub struct Fresh {
    pub key: String,
    pub name: String,
    pub uuid: u128,
    /// Whether the server gave the UUID.
    pub is_real: bool,
}

/// The contents of a [`Fresh`].
#[verifier::ext_equal]
pub struct FreshText {
    pub key: Seq<char>,
    pub name: Seq<char>,
    pub uuid: u128,
    pub is_real: bool,
}

impl View for Fresh {
    type V = FreshText;

    open spec fn view(&self) -> FreshText {
        FreshText { key: self.key@, name: self.name@, uuid: self.uuid, is_real: self.is_real }
    }
}

pub open spec fn fresh_texts(v: Seq<Fresh>) -> Seq<FreshText> {
    Seq::new(v.len(), |i: int| v[i]@)
}

/// Whether a player is written: one who is not on file, and one who is on file
/// under a made UUID and now has a real one.
pub open spec fn is_fresh(known: Map<Seq<char>, bool>, s: SightingText) -> bool {
    !known.contains_key(s.key) || (!known[s.key] && s.uuid is Some)
}

/// How a player is written.
pub open spec fn fresh_of(s: SightingText) -> FreshText {
    FreshText {
        key: s.key,
        name: s.name,
        uuid: match s.uuid {
            Some(id) => id,
            None => batch::name_based(s.name),
        },
        is_real: s.uuid is Some,
    }
}

/// The players of a batch who are written, in order.
pub open spec fn fresh_in(known: Map<Seq<char>, bool>, seen: Seq<SightingText>) -> Seq<FreshText>
    decreases seen.len(),
{
    if seen.len() == 0 {
        Seq::empty()
    } else if is_fresh(known, seen.last()) {
        fresh_in(known, seen.drop_last()).push(fresh_of(seen.last()))
    } else {
        fresh_in(known, seen.drop_last())
    }
}

/// What is on file after players were written.
pub open spec fn filed(known: Map<Seq<char>, bool>, fresh: Seq<FreshText>) -> Map<Seq<char>, bool>
    decreases fresh.len(),
{
    if fresh.len() == 0 {
        known
    } else {
        filed(known, fresh.drop_last()).insert(fresh.last().key, fresh.last().is_real)
    }
}

/// A rank that a speaker showed.
#[derive(Debug)]
pub struct RankChange {
    pub key: String,
    pub name: String,
    pub rank: String,
}

/// The contents of a [`RankChange`].
#[verifier::ext_equal]
pub struct RankText {
    pub key: Seq<char>,
    pub name: Seq<char>,
    pub rank: Seq<char>,
}

impl View for RankChange {
    type V = RankText;

    open spec fn view(&self) -> RankText {
        RankText { key: self.key@, name: self.name@, rank: self.rank@ }
    }
}

pub open spec fn rank_texts(v: Seq<RankChange>) -> Seq<RankText> {
    Seq::new(v.len(), |i: int| v[i]@)
}

/// The ranks on file, as texts.
pub open spec fn ranks_on_file(ranks: Map<Seq<char>, String>) -> Map<Seq<char>, Seq<char>> {
    ranks.map_values(|s: String| s@)
}

/// The first position of a key.
pub open spec fn ranked_at(v: Seq<RankText>, key: Seq<char>) -> Option<int>
    decreases v.len(),
{
    if v.len() == 0 {
        None
    } else if ranked_at(v.drop_last(), key) is Some {
        ranked_at(v.drop_last(), key)
    } else if v.last().key == key {
        Some(v.len() - 1)
    } else {
        None
    }
}

/// The changes with one more: a later rank of a player takes the place of an
/// earlier one.
pub open spec fn ranked(v: Seq<RankText>, change: RankText) -> Seq<RankText> {
    match ranked_at(v, change.key) {
        Some(i) => v.update(i, change),
        None => v.push(change),
    }
}

/// The rank that a row shows.
pub open spec fn shown_rank(w: Write) -> Option<RankText> {
    match w {
        Write::Chat(row) => match (row.sender_name, row.sender_label) {
            (Some(sender), Some(label)) => match batch::mc_name(sender@) {
                Some(name) => match batch::rank_text(label@, name) {
                    Some(rank) => Some(RankText { key: text::unicode_lower(name), name, rank }),
                    None => None,
                },
                None => None,
            },
            _ => None,
        },
        _ => None,
    }
}

/// The ranks that a batch changes.
pub open spec fn rank_changes(
    on_file: Map<Seq<char>, Seq<char>>,
    batch: Seq<Write>,
) -> Seq<RankText>
    decreases batch.len(),
{
    if batch.len() == 0 {
        Seq::empty()
    } else {
        let before = rank_changes(on_file, batch.drop_last());
        match shown_rank(batch.last()) {
            Some(change) => if on_file.contains_key(change.key) && on_file[change.key]
                == change.rank {
                before
            } else {
                ranked(before, change)
            },
            None => before,
        }
    }
}

proof fn lemma_ranked_at(v: Seq<RankText>, key: Seq<char>)
    ensures
        match ranked_at(v, key) {
            Some(i) => 0 <= i < v.len() && v[i].key == key && forall|j: int|
                0 <= j < i ==> #[trigger] v[j].key != key,
            None => forall|j: int| 0 <= j < v.len() ==> #[trigger] v[j].key != key,
        },
    decreases v.len(),
{
    if v.len() > 0 {
        let init = v.drop_last();
        lemma_ranked_at(init, key);
        match ranked_at(init, key) {
            Some(i) => {
                assert(init[i] == v[i]);
                assert forall|j: int| 0 <= j < i implies #[trigger] v[j].key != key by {
                    assert(init[j] == v[j]);
                }
            },
            None => {
                assert forall|j: int| 0 <= j < init.len() implies #[trigger] v[j].key != key by {
                    assert(init[j] == v[j]);
                }
            },
        }
    }
}

fn note_rank(v: &mut Vec<RankChange>, change: RankChange)
    ensures
        rank_texts(final(v)@) == ranked(rank_texts(old(v)@), change@),
{
    let ghost before = rank_texts(v@);
    let len: usize = v.len();
    proof {
        lemma_ranked_at(before, change.key@);
    }
    for i in 0..len
        invariant
            len == v.len(),
            before == rank_texts(v@),
            before == rank_texts(old(v)@),
            forall|j: int| 0 <= j < i ==> #[trigger] before[j].key != change.key@,
    {
        assert(before[i as int] == v[i as int]@);
        if v[i].key == change.key {
            proof {
                lemma_ranked_at(before, change.key@);
                assert(before[i as int].key == change.key@);
                assert(before[ranked_at(before, change.key@)->0].key == change.key@);
            }
            let _ = v.remove(i);
            v.insert(i, change);
            assert(rank_texts(v@) =~= before.update(i as int, change@));
            return;
        }
    }
    let ghost list = v@;
    v.push(change);
    assert(rank_texts(v@) =~= rank_texts(list).push(change@));
}

fn rank_shown(w: &Write) -> (r: Option<RankChange>)
    ensures
        match r {
            Some(c) => shown_rank(*w) == Some(c@),
            None => shown_rank(*w) is None,
        },
{
    match w {
        Write::Chat(row) => match (&row.sender_name, &row.sender_label) {
            (Some(sender), Some(label)) => match batch::normalize_mc_name(sender) {
                Some(name) => match batch::rank_prefix(label, &name) {
                    Some(rank) => {
                        let key = text::to_lowercase(&name);
                        Some(RankChange { key, name, rank })
                    },
                    None => None,
                },
                None => None,
            },
            _ => None,
        },
        _ => None,
    }
}

impl Flusher {
    /// The players of a batch who are written to the table.
    pub fn touch_players(&self, seen: &Vec<Sighting>) -> (r: Vec<Fresh>)
        requires
            self.wf(),
        ensures
            fresh_texts(r@) == fresh_in(self.known_players@, sighting_texts(seen@)),
    {
        let ghost all = sighting_texts(seen@);
        let mut r: Vec<Fresh> = Vec::new();
        assert(fresh_texts(r@) =~= fresh_in(self.known_players@, all.take(0)));
        for i in 0..seen.len()
            invariant
                self.wf(),
                all == sighting_texts(seen@),
                fresh_texts(r@) == fresh_in(self.known_players@, all.take(i as int)),
        {
            let s = &seen[i];
            assert(all.take(i + 1).drop_last() =~= all.take(i as int));
            assert(all.take(i + 1).last() == s@);
            let wanted = match self.known_players.get(&s.key) {
                None => true,
                Some(given) => !*given && s.uuid.is_some(),
            };
            if wanted {
                let ghost before = r@;
                let uuid: u128 = match s.uuid {
                    Some(id) => id,
                    None => batch::name_based_player_uuid(&s.name),
                };
                let fresh = Fresh {
                    key: s.key.clone(),
                    name: s.name.clone(),
                    uuid,
                    is_real: s.uuid.is_some(),
                };
                r.push(fresh);
                assert(fresh_texts(r@) =~= fresh_texts(before).push(fresh@));
            }
        }
        assert(all.take(seen.len() as int) =~= all);
        r
    }

    /// Puts on file that the players were written.
    pub fn file_players(&mut self, fresh: &Vec<Fresh>)
        requires
            old(self).wf(),
        ensures
            final(self).wf(),
            final(self).known_players@ == filed(old(self).known_players@, fresh_texts(fresh@)),
            final(self).names == old(self).names,
            final(self).ranks == old(self).ranks,
            final(self).rollup_day == old(self).rollup_day,
    {
        let ghost all = fresh_texts(fresh@);
        let ghost start = self.known_players@;
        for i in 0..fresh.len()
            invariant
                self.wf(),
                all == fresh_texts(fresh@),
                self.known_players@ == filed(start, all.take(i as int)),
                self.names == old(self).names,
                self.ranks == old(self).ranks,
                self.rollup_day == old(self).rollup_day,
        {
            assert(all.take(i + 1).drop_last() =~= all.take(i as int));
            assert(all.take(i + 1).last() == fresh[i as int]@);
            self.known_players.insert(fresh[i].key.clone(), fresh[i].is_real);
        }
        assert(all.take(fresh.len() as int) =~= all);
    }

    /// The ranks that a batch changes.
    pub fn write_ranks(&self, batch: &Vec<Write>) -> (r: Vec<RankChange>)
        requires
            self.wf(),
        ensures
            rank_texts(r@) == rank_changes(ranks_on_file(self.ranks@), batch@),
    {
        let ghost on_file = ranks_on_file(self.ranks@);
        let mut r: Vec<RankChange> = Vec::new();
        assert(rank_texts(r@) =~= rank_changes(on_file, batch@.take(0)));
        for i in 0..batch.len()
            invariant
                self.wf(),
                on_file == ranks_on_file(self.ranks@),
                rank_texts(r@) == rank_changes(on_file, batch@.take(i as int)),
        {
            assert(batch@.take(i + 1).drop_last() =~= batch@.take(i as int));
            if let Some(change) = rank_shown(&batch[i]) {
                let unchanged = match self.ranks.get(&change.key) {
                    Some(rank) => *rank == change.rank,
                    None => false,
                };
                if !unchanged {
                    note_rank(&mut r, change);
                }
            }
        }
        assert(batch@.take(batch.len() as int) =~= batch@);
        r
    }

    /// Puts on file that a rank was written.
    pub fn file_rank(&mut self, change: &RankChange)
        requires
            old(self).wf(),
        ensures
            final(self).wf(),
            ranks_on_file(final(self).ranks@) == ranks_on_file(old(self).ranks@).insert(
                change.key@,
                change.rank@,
            ),
            final(self).names == old(self).names,
            final(self).known_players == old(self).known_players,
            final(self).rollup_day == old(self).rollup_day,
    {
        let ghost before = self.ranks@;
        let rank = change.rank.clone();
        self.ranks.insert(change.key.clone(), rank);
        assert(ranks_on_file(self.ranks@) =~= ranks_on_file(before).insert(
            change.key@,
            change.rank@,
        ));
    }
}

/// A player under a real UUID is never written again, and a made UUID gives way
/// to a real one as soon as there is one.
pub proof fn lemma_real_uuids_win(known: Map<Seq<char>, bool>, s: SightingText)
    ensures
        known.contains_key(s.key) && known[s.key] ==> !is_fresh(known, s),
        known.contains_key(s.key) && !known[s.key] && s.uuid is Some ==> is_fresh(known, s)
            && fresh_of(s).uuid == s.uuid->0 && fresh_of(s).is_real,
        known.contains_key(s.key) && s.uuid is None ==> !is_fresh(known, s),
{
}

/// Writing the players of a batch leaves nobody of it fresh: a second batch like
/// the first writes no player.
pub proof fn lemma_written_once(known: Map<Seq<char>, bool>, seen: Seq<SightingText>, i: int)
    requires
        0 <= i < seen.len(),
        forall|a: int, b: int|
            0 <= a < b < seen.len() ==> #[trigger] seen[a].key != #[trigger] seen[b].key,
    ensures
        !is_fresh(filed(known, fresh_in(known, seen)), seen[i]),
    decreases seen.len(),
{
    let init = seen.drop_last();
    lemma_filed_elsewhere(known, init, seen.last().key);
    if i < init.len() {
        assert forall|a: int, b: int|
            0 <= a < b < init.len() implies #[trigger] init[a].key != #[trigger] init[b].key by {
            assert(seen[a].key != seen[b].key);
        }
        lemma_written_once(known, init, i);
        assert(seen[i].key != seen[seen.len() - 1].key);
        if is_fresh(known, seen.last()) {
            let f = fresh_in(known, init).push(fresh_of(seen.last()));
            assert(f.drop_last() =~= fresh_in(known, init));
        }
    } else {
        assert(seen[i] == seen.last());
        assert forall|a: int| 0 <= a < init.len() implies #[trigger] init[a].key
            != seen.last().key by {
            assert(seen[a].key != seen[seen.len() - 1].key);
        }
        if is_fresh(known, seen.last()) {
            let f = fresh_in(known, init).push(fresh_of(seen.last()));
            assert(f.drop_last() =~= fresh_in(known, init));
        }
    }
}

proof fn lemma_filed_elsewhere(
    known: Map<Seq<char>, bool>,
    seen: Seq<SightingText>,
    key: Seq<char>,
)
    ensures
        (forall|a: int| 0 <= a < seen.len() ==> #[trigger] seen[a].key != key) ==> {
            let now = filed(known, fresh_in(known, seen));
            now.contains_key(key) == known.contains_key(key) && (known.contains_key(key)
                ==> now[key] == known[key])
        },
    decreases seen.len(),
{
    if seen.len() > 0 && (forall|a: int|
        0 <= a < seen.len() ==> #[trigger] seen[a].key != key) {
        let init = seen.drop_last();
        assert forall|a: int| 0 <= a < init.len() implies #[trigger] init[a].key != key by {
            assert(seen[a].key != key);
        }
        lemma_filed_elsewhere(known, init, key);
        assert(seen[seen.len() - 1].key != key);
        if is_fresh(known, seen.last()) {
            let f = fresh_in(known, init).push(fresh_of(seen.last()));
            assert(f.drop_last() =~= fresh_in(known, init));
        }
    }
}

/// Whether nobody stands twice in the list.
pub open spec fn each_once(seen: Seq<SightingText>) -> bool {
    forall|a: int, b: int|
        0 <= a < b < seen.len() ==> #[trigger] seen[a].key != #[trigger] seen[b].key
}

/// A mention keeps everyone in the list once.
pub proof fn lemma_sighted_once(seen: Seq<SightingText>, name: Option<Seq<char>>, uuid: Option<u128>)
    requires
        each_once(seen),
    ensures
        each_once(sighted(seen, name, uuid)),
{
    if let Some(raw) = name {
        if let Some(n) = batch::mc_name(raw) {
            lemma_sighted_at(seen, text::unicode_lower(n));
        }
    }
}

proof fn lemma_all_sighted_once(
    seen: Seq<SightingText>,
    names: Seq<(Option<Seq<char>>, Option<u128>)>,
)
    requires
        each_once(seen),
    ensures
        each_once(sighted_all(seen, names)),
    decreases names.len(),
{
    if names.len() > 0 {
        lemma_all_sighted_once(seen, names.drop_last());
        lemma_sighted_once(
            sighted_all(seen, names.drop_last()),
            names.last().0,
            names.last().1,
        );
    }
}

/// Nobody stands twice among the sightings of a batch.
pub proof fn lemma_seen_once(batch: Seq<Write>)
    ensures
        each_once(seen_in(batch)),
    decreases batch.len(),
{
    if batch.len() > 0 {
        lemma_seen_once(batch.drop_last());
        lemma_all_sighted_once(seen_in(batch.drop_last()), mentions(batch.last()));
    }
}

// ---------------------------------------------------------------------------
// Who is filed
// ---------------------------------------------------------------------------

/// A chat line shows its sender, with the id that came with it, who it is about and the
/// killer; an event shows its player, and a settled list everyone on it.
pub proof fn lemma_rows_show_their_players(
    row: crate::rows::ChatRow,
    event: crate::rows::PlayerEventRow,
    session_id: i64,
    at: i64,
)
    ensures
        row.sender_name is Some ==> mentions(Write::Chat(row)).contains(
            (Some(row.sender_name->0@), row.sender_uuid),
        ),
        row.subject_name is Some ==> mentions(Write::Chat(row)).contains(
            (Some(row.subject_name->0@), None),
        ),
        row.killer_name is Some ==> mentions(Write::Chat(row)).contains(
            (Some(row.killer_name->0@), None),
        ),
        mentions(Write::Event(event)) == seq![(Some(event.player_name@), event.player_uuid)],
        mentions(Write::ServerRestart { session_id, at }).len() == 0,
{
    let m = mentions(Write::Chat(row));
    assert(m[0] == (text::opt_text(row.sender_name), row.sender_uuid));
    assert(m[1] == (text::opt_text(row.subject_name), None::<u128>));
    assert(m[2] == (text::opt_text(row.killer_name), None::<u128>));
}

/// Whoever is sighted is among the sighted from there on, under the id that was seen
/// last, and nobody else changes.
pub proof fn lemma_sighted_players_are_kept(
    seen: Seq<SightingText>,
    raw: Seq<char>,
    uuid: Option<u128>,
    n: Seq<char>,
)
    requires
        batch::mc_name(raw) == Some(n),
    ensures
        ({
            let after = sighted(seen, Some(raw), uuid);
            let key = text::unicode_lower(n);
            &&& exists|i: int|
                0 <= i < after.len() && #[trigger] after[i].key == key && (uuid is Some
                    ==> after[i].uuid == uuid)
            &&& forall|i: int|
                0 <= i < seen.len() ==> i < after.len() && (#[trigger] seen[i].key != key ==> after[i]
                    == seen[i]) && after[i].key == seen[i].key && after[i].name == seen[i].name
            &&& forall|i: int|
                0 <= i < seen.len() && uuid is None ==> i < after.len() && #[trigger] after[i] == seen[i]
            &&& after.len() <= seen.len() + 1
            &&& after.len() == seen.len() + 1 ==> after.last() == (SightingText { key, name: n, uuid })
        }),
        sighted(seen, None, uuid) == seen,
{
    let key = text::unicode_lower(n);
    lemma_sighted_at(seen, key);
    let after = sighted(seen, Some(raw), uuid);
    match sighted_at(seen, key) {
        Some(i) => {
            assert(after[i].key == key);
        },
        None => {
            assert(after[after.len() - 1].key == key);
        },
    }
}

/// A player who is written has the id that was seen with the name, or else the one that
/// the name gives, and is marked by which it is; the players come in their order.
pub proof fn lemma_players_are_written(
    known: Map<Seq<char>, bool>,
    seen: Seq<SightingText>,
    s: SightingText,
)
    ensures
        !known.contains_key(s.key) ==> fresh_in(known, seen.push(s)) == fresh_in(known, seen).push(
            FreshText {
                key: s.key,
                name: s.name,
                uuid: match s.uuid {
                    Some(id) => id,
                    None => batch::name_based(s.name),
                },
                is_real: s.uuid is Some,
            },
        ),
        known.contains_key(s.key) && known[s.key] ==> fresh_in(known, seen.push(s)) == fresh_in(
            known,
            seen,
        ),
        known.contains_key(s.key) && !known[s.key] && s.uuid is None ==> fresh_in(known, seen.push(s))
            == fresh_in(known, seen),
        fresh_in(known, Seq::empty()).len() == 0,
{
    assert(seen.push(s).drop_last() =~= seen);
}

/// A rank that a line shows is written unless it is on file already; of several for one
/// player the last counts, and a player has one.
pub proof fn lemma_ranks_are_written(
    on_file: Map<Seq<char>, Seq<char>>,
    batch: Seq<Write>,
    w: Write,
    change: RankText,
)
    requires
        shown_rank(w) == Some(change),
    ensures
        on_file.contains_key(change.key) && on_file[change.key] == change.rank ==> rank_changes(
            on_file,
            batch.push(w),
        ) == rank_changes(on_file, batch),
        !on_file.contains_key(change.key) || on_file[change.key] != change.rank ==> rank_changes(
            on_file,
            batch.push(w),
        ).contains(change),
{
    assert(batch.push(w).drop_last() =~= batch);
    let before = rank_changes(on_file, batch);
    lemma_ranked_place(before, change.key);
    let after = ranked(before, change);
    match ranked_at(before, change.key) {
        Some(i) => {
            assert(after[i] == change);
        },
        None => {
            assert(after[after.len() - 1] == change);
        },
    }
}

proof fn lemma_ranked_place(v: Seq<RankText>, key: Seq<char>)
    ensures
        ranked_at(v, key) matches Some(i) ==> 0 <= i < v.len() && v[i].key == key,
    decreases v.len(),
{
    if v.len() > 0 {
        lemma_ranked_place(v.drop_last(), key);
    }
}

/// A rank is what a chat line shows before the name of its sender.
pub proof fn lemma_ranks_are_of_senders(row: crate::rows::ChatRow, event: crate::rows::PlayerEventRow)
    ensures
        shown_rank(Write::Event(event)) is None,
        row.sender_name is None || row.sender_label is None ==> shown_rank(Write::Chat(row)) is None,
        row.sender_name is Some && row.sender_label is Some ==> (batch::mc_name(row.sender_name->0@)
            matches Some(name) ==> (batch::rank_text(row.sender_label->0@, name) matches Some(rank)
            ==> shown_rank(Write::Chat(row)) == Some(
            RankText { key: text::unicode_lower(name), name, rank },
        ))),
{
}

/// A sighting, a player and a rank are read field by field.
pub proof fn lemma_players_are_read_by_field(s: Sighting, f: Fresh, r: RankChange)
    ensures
        s@.key == s.key@ && s@.name == s.name@ && s@.uuid == s.uuid,
        f@.key == f.key@ && f@.name == f.name@ && f@.uuid == f.uuid && f@.is_real == f.is_real,
        r@.key == r.key@ && r@.name == r.name@ && r@.rank == r.rank@,
{
}

} // verus!
