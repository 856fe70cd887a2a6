//! Finding deaths that no template covers yet.
//!
//! A wrong template costs far more than a missing one: it writes bad names into
//! statistics, and those stick. So a line becomes a template by itself only where
//! it cannot plausibly be a kill.
use vstd::prelude::*;
use vstd::string::*;

use crate::classify;
use crate::classify::{Classifier, Kind};
use crate::deaths;
use crate::json;
use crate::json::JsonText;
use crate::pattern;
use crate::pattern::Pattern;
use crate::text;

verus! {

/// The group that new templates go to.
pub const DISCOVERED_GROUP: &'static str = "discovered";

/// How many seconds pass between two passes.
pub const WATCH_INTERVAL_SECS: u64 = 600;

/// How many players of a line get a slot of their own.
pub const MAX_NAMED: usize = 4;

/// `by a zombie pigman`, up to the end of the clause.
pub const MOB: &'static str = r"\bby (an? [a-z ]+?)(\.| and | while | wielding |$)";

/// `wielding` something, up to the end of the clause.
pub const WEAPON: &'static str = r"\bwielding\s+(.+?)( and | while |\.$|$)";

/// Whether a line in lower case names a player without being a death.
pub open spec fn no_death(lower: Seq<char>) -> bool {
    ||| text::has_text(lower, "joined"@)
    ||| text::has_text(lower, "left the"@)
    ||| text::has_text(lower, "left."@)
    ||| text::has_text(lower, "welcome"@)
    ||| text::has_text(lower, "discord"@)
    ||| text::has_text(lower, "vote"@)
    ||| text::has_text(lower, "shop"@)
    ||| text::has_text(lower, "buy"@)
    ||| text::has_text(lower, "rank"@)
    ||| text::has_text(lower, "donate"@)
    ||| text::has_text(lower, "queue"@)
    ||| text::has_text(lower, "connecting"@)
    ||| text::has_text(lower, "connected"@)
    ||| text::has_text(lower, "website"@)
    ||| text::has_text(lower, "http"@)
    ||| text::has_text(lower, "www."@)
    ||| text::has_text(lower, "afk"@)
    ||| text::has_text(lower, "whitelist"@)
    ||| text::has_text(lower, "ban"@)
    ||| text::has_text(lower, "mute"@)
    ||| text::has_text(lower, "kick"@)
    ||| text::has_text(lower, "promoted"@)
    ||| text::has_text(lower, "restarting"@)
    ||| text::has_text(lower, "server is"@)
    ||| text::has_text(lower, "position in"@)
    ||| text::has_text(lower, "treasure"@)
    ||| text::has_text(lower, "voted"@)
    ||| text::has_text(lower, "punished"@)
    ||| text::has_text(lower, "reward"@)
    ||| text::has_text(lower, "/spin"@)
    ||| text::has_text(lower, "gifts"@)
    ||| text::has_text(lower, "has created"@)
    ||| text::has_text(lower, "/cf"@)
    ||| text::has_text(lower, "🎁"@)
    ||| text::has_text(lower, "airdrop"@)
    ||| text::has_text(lower, "✈"@)
    ||| text::has_text(lower, "⛃"@)
    ||| text::has_text(lower, "teleport"@)
    ||| text::has_text(lower, "ᴛᴇʟᴇᴘᴏʀᴛ"@)
    ||| text::has_text(lower, "tpa"@)
    ||| text::has_text(lower, "crates"@)
    ||| text::has_text(lower, "rampage"@)
}

fn is_no_death(lower: &str) -> (b: bool)
    ensures
        b == no_death(lower@),
{
    text::has(lower, "joined") || text::has(lower, "left the") || text::has(lower, "left.")
        || text::has(lower, "welcome") || text::has(lower, "discord") || text::has(lower, "vote")
        || text::has(lower, "shop") || text::has(lower, "buy") || text::has(lower, "rank")
        || text::has(lower, "donate") || text::has(lower, "queue") || text::has(
        lower,
        "connecting",
    ) || text::has(lower, "connected") || text::has(lower, "website") || text::has(lower, "http")
        || text::has(lower, "www.") || text::has(lower, "afk") || text::has(lower, "whitelist")
        || text::has(lower, "ban") || text::has(lower, "mute") || text::has(lower, "kick")
        || text::has(lower, "promoted") || text::has(lower, "restarting") || text::has(
        lower,
        "server is",
    ) || text::has(lower, "position in") || text::has(lower, "treasure") || text::has(
        lower,
        "voted",
    ) || text::has(lower, "punished") || text::has(lower, "reward") || text::has(lower, "/spin")
        || text::has(lower, "gifts") || text::has(lower, "has created") || text::has(lower, "/cf")
        || text::has(lower, "🎁") || text::has(lower, "airdrop") || text::has(lower, "✈")
        || text::has(lower, "⛃") || text::has(lower, "teleport") || text::has(
        lower,
        "ᴛᴇʟᴇᴘᴏʀᴛ",
    ) || text::has(lower, "tpa") || text::has(lower, "crates") || text::has(lower, "rampage")
}

/// Whether a character is a letter or a digit in any script, as
/// `char::is_alphanumeric` says.
pub uninterp spec fn unicode_alphanumeric(c: char) -> bool;

/// `char::is_alphanumeric`: a function of the character.
#[verifier::external_body]
fn alphanumeric(c: char) -> (b: bool)
    ensures
        b == unicode_alphanumeric(c),
{
    c.is_alphanumeric()
}

/// The pattern of a player's name as a whole name.
pub open spec fn name_source(name: Seq<char>) -> Seq<char> {
    r"\b"@ + pattern::escaped(name) + r"\b"@
}

/// Matches a player's name only as a whole name.
pub fn name_pattern(name: &str) -> (r: Option<Pattern>)
    ensures
        r is Some == pattern::regex_accepts(name_source(name@)),
        r matches Some(p) ==> p.source() == name_source(name@),
{
    Pattern::new(&text::cat3(r"\b", &pattern::escape(name), r"\b"))
}

/// Puts a name behind those that are as long as it or longer.
pub open spec fn by_length(sorted: Seq<Seq<char>>, name: Seq<char>) -> Seq<Seq<char>>
    decreases sorted.len(),
{
    if sorted.len() == 0 || text::byte_len(sorted.last()) >= text::byte_len(name) {
        sorted.push(name)
    } else {
        by_length(sorted.drop_last(), name).push(sorted.last())
    }
}

/// The names, the longest first; those of one length keep their order.
pub open spec fn longest_first(names: Seq<Seq<char>>) -> Seq<Seq<char>>
    decreases names.len(),
{
    if names.len() == 0 {
        Seq::empty()
    } else {
        by_length(longest_first(names.drop_last()), names.last())
    }
}

fn insert_by_length(sorted: &mut Vec<String>, name: String)
    ensures
        text::texts(final(sorted)@) == by_length(text::texts(old(sorted)@), name@),
{
    let ghost before = text::texts(sorted@);
    let n: usize = text::bytes_in(&name);
    let mut k: usize = sorted.len();
    let ghost goal = by_length(before, name@);
    proof {
        assert(before.take(k as int) =~= before);
        assert(before.skip(k as int) =~= Seq::<Seq<char>>::empty());
        assert(goal =~= by_length(before.take(k as int), name@) + before.skip(k as int));
    }
    while k > 0 && text::bytes_in(&sorted[k - 1]) < n
        invariant
            k <= sorted.len(),
            before == text::texts(sorted@),
            n == text::byte_len(name@),
            goal == by_length(before.take(k as int), name@) + before.skip(k as int),
        decreases k,
    {
        proof {
            let now = before.take(k as int);
            assert(now.drop_last() =~= before.take(k - 1));
            assert(now.last() == sorted[k - 1]@);
            assert(by_length(now, name@) == by_length(before.take(k - 1), name@).push(
                now.last(),
            ));
            assert(goal =~= by_length(before.take(k - 1), name@) + before.skip(k - 1));
        }
        k = k - 1;
    }
    proof {
        if k > 0 {
            assert(before.take(k as int).last() == sorted[k - 1]@);
        }
        assert(goal == before.take(k as int).push(name@) + before.skip(k as int));
    }
    sorted.insert(k, name);
    assert(text::texts(sorted@) =~= goal);
}

fn sort_by_length(names: &Vec<String>) -> (r: Vec<String>)
    ensures
        text::texts(r@) == longest_first(text::texts(names@)),
{
    let ghost all = text::texts(names@);
    let mut r: Vec<String> = Vec::new();
    assert(text::texts(r@) =~= longest_first(all.take(0)));
    for i in 0..names.len()
        invariant
            all == text::texts(names@),
            text::texts(r@) == longest_first(all.take(i as int)),
    {
        assert(all.take(i + 1).drop_last() =~= all.take(i as int));
        insert_by_length(&mut r, names[i].clone());
    }
    assert(all.take(all.len() as int) =~= all);
    r
}

/// Where a name stands in a line as a whole name.
pub open spec fn name_at(line: Seq<char>, name: Seq<char>) -> Option<int> {
    if pattern::regex_accepts(name_source(name)) {
        match pattern::found_in(name_source(name), line) {
            Some(found) => Some(found.before.len() as int),
            None => None,
        }
    } else {
        None
    }
}

pub fn find_name(line: &str, name: &str) -> (r: Option<usize>)
    ensures
        match r {
            Some(i) => name_at(line@, name@) == Some(i as int) && i <= line@.len(),
            None => name_at(line@, name@) is None,
        },
{
    match name_pattern(name) {
        Some(p) => match p.find(line) {
            Some(found) => {
                let before = text::chars_of(&found.before);
                Some(before.len())
            },
            None => None,
        },
        None => None,
    }
}

/// Where players stand in a line.
pub type Places = Seq<(int, Seq<char>)>;

pub open spec fn places(v: Seq<(usize, String)>) -> Places {
    Seq::new(v.len(), |i: int| (v[i].0 as int, v[i].1@))
}

pub open spec fn blanks(n: nat) -> Seq<char> {
    Seq::new(n, |i: int| ' ')
}

fn blank_string(n: usize) -> (r: String)
    ensures
        r@ == blanks(n as nat),
{
    let mut r = String::new();
    for i in 0..n
        invariant
            r@ == blanks(i as nat),
    {
        r.push(' ');
        assert(r@ =~= blanks((i + 1) as nat));
    }
    r
}

/// The line with a blank for each character of each of the names, wherever one
/// stands as a whole name. A name that stands only inside an earlier one is not
/// found in what is left.
pub open spec fn blanked(line: Seq<char>, names: Seq<Seq<char>>) -> Seq<char>
    decreases names.len(),
{
    if names.len() == 0 {
        line
    } else {
        let before = blanked(line, names.drop_last());
        if pattern::regex_accepts(name_source(names.last())) {
            pattern::regex_replace_all(
                name_source(names.last()),
                before,
                blanks(names.last().len()),
            )
        } else {
            before
        }
    }
}

/// Whether a line names the player at `i`: the name stands in it as a whole name,
/// outside every name before it in the list.
pub open spec fn names_player(line: Seq<char>, names: Seq<Seq<char>>, i: int) -> bool {
    name_at(blanked(line, names.take(i)), names[i]) is Some
}

/// The players that a line names, the longest names first. "Bob" inside "Bobby"
/// is no second player, and a "Bob" elsewhere in the line is one.
pub open spec fn named_in(line: Seq<char>, names: Seq<Seq<char>>) -> Places
    decreases names.len(),
{
    if names.len() == 0 {
        Seq::empty()
    } else {
        let found = named_in(line, names.drop_last());
        match name_at(blanked(line, names.drop_last()), names.last()) {
            Some(at) => found.push((at, names.last())),
            None => found,
        }
    }
}

/// Puts a place behind those that come no later in the line.
pub open spec fn by_place(sorted: Places, place: (int, Seq<char>)) -> Places
    decreases sorted.len(),
{
    if sorted.len() == 0 || sorted.last().0 <= place.0 {
        sorted.push(place)
    } else {
        by_place(sorted.drop_last(), place).push(sorted.last())
    }
}

/// The places in the order of the line.
pub open spec fn in_order(found: Places) -> Places
    decreases found.len(),
{
    if found.len() == 0 {
        Seq::empty()
    } else {
        by_place(in_order(found.drop_last()), found.last())
    }
}

proof fn lemma_by_place_len(sorted: Places, place: (int, Seq<char>))
    ensures
        by_place(sorted, place).len() == sorted.len() + 1,
        forall|i: int|
            0 <= i < sorted.len() + 1 ==> #[trigger] by_place(sorted, place)[i] == place
                || sorted.contains(by_place(sorted, place)[i]),
    decreases sorted.len(),
{
    if sorted.len() == 0 || sorted.last().0 <= place.0 {
        assert forall|i: int| 0 <= i < sorted.len() + 1 implies #[trigger] by_place(
            sorted,
            place,
        )[i] == place || sorted.contains(by_place(sorted, place)[i]) by {
            if i < sorted.len() {
                assert(by_place(sorted, place)[i] == sorted[i]);
            }
        }
    } else {
        let rest = sorted.drop_last();
        lemma_by_place_len(rest, place);
        assert forall|i: int| 0 <= i < sorted.len() + 1 implies #[trigger] by_place(
            sorted,
            place,
        )[i] == place || sorted.contains(by_place(sorted, place)[i]) by {
            if i < sorted.len() {
                let p = by_place(rest, place)[i];
                assert(by_place(sorted, place)[i] == p);
                if p != place {
                    let k = choose|k: int| 0 <= k < rest.len() && rest[k] == p;
                    assert(sorted[k] == p);
                }
            } else {
                assert(by_place(sorted, place)[i] == sorted[sorted.len() - 1]);
            }
        }
    }
}

proof fn lemma_in_order_len(found: Places)
    ensures
        in_order(found).len() == found.len(),
        forall|i: int| 0 <= i < found.len() ==> found.contains(#[trigger] in_order(found)[i]),
    decreases found.len(),
{
    if found.len() > 0 {
        let rest = found.drop_last();
        lemma_in_order_len(rest);
        lemma_by_place_len(in_order(rest), found.last());
        assert forall|i: int| 0 <= i < found.len() implies found.contains(
            #[trigger] in_order(found)[i],
        ) by {
            let p = in_order(found)[i];
            assert(p == by_place(in_order(rest), found.last())[i]);
            if p == found.last() {
                assert(found[found.len() - 1] == p);
            } else {
                let k = choose|k: int| 0 <= k < in_order(rest).len() && in_order(rest)[k] == p;
                assert(rest.contains(in_order(rest)[k]));
                let m = choose|m: int| 0 <= m < rest.len() && rest[m] == p;
                assert(found[m] == p);
            }
        }
    }
}

fn insert_by_place(sorted: &mut Vec<(usize, String)>, place: (usize, String))
    ensures
        places(final(sorted)@) == by_place(places(old(sorted)@), (place.0 as int, place.1@)),
{
    let ghost before = places(sorted@);
    let ghost item = (place.0 as int, place.1@);
    let mut k: usize = sorted.len();
    let ghost goal = by_place(before, item);
    proof {
        assert(before.take(k as int) =~= before);
        assert(goal =~= by_place(before.take(k as int), item) + before.skip(k as int));
    }
    while k > 0 && sorted[k - 1].0 > place.0
        invariant
            k <= sorted.len(),
            before == places(sorted@),
            item == (place.0 as int, place.1@),
            goal == by_place(before.take(k as int), item) + before.skip(k as int),
        decreases k,
    {
        proof {
            let now = before.take(k as int);
            assert(now.drop_last() =~= before.take(k - 1));
            assert(goal =~= by_place(before.take(k - 1), item) + before.skip(k - 1));
        }
        k = k - 1;
    }
    sorted.insert(k, place);
    assert(places(sorted@) =~= goal);
}

fn find_names(line: &str, names: &Vec<String>) -> (r: Vec<(usize, String)>)
    ensures
        places(r@) == in_order(named_in(line@, text::texts(names@))),
{
    let ghost all = text::texts(names@);
    let mut found: Vec<(usize, String)> = Vec::new();
    let mut rest = text::copy(line);
    assert(places(found@) =~= named_in(line@, all.take(0)));
    for i in 0..names.len()
        invariant
            all == text::texts(names@),
            places(found@) == named_in(line@, all.take(i as int)),
            rest@ == blanked(line@, all.take(i as int)),
    {
        let name = &names[i];
        assert(all.take(i + 1).drop_last() =~= all.take(i as int));
        assert(all.take(i + 1).last() == name@);
        let ghost seen = places(found@);
        if let Some(at) = find_name(&rest, name) {
            found.push((at, name.clone()));
            assert(places(found@) =~= seen.push((at as int, name@)));
        }
        if let Some(p) = name_pattern(name) {
            rest = p.replace_all(&rest, &blank_string(name.as_str().unicode_len()));
        }
    }
    assert(all.take(all.len() as int) =~= all);
    let ghost list = places(found@);
    let mut sorted: Vec<(usize, String)> = Vec::new();
    assert(places(sorted@) =~= in_order(list.take(0)));
    for i in 0..found.len()
        invariant
            list == places(found@),
            places(sorted@) == in_order(list.take(i as int)),
    {
        assert(list.take(i + 1).drop_last() =~= list.take(i as int));
        insert_by_place(&mut sorted, (found[i].0, found[i].1.clone()));
    }
    assert(list.take(list.len() as int) =~= list);
    sorted
}

/// A slot of a template.
pub open spec fn slot_text(n: int) -> Seq<char> {
    "%"@ + text::decimal(n) + "$s"@
}

fn slot_string(n: u64) -> (r: String)
    ensures
        r@ == slot_text(n as int),
{
    text::cat3("%", &text::number(n), "$s")
}

/// The line with a slot in place of each name.
pub open spec fn slotted(line: Seq<char>, names: Seq<Seq<char>>) -> Seq<char>
    decreases names.len(),
{
    if names.len() == 0 {
        line
    } else {
        let before = slotted(line, names.drop_last());
        if pattern::regex_accepts(name_source(names.last())) {
            pattern::regex_replace_all(
                name_source(names.last()),
                before,
                slot_text(names.len() as int),
            )
        } else {
            before
        }
    }
}

/// The names of the places that get a slot.
pub open spec fn slot_names(found: Places) -> Seq<Seq<char>> {
    Seq::new(
        if found.len() > MAX_NAMED {
            MAX_NAMED as nat
        } else {
            found.len()
        },
        |i: int| found[i].1,
    )
}

/// A template and how many slots it has.
pub struct Slotted {
    pub template: String,
    pub slots: u64,
}

/// Puts the next slot in place of what a clause names: `word`, the slot, and the
/// end of the clause.
pub open spec fn clause_slot(
    source: Seq<char>,
    word: Seq<char>,
    template: Seq<char>,
    slots: int,
) -> (Seq<char>, int) {
    if pattern::regex_accepts(source) {
        match pattern::found_in(source, template) {
            Some(found) => (
                found.before + (word + slot_text(slots + 1) + text::text_or_empty(
                    pattern::group_of(found.groups, 2),
                )) + found.after,
                slots + 1,
            ),
            None => (template, slots),
        }
    } else {
        (template, slots)
    }
}

fn take_clause(source: &str, word: &str, s: Slotted) -> (r: Slotted)
    requires
        s.slots < 100,
    ensures
        (r.template@, r.slots as int) == clause_slot(
            source@,
            word@,
            s.template@,
            s.slots as int,
        ),
        r.slots <= s.slots + 1,
{
    match Pattern::new(source) {
        Some(p) => match p.find(&s.template) {
            Some(found) => {
                let inner = text::cat3(word, &slot_string(s.slots + 1), &found.group_or_empty(2));
                Slotted {
                    template: text::cat3(&found.before, &inner, &found.after),
                    slots: s.slots + 1,
                }
            },
            None => s,
        },
        None => s,
    }
}

/// The template of a line: a slot for each player, for a mob and for a weapon.
/// The mob comes before the weapon, so that the killer has the lower slot.
pub open spec fn template_of(line: Seq<char>, found: Places) -> Seq<char> {
    let named = slotted(line, slot_names(found));
    let (with_mob, slots) = clause_slot(MOB@, "by "@, named, slot_names(found).len() as int);
    clause_slot(WEAPON@, "wielding "@, with_mob, slots).0
}

fn make_template(line: &str, found: &Vec<(usize, String)>) -> (r: String)
    ensures
        r@ == template_of(line@, places(found@)),
{
    let ghost names = slot_names(places(found@));
    let n: usize = if found.len() > MAX_NAMED {
        MAX_NAMED
    } else {
        found.len()
    };
    let mut template = text::copy(line);
    for i in 0..n
        invariant
            n <= MAX_NAMED,
            n <= found.len(),
            n == names.len(),
            names == slot_names(places(found@)),
            template@ == slotted(line@, names.take(i as int)),
    {
        assert(names.take(i + 1).drop_last() =~= names.take(i as int));
        assert(names[i as int] == found[i as int].1@);
        if let Some(p) = name_pattern(&found[i].1) {
            template = p.replace_all(&template, &slot_string(i as u64 + 1));
        }
    }
    assert(names.take(n as int) =~= names);
    let with_mob = take_clause(MOB, "by ", Slotted { template, slots: n as u64 });
    take_clause(WEAPON, "wielding ", with_mob).template
}

/// A line that may be a death.
pub struct Candidate {
    pub template: String,
    pub example: String,
    pub count: i64,
    /// Why it is not added by itself, where it is not.
    pub blocked: Option<&'static str>,
}

/// The contents of a [`Candidate`].
#[verifier::ext_equal]
pub struct CandidateText {
    pub template: Seq<char>,
    pub example: Seq<char>,
    pub count: int,
    pub blocked: Option<Seq<char>>,
}

impl View for Candidate {
    type V = CandidateText;

    open spec fn view(&self) -> CandidateText {
        CandidateText {
            template: self.template@,
            example: self.example@,
            count: self.count as int,
            blocked: text::opt_str(self.blocked),
        }
    }
}

pub open spec fn opt_candidate(o: Option<Candidate>) -> Option<CandidateText> {
    match o {
        Some(c) => Some(c@),
        None => None,
    }
}

/// Whether a line uses a long word of the vocabulary.
pub open spec fn sounds_deadly(line: Seq<char>, words: Seq<Seq<char>>) -> bool {
    exists|w: Seq<char>| #[trigger] deaths::long_words(line).contains(w) && words.contains(w)
}

/// Why a line does not become a template by itself.
pub open spec fn block(line: Seq<char>, found: Places, words: Seq<Seq<char>>) -> Option<Seq<char>> {
    if found.len() > 1 {
        Some("names two players — could be a kill in either direction"@)
    } else if !sounds_deadly(line, words) {
        Some("no wording any existing death template uses"@)
    } else {
        None
    }
}

/// Whether a line starts with a player: decoration may stand before the name, a
/// word may not.
pub open spec fn starts_with_player(line: Seq<char>, found: Places) -> bool {
    found.len() > 0 && forall|i: int|
        0 <= i < found[0].0 && i < line.len() ==> !unicode_alphanumeric(#[trigger] line[i])
}

/// The candidate that a line is, if it is one.
pub open spec fn assessed(
    line: Seq<char>,
    count: int,
    players: Seq<Seq<char>>,
    words: Seq<Seq<char>>,
) -> Option<CandidateText> {
    let found = in_order(named_in(line, longest_first(players)));
    if no_death(text::unicode_lower(line)) || !starts_with_player(line, found) {
        None
    } else {
        Some(
            CandidateText {
                template: template_of(line, found),
                example: line,
                count,
                blocked: block(line, found, words),
            },
        )
    }
}

/// Turns a line into a template and decides whether it is safe to add.
pub fn assess(line: &str, count: i64, players: &Vec<String>, words: &Vec<String>) -> (r: Option<
    Candidate,
>)
    ensures
        opt_candidate(r) == assessed(
            line@,
            count as int,
            text::texts(players@),
            text::texts(words@),
        ),
{
    if is_no_death(&text::to_lowercase(line)) {
        return None;
    }
    let sorted = sort_by_length(players);
    let found = find_names(line, &sorted);
    let ghost list = places(found@);
    if found.len() == 0 {
        return None;
    }
    let v = text::chars_of(line);
    let first: usize = if found[0].0 < v.len() {
        found[0].0
    } else {
        v.len()
    };
    assert(list[0].0 == found[0].0);
    for i in 0..first
        invariant
            first <= v.len(),
            v@ == line@,
            list.len() > 0,
            first <= list[0].0,
            list == in_order(named_in(line@, longest_first(text::texts(players@)))),
            forall|k: int| 0 <= k < i ==> !unicode_alphanumeric(#[trigger] line@[k]),
    {
        if alphanumeric(v[i]) {
            assert(unicode_alphanumeric(line@[i as int]));
            return None;
        }
    }
    assert(starts_with_player(line@, list));
    let blocked = if found.len() > 1 {
        Some("names two players — could be a kill in either direction")
    } else if !deaths::reads_like_a_death(line, words) {
        Some("no wording any existing death template uses")
    } else {
        None
    };
    Some(
        Candidate { template: make_template(line, &found), example: text::copy(line), count, blocked },
    )
}

/// A line and how often it was seen.
pub struct Seen {
    pub line: String,
    pub count: i64,
}

pub open spec fn candidate_texts(v: Seq<Candidate>) -> Seq<CandidateText> {
    Seq::new(v.len(), |i: int| v[i]@)
}

/// Where a template stands among the candidates.
pub open spec fn template_at(all: Seq<CandidateText>, template: Seq<char>) -> Option<int>
    decreases all.len(),
{
    if all.len() == 0 {
        None
    } else {
        match template_at(all.drop_last(), template) {
            Some(i) => Some(i),
            None => if all.last().template == template {
                Some(all.len() - 1)
            } else {
                None
            },
        }
    }
}

/// Adds a candidate; one whose template is there already adds to its count.
pub open spec fn merged(all: Seq<CandidateText>, c: CandidateText) -> Seq<CandidateText> {
    match template_at(all, c.template) {
        Some(i) => all.update(i, CandidateText { count: all[i].count + c.count, ..all[i] }),
        None => all.push(c),
    }
}

/// The candidates among the lines, in the order in which their templates come up.
/// Lines that are recognised already are none.
pub open spec fn collected(
    matchers: Seq<deaths::MatcherText>,
    seen: Seq<Seen>,
    players: Seq<Seq<char>>,
    words: Seq<Seq<char>>,
) -> Seq<CandidateText>
    decreases seen.len(),
{
    if seen.len() == 0 {
        Seq::empty()
    } else {
        let before = collected(matchers, seen.drop_last(), players, words);
        let line = text::trimmed(seen.last().line@);
        if classify::classified(matchers, line, false, false, None).kind == Kind::Death {
            before
        } else {
            match assessed(line, seen.last().count as int, players, words) {
                Some(c) => merged(before, c),
                None => before,
            }
        }
    }
}

/// How often the lines were seen altogether.
pub open spec fn total(seen: Seq<Seen>) -> int
    decreases seen.len(),
{
    if seen.len() == 0 {
        0
    } else {
        total(seen.drop_last()) + seen.last().count
    }
}

/// The counts of the candidates altogether.
pub open spec fn counted(all: Seq<CandidateText>) -> int
    decreases all.len(),
{
    if all.len() == 0 {
        0
    } else {
        counted(all.drop_last()) + all.last().count
    }
}

proof fn lemma_template_at(all: Seq<CandidateText>, template: Seq<char>)
    ensures
        match template_at(all, template) {
            Some(i) => 0 <= i < all.len() && all[i].template == template,
            None => forall|i: int| 0 <= i < all.len() ==> #[trigger] all[i].template != template,
        },
        template_at(all, template) matches Some(i) ==> forall|k: int|
            0 <= k < i ==> #[trigger] all[k].template != template,
    decreases all.len(),
{
    if all.len() > 0 {
        lemma_template_at(all.drop_last(), template);
        assert forall|k: int| 0 <= k < all.len() - 1 implies #[trigger] all[k]
            == all.drop_last()[k] by {}
    }
}

proof fn lemma_counted_update(all: Seq<CandidateText>, i: int, c: CandidateText)
    requires
        0 <= i < all.len(),
    ensures
        counted(all.update(i, c)) == counted(all) - all[i].count + c.count,
    decreases all.len(),
{
    let next = all.update(i, c);
    if i == all.len() - 1 {
        assert(next.drop_last() =~= all.drop_last());
    } else {
        lemma_counted_update(all.drop_last(), i, c);
        assert(next.drop_last() =~= all.drop_last().update(i, c));
    }
}

proof fn lemma_counted_holds(all: Seq<CandidateText>, i: int)
    requires
        0 <= i < all.len(),
        forall|k: int| 0 <= k < all.len() ==> #[trigger] all[k].count >= 0,
    ensures
        0 <= all[i].count <= counted(all),
    decreases all.len(),
{
    if i == all.len() - 1 {
        lemma_counted_nonnegative(all.drop_last());
    } else {
        lemma_counted_holds(all.drop_last(), i);
        assert(all[all.len() - 1].count >= 0);
    }
}

proof fn lemma_counted_nonnegative(all: Seq<CandidateText>)
    requires
        forall|k: int| 0 <= k < all.len() ==> #[trigger] all[k].count >= 0,
    ensures
        counted(all) >= 0,
    decreases all.len(),
{
    if all.len() > 0 {
        lemma_counted_nonnegative(all.drop_last());
        assert(all[all.len() - 1].count >= 0);
    }
}

proof fn lemma_total_grows(seen: Seq<Seen>, k: int)
    requires
        0 <= k <= seen.len(),
        forall|i: int| 0 <= i < seen.len() ==> #[trigger] seen[i].count >= 0,
    ensures
        total(seen.take(k)) <= total(seen),
    decreases seen.len() - k,
{
    if k < seen.len() {
        lemma_total_grows(seen, k + 1);
        assert(seen.take(k + 1).drop_last() =~= seen.take(k));
        assert(seen[k].count >= 0);
    } else {
        assert(seen.take(k) =~= seen);
    }
}

fn position_of(all: &Vec<Candidate>, template: &String) -> (r: Option<usize>)
    ensures
        match r {
            Some(i) => template_at(candidate_texts(all@), template@) == Some(i as int) && i
                < all.len(),
            None => template_at(candidate_texts(all@), template@) is None,
        },
{
    let ghost list = candidate_texts(all@);
    let mut i: usize = 0;
    while i < all.len()
        invariant
            i <= all.len(),
            list == candidate_texts(all@),
            forall|k: int| 0 <= k < i ==> #[trigger] list[k].template != template@,
        decreases all.len() - i,
    {
        assert(list[i as int].template == all[i as int].template@);
        if all[i].template == *template {
            proof {
                lemma_template_at(list, template@);
            }
            return Some(i);
        }
        i = i + 1;
    }
    proof {
        lemma_template_at(list, template@);
    }
    None
}

/// Looks for deaths among lines that were filed as notices.
pub fn collect(
    classifier: &Classifier,
    seen: &Vec<Seen>,
    players: &Vec<String>,
    words: &Vec<String>,
) -> (r: Vec<Candidate>)
    requires
        forall|i: int| 0 <= i < seen.len() ==> #[trigger] seen[i].count >= 0,
        total(seen@) <= i64::MAX,
    ensures
        candidate_texts(r@) == collected(
            deaths::matcher_texts(classifier.deaths@),
            seen@,
            text::texts(players@),
            text::texts(words@),
        ),
{
    let ghost matchers = deaths::matcher_texts(classifier.deaths@);
    let ghost names = text::texts(players@);
    let ghost known = text::texts(words@);
    let mut r: Vec<Candidate> = Vec::new();
    assert(candidate_texts(r@) =~= collected(matchers, seen@.take(0), names, known));
    for i in 0..seen.len()
        invariant
            matchers == deaths::matcher_texts(classifier.deaths@),
            names == text::texts(players@),
            known == text::texts(words@),
            forall|k: int| 0 <= k < seen.len() ==> #[trigger] seen[k].count >= 0,
            total(seen@) <= i64::MAX,
            candidate_texts(r@) == collected(matchers, seen@.take(i as int), names, known),
            counted(candidate_texts(r@)) <= total(seen@.take(i as int)),
            forall|k: int| 0 <= k < r.len() ==> #[trigger] candidate_texts(r@)[k].count >= 0,
    {
        let ghost list = candidate_texts(r@);
        proof {
            assert(seen@.take(i + 1).drop_last() =~= seen@.take(i as int));
            assert(seen@.take(i + 1).last() == seen[i as int]);
            lemma_total_grows(seen@, i + 1);
            assert(seen[i as int].count >= 0);
        }
        let line = text::trim(&seen[i].line);
        let kind = classify::classify(classifier, &line, false, false, None).kind;
        if kind != Kind::Death {
            if let Some(c) = assess(&line, seen[i].count, players, words) {
                let ghost added = c@;
                match position_of(&r, &c.template) {
                    Some(k) => {
                        proof {
                            lemma_counted_holds(list, k as int);
                            lemma_counted_update(
                                list,
                                k as int,
                                CandidateText {
                                    count: list[k as int].count + added.count,
                                    ..list[k as int]
                                },
                            );
                            assert(list[k as int].count == r[k as int].count);
                        }
                        let count: i64 = r[k].count + c.count;
                        let known_one = Candidate {
                            template: r[k].template.clone(),
                            example: r[k].example.clone(),
                            count,
                            blocked: r[k].blocked,
                        };
                        r.set(k, known_one);
                        proof {
                            let now = CandidateText {
                                count: list[k as int].count + added.count,
                                ..list[k as int]
                            };
                            assert(known_one@ =~= now);
                            assert(candidate_texts(r@) =~= list.update(k as int, now));
                            assert forall|j: int| 0 <= j < r.len() implies
                                #[trigger] candidate_texts(r@)[j].count >= 0 by {
                                assert(list[j].count >= 0);
                            }
                        }
                    },
                    None => {
                        r.push(c);
                        proof {
                            assert(candidate_texts(r@) =~= list.push(added));
                            assert(list.push(added).drop_last() =~= list);
                            assert forall|j: int| 0 <= j < r.len() implies
                                #[trigger] candidate_texts(r@)[j].count >= 0 by {
                                if j < list.len() {
                                    assert(list[j].count >= 0);
                                }
                            }
                        }
                    },
                }
            }
        }
    }
    assert(seen@.take(seen.len() as int) =~= seen@);
    r
}

/// The templates that are safe to add.
pub open spec fn safe(all: Seq<CandidateText>) -> Seq<Seq<char>>
    decreases all.len(),
{
    if all.len() == 0 {
        Seq::empty()
    } else if all.last().blocked is None {
        safe(all.drop_last()).push(all.last().template)
    } else {
        safe(all.drop_last())
    }
}

/// The templates that are safe to add.
pub fn addable(all: &Vec<Candidate>) -> (r: Vec<String>)
    ensures
        text::texts(r@) == safe(candidate_texts(all@)),
{
    let ghost list = candidate_texts(all@);
    let mut r: Vec<String> = Vec::new();
    assert(text::texts(r@) =~= safe(list.take(0)));
    for i in 0..all.len()
        invariant
            list == candidate_texts(all@),
            text::texts(r@) == safe(list.take(i as int)),
    {
        assert(list.take(i + 1).drop_last() =~= list.take(i as int));
        if all[i].blocked.is_none() {
            let t = all[i].template.clone();
            proof {
                text::lemma_texts_push(r@, t);
            }
            r.push(t);
        }
    }
    assert(list.take(list.len() as int) =~= list);
    r
}

proof fn lemma_named_players(line: Seq<char>, names: Seq<Seq<char>>)
    ensures
        forall|i: int|
            0 <= i < names.len() && #[trigger] names_player(line, names, i) ==> named_in(
                line,
                names,
            ).len() > 0,
        forall|i: int, j: int|
            0 <= i < j < names.len() && #[trigger] names_player(line, names, i)
                && #[trigger] names_player(line, names, j) ==> named_in(line, names).len() > 1,
    decreases names.len(),
{
    if names.len() > 0 {
        let rest = names.drop_last();
        lemma_named_players(line, rest);
        assert(names.take(names.len() - 1) =~= rest);
        assert forall|i: int| 0 <= i < rest.len() implies names_player(line, names, i)
            == #[trigger] names_player(line, rest, i) by {
            assert(names.take(i) =~= rest.take(i));
        }
        assert forall|i: int|
            0 <= i < names.len() && #[trigger] names_player(line, names, i) implies named_in(
            line,
            names,
        ).len() > 0 by {
            if i < rest.len() {
                assert(names_player(line, rest, i));
            }
        }
        assert forall|i: int, j: int|
            0 <= i < j < names.len() && #[trigger] names_player(line, names, i)
                && #[trigger] names_player(line, names, j) implies named_in(line, names).len()
            > 1 by {
            assert(names_player(line, rest, i));
            if j < rest.len() {
                assert(names_player(line, rest, j));
            }
        }
    }
}

/// A line that names two players is never added by itself, whatever their names
/// have in common: which of them did the killing cannot be read off it.
pub proof fn lemma_two_players_are_reviewed(
    line: Seq<char>,
    count: int,
    players: Seq<Seq<char>>,
    words: Seq<Seq<char>>,
    i: int,
    j: int,
)
    requires
        0 <= i < j < longest_first(players).len(),
        names_player(line, longest_first(players), i),
        names_player(line, longest_first(players), j),
    ensures
        assessed(line, count, players, words) matches Some(c) ==> c.blocked is Some,
{
    lemma_named_players(line, longest_first(players));
    lemma_in_order_len(named_in(line, longest_first(players)));
}

/// Only lines that start with a known player, name no second one and use the
/// wording of a known template are added by themselves.
pub proof fn lemma_what_is_added(
    line: Seq<char>,
    count: int,
    players: Seq<Seq<char>>,
    words: Seq<Seq<char>>,
)
    requires
        assessed(line, count, players, words) matches Some(c) && c.blocked is None,
    ensures
        named_in(line, longest_first(players)).len() == 1,
        starts_with_player(line, named_in(line, longest_first(players))),
        sounds_deadly(line, words),
        !no_death(text::unicode_lower(line)),
{
    let found = named_in(line, longest_first(players));
    lemma_in_order_len(found);
    assert(found.contains(in_order(found)[0]));
    assert(in_order(found)[0] == found[0]);
}

// ---------------------------------------------------------------------------
// What is written
// ---------------------------------------------------------------------------

/// Why a template file is not extended.
#[derive(Debug, Clone, Copy, PartialEq, Eq, Structural)]
pub enum AddError {
    /// The file is no JSON.
    InvalidJson,
    /// The file holds no object.
    NotAnObject,
    /// The group for new templates is no list.
    GroupNotAList,
}

pub open spec fn text_items(templates: Seq<Seq<char>>) -> Seq<JsonText> {
    Seq::new(templates.len(), |i: int| JsonText::Text(templates[i]))
}

/// The document with the templates at the end of the group for new ones.
pub open spec fn with_templates(j: JsonText, templates: Seq<Seq<char>>) -> Result<
    JsonText,
    AddError,
> {
    match j {
        JsonText::Object(members) => match json::member(members, DISCOVERED_GROUP@) {
            None => Ok(
                JsonText::Object(
                    json::with_entry(
                        members,
                        DISCOVERED_GROUP@,
                        JsonText::List(text_items(templates)),
                    ),
                ),
            ),
            Some(JsonText::List(items)) => Ok(
                JsonText::Object(
                    json::with_entry(
                        members,
                        DISCOVERED_GROUP@,
                        JsonText::List(items + text_items(templates)),
                    ),
                ),
            ),
            Some(_) => Err(AddError::GroupNotAList),
        },
        _ => Err(AddError::NotAnObject),
    }
}

/// The text of a template file that was extended.
pub open spec fn extended(raw: Seq<char>, templates: Seq<Seq<char>>) -> Result<
    Seq<char>,
    AddError,
> {
    match json::json_of(raw) {
        Some(j) => match with_templates(j, templates) {
            Ok(now) => Ok(json::json_pretty(now)),
            Err(e) => Err(e),
        },
        None => Err(AddError::InvalidJson),
    }
}

/// Appends templates to the group for new ones and keeps everything else. Gives
/// the text that the file holds afterwards.
pub fn add_templates(raw: &str, templates: &Vec<String>) -> (r: Result<String, AddError>)
    ensures
        (match r {
            Ok(s) => Ok(s@),
            Err(e) => Err(e),
        }) == extended(raw@, text::texts(templates@)),
        r matches Ok(s) ==> {
            let now = with_templates(json::json_of(raw@)->0, text::texts(templates@))->Ok_0;
            json::reads_back(now, json::SURE_DEPTH as nat) ==> json::json_of(s@) == Some(now)
        },
{
    let ghost wanted = text_items(text::texts(templates@));
    let root = match json::parse(raw) {
        Some(root) => root,
        None => {
            return Err(AddError::InvalidJson);
        },
    };
    let members = match json::as_object(&root) {
        Some(members) => members,
        None => {
            return Err(AddError::NotAnObject);
        },
    };
    let mut items: Vec<serde_json::Value> = match json::find_member(&members, DISCOVERED_GROUP) {
        Some(i) => match json::as_list(&members[i].1) {
            Some(items) => items,
            None => {
                return Err(AddError::GroupNotAList);
            },
        },
        None => Vec::new(),
    };
    let ghost before = json::values_of(items@);
    assert(before + wanted.take(0) =~= before);
    for i in 0..templates.len()
        invariant
            wanted == text_items(text::texts(templates@)),
            json::values_of(items@) == before + wanted.take(i as int),
    {
        let ghost held = items@;
        let item = json::text_value(Some(templates[i].clone()));
        items.push(item);
        proof {
            assert(json::value_of(item) == wanted[i as int]);
            assert(json::values_of(items@) =~= json::values_of(held).push(wanted[i as int]));
            assert(json::values_of(items@) =~= before + wanted.take(i + 1));
        }
    }
    assert(wanted.take(wanted.len() as int) =~= wanted);
    assert(before.len() == 0 ==> before + wanted =~= wanted);
    Ok(json::pretty(&json::put(root, DISCOVERED_GROUP, json::list_value(items))))
}

/// What is added stands at the end of its group, and every other member of the
/// file is as it was.
pub proof fn lemma_adding_keeps_the_rest(
    members: Seq<(Seq<char>, JsonText)>,
    templates: Seq<Seq<char>>,
    key: Seq<char>,
)
    ensures
        with_templates(JsonText::Object(members), templates) matches Ok(now) ==> {
            &&& now is Object
            &&& key != DISCOVERED_GROUP@ ==> json::member(now->Object_0, key) == json::member(
                members,
                key,
            )
            &&& json::member(now->Object_0, DISCOVERED_GROUP@) == Some(
                JsonText::List(
                    (match json::member(members, DISCOVERED_GROUP@) {
                        Some(JsonText::List(items)) => items,
                        _ => Seq::empty(),
                    }) + text_items(templates),
                ),
            )
        },
{
    match json::member(members, DISCOVERED_GROUP@) {
        None => {
            json::lemma_entry_kept(
                members,
                DISCOVERED_GROUP@,
                JsonText::List(text_items(templates)),
                key,
            );
            assert(Seq::<JsonText>::empty() + text_items(templates) =~= text_items(templates));
        },
        Some(JsonText::List(items)) => {
            json::lemma_entry_kept(
                members,
                DISCOVERED_GROUP@,
                JsonText::List(items + text_items(templates)),
                key,
            );
        },
        Some(_) => {},
    }
}

/// Whoever reads an extended file back finds every template that was added, with
/// its victim in the first slot, and every one that was there before.
pub proof fn lemma_added_templates_are_read(
    raw: Seq<char>,
    templates: Seq<Seq<char>>,
    written: Seq<char>,
    t: deaths::TemplateText,
)
    requires
        json::json_of(raw) matches Some(JsonText::Object(members)) && json::keys_once(members),
        with_templates(json::json_of(raw)->0, templates) matches Ok(now) && json::json_of(written)
            == Some(now),
    ensures
        forall|k: int|
            0 <= k < templates.len() ==> deaths::templates_of(written).contains(
                deaths::victim_first(#[trigger] templates[k]),
            ),
        deaths::templates_of(raw).contains(t) ==> deaths::templates_of(written).contains(t),
{
    let key = DISCOVERED_GROUP@;
    assert(!text::begins(key, "_"@)) by {
        reveal_strlit("discovered");
        reveal_strlit("_");
        assert(key[0] == 'd');
        if text::begins(key, "_"@) {
            assert(key.take(1)[0] == "_"@[0]);
        }
    }
    let root = json::json_of(raw)->0;
    let members = root->Object_0;
    let items = match json::member(members, key) {
        Some(JsonText::List(items)) => items,
        _ => Seq::empty(),
    };
    let value = JsonText::List(items + text_items(templates));
    assert(Seq::<JsonText>::empty() + text_items(templates) =~= text_items(templates));
    let now = json::with_entry(members, key, value);
    assert(json::json_of(written) == Some(JsonText::Object(now)));
    let groups = deaths::groups_of(JsonText::Object(now));
    json::lemma_entry_stands(members, key, value);
    let at = choose|k: int| 0 <= k < now.len() && now[k] == (key, value);
    deaths::lemma_group_grows(key, items, templates, t);
    assert(groups[at] == deaths::group_of(key, value));
    assert forall|k: int| 0 <= k < templates.len() implies deaths::templates_of(written).contains(
        deaths::victim_first(#[trigger] templates[k]),
    ) by {
        deaths::lemma_templates_of_groups(groups, deaths::victim_first(templates[k]));
        assert(deaths::group_templates(groups[at]).contains(deaths::victim_first(templates[k])));
    }
    if deaths::templates_of(raw).contains(t) {
        let before = deaths::groups_of(root);
        deaths::lemma_templates_of_groups(before, t);
        deaths::lemma_templates_of_groups(groups, t);
        let i = choose|i: int|
            0 <= i < before.len() && deaths::group_templates(#[trigger] before[i]).contains(t);
        assert(before[i] == deaths::group_of(members[i].0, members[i].1));
        if members[i].0 == key {
            json::lemma_member_at(members, i);
            assert(deaths::group_templates(groups[at]).contains(t));
        } else {
            assert(now.contains(members[i]));
            let k = choose|k: int| 0 <= k < now.len() && now[k] == members[i];
            assert(groups[k] == before[i]);
            assert(deaths::group_templates(groups[k]).contains(t));
        }
    }
}

/// What stands at the top of the file of candidates.
pub open spec fn readme() -> Seq<Seq<char>> {
    seq![
        "Death messages discover found but would not add by itself."@,
        "Check the direction, then move the template into custom_deaths.json."@,
        "A line naming two players is usually a kill: if the killer comes"@,
        "first, use {\"template\": ..., \"killer\": 1, \"victim\": 2}."@,
        "Entries here are rewritten every pass; deleting one is harmless."@,
    ]
}

/// A candidate as it stands in the file.
pub open spec fn candidate_json(c: CandidateText) -> JsonText {
    JsonText::Object(
        json::with_entry(
            json::with_entry(
                json::with_entry(
                    json::with_entry(Seq::empty(), "template"@, JsonText::Text(c.template)),
                    "example"@,
                    JsonText::Text(c.example),
                ),
                "seen"@,
                JsonText::Number {
                    whole: if c.count >= 0 {
                        Some(c.count as u64)
                    } else {
                        None
                    },
                    written: text::signed_decimal(c.count),
                },
            ),
            "why"@,
            match c.blocked {
                Some(why) => JsonText::Text(why),
                None => JsonText::Null,
            },
        ),
    )
}

pub open spec fn candidates_json(v: Seq<&Candidate>) -> Seq<JsonText> {
    Seq::new(v.len(), |i: int| candidate_json(v[i]@))
}

/// The file of candidates with those of one instance in place of what it had. A
/// file that is missing or holds no object counts as empty.
pub open spec fn reviewed(
    existing: Option<Seq<char>>,
    label: Seq<char>,
    entries: Seq<JsonText>,
) -> JsonText {
    let members = match existing {
        Some(raw) => match json::json_of(raw) {
            Some(JsonText::Object(members)) => members,
            _ => Seq::empty(),
        },
        None => Seq::empty(),
    };
    JsonText::Object(
        json::with_entry(
            json::with_entry(members, "_readme"@, JsonText::List(text_items(readme()))),
            label,
            JsonText::List(entries),
        ),
    )
}

fn readme_value() -> (v: serde_json::Value)
    ensures
        json::value_of(v) == JsonText::List(text_items(readme())),
{
    let mut items: Vec<serde_json::Value> = Vec::new();
    items.push(
        json::text_value(
            Some(text::copy("Death messages discover found but would not add by itself.")),
        ),
    );
    items.push(
        json::text_value(
            Some(text::copy("Check the direction, then move the template into custom_deaths.json.")),
        ),
    );
    items.push(
        json::text_value(
            Some(text::copy("A line naming two players is usually a kill: if the killer comes")),
        ),
    );
    items.push(
        json::text_value(
            Some(text::copy("first, use {\"template\": ..., \"killer\": 1, \"victim\": 2}.")),
        ),
    );
    items.push(
        json::text_value(
            Some(text::copy("Entries here are rewritten every pass; deleting one is harmless.")),
        ),
    );
    assert(json::values_of(items@) =~= text_items(readme()));
    json::list_value(items)
}

fn candidate_value(c: &Candidate) -> (v: serde_json::Value)
    ensures
        json::value_of(v) == candidate_json(c@),
{
    let why = match c.blocked {
        Some(why) => Some(text::copy(why)),
        None => None,
    };
    let v = json::put(
        json::empty_object(),
        "template",
        json::text_value(Some(c.template.clone())),
    );
    let v = json::put(v, "example", json::text_value(Some(c.example.clone())));
    let v = json::put(v, "seen", json::number_value(c.count));
    json::put(v, "why", json::text_value(why))
}

/// The text of the file of candidates that somebody has to decide on, with those
/// of one instance in place of what it had.
pub fn write_review(existing: Option<&str>, label: &str, candidates: &Vec<&Candidate>) -> (r:
    String)
    ensures
        r@ == json::json_pretty(
            reviewed(text::opt_str(existing), label@, candidates_json(candidates@)),
        ),
{
    let mut root = json::empty_object();
    if let Some(raw) = existing {
        if let Some(value) = json::parse(raw) {
            if json::as_object(&value).is_some() {
                root = value;
            }
        }
    }
    let mut entries: Vec<serde_json::Value> = Vec::new();
    for i in 0..candidates.len()
        invariant
            entries.len() == i,
            forall|k: int|
                0 <= k < i ==> json::value_of(#[trigger] entries[k]) == candidate_json(
                    candidates[k]@,
                ),
    {
        entries.push(candidate_value(candidates[i]));
    }
    assert(json::values_of(entries@) =~= candidates_json(candidates@));
    let with_readme = json::put(root, "_readme", readme_value());
    json::pretty(&json::put(with_readme, label, json::list_value(entries)))
}

// ---------------------------------------------------------------------------
// Where the loggers are
// ---------------------------------------------------------------------------

/// Whether a file sets up a logger that is in service.
pub open spec fn env_file(name: Seq<char>) -> bool {
    (name == ".env"@ || (text::begins(name, ".env."@) && !text::ends(name, ".disabled"@)))
        && !text::ends(name, ".pid"@)
}

pub fn is_env_file(name: &str) -> (b: bool)
    ensures
        b == env_file(name@),
{
    (text::same(name, ".env") || (text::starts_with(name, ".env.") && !text::ends_with(
        name,
        ".disabled",
    ))) && !text::ends_with(name, ".pid")
}

/// The database that a line of an env file names.
pub open spec fn url_in_line(line: Seq<char>) -> Option<Seq<char>> {
    match text::after_prefix(text::trimmed(line), "DATABASE_URL="@) {
        Some(v) => Some(
            text::drop_back(
                text::drop_front(text::trimmed(v), text::is_char('"')),
                text::is_char('"'),
            ),
        ),
        None => None,
    }
}

/// The database that the first line with one names.
pub open spec fn first_url(lines: Seq<Seq<char>>) -> Option<Seq<char>>
    decreases lines.len(),
{
    if lines.len() == 0 {
        None
    } else {
        match first_url(lines.drop_last()) {
            Some(url) => Some(url),
            None => url_in_line(lines.last()),
        }
    }
}

/// The database that an env file names, where it names one.
pub open spec fn file_url(contents: Seq<char>) -> Option<Seq<char>> {
    match first_url(text::pieces(contents, text::is_char('\n'))) {
        Some(url) if url.len() > 0 => Some(url),
        _ => None,
    }
}

fn trim_quotes(s: &str) -> (r: String)
    ensures
        r@ == text::drop_back(
            text::drop_front(s@, text::is_char('"')),
            text::is_char('"'),
        ),
{
    let v = text::chars_of(s);
    let mut i: usize = 0;
    while i < v.len() && v[i] == '"'
        invariant
            i <= v.len(),
            forall|k: int| 0 <= k < i ==> #[trigger] v@[k] == '"',
        decreases v.len() - i,
    {
        i = i + 1;
    }
    let mut j: usize = v.len();
    while j > i && v[j - 1] == '"'
        invariant
            i <= j <= v.len(),
            forall|k: int| j <= k < v.len() ==> #[trigger] v@[k] == '"',
        decreases j,
    {
        j = j - 1;
    }
    let r = text::string_of(&v, i, j);
    proof {
        let quote = text::is_char('"');
        text::lemma_drop_front(v@, quote, i as int);
        let rest = v@.skip(i as int);
        assert forall|k: int| j - i <= k < rest.len() implies quote(#[trigger] rest[k]) by {
            assert(rest[k] == v@[k + i]);
        }
        text::lemma_drop_back(rest, quote, j - i);
        assert(r@ =~= rest.take(j - i));
    }
    r
}

/// The database that an env file names.
pub fn database_url_in(contents: &str) -> (r: Option<String>)
    ensures
        text::opt_text(r) == file_url(contents@),
{
    let lines = text::split(contents, '\n');
    let ghost all = text::texts(lines@);
    for i in 0..lines.len()
        invariant
            all == text::texts(lines@),
            all == text::pieces(contents@, text::is_char('\n')),
            first_url(all.take(i as int)) is None,
    {
        assert(all.take(i + 1).drop_last() =~= all.take(i as int));
        let line = text::trim(&lines[i]);
        if let Some(v) = text::strip_prefix(&line, "DATABASE_URL=") {
            let url = trim_quotes(&text::trim(&v));
            proof {
                assert(first_url(all.take(i + 1)) == Some(url@));
                lemma_first_url_stays(all, i + 1);
            }
            if url.as_str().is_empty() {
                return None;
            }
            return Some(url);
        }
    }
    assert(all.take(all.len() as int) =~= all);
    None
}

proof fn lemma_first_url_stays(lines: Seq<Seq<char>>, k: int)
    requires
        0 <= k <= lines.len(),
        first_url(lines.take(k)) is Some,
    ensures
        first_url(lines) == first_url(lines.take(k)),
    decreases lines.len() - k,
{
    if k < lines.len() {
        assert(lines.take(k + 1).drop_last() =~= lines.take(k));
        lemma_first_url_stays(lines, k + 1);
    } else {
        assert(lines.take(k) =~= lines);
    }
}

// ---------------------------------------------------------------------------
// What is found, and what becomes of it
// ---------------------------------------------------------------------------

/// A line that looks like no death, or does not start with a player, is no candidate;
/// any other is one, with its line as the example and as many sightings as were counted.
pub proof fn lemma_candidates(
    line: Seq<char>,
    count: int,
    players: Seq<Seq<char>>,
    words: Seq<Seq<char>>,
)
    ensures
        no_death(text::unicode_lower(line)) ==> assessed(line, count, players, words) is None,
        players.len() == 0 ==> assessed(line, count, players, words) is None,
        assessed(line, count, players, words) matches Some(c) ==> {
            &&& c.example == line
            &&& c.count == count
            &&& !sounds_deadly(line, words) ==> c.blocked is Some
            &&& named_in(line, longest_first(players)).len() > 1 ==> c.blocked == Some(
                "names two players — could be a kill in either direction"@,
            )
        },
{
    lemma_in_order_len(named_in(line, longest_first(players)));
}

/// Candidates for one template are counted together, and no sighting is lost.
pub proof fn lemma_candidates_are_counted_together(all: Seq<CandidateText>, c: CandidateText)
    ensures
        counted(merged(all, c)) == counted(all) + c.count,
        template_at(merged(all, c), c.template) is Some,
        template_at(all, c.template) is None ==> merged(all, c) == all.push(c),
        template_at(all, c.template) is Some ==> merged(all, c).len() == all.len(),
{
    lemma_template_at(all, c.template);
    match template_at(all, c.template) {
        Some(i) => {
            let new = CandidateText { count: all[i].count + c.count, ..all[i] };
            lemma_counted_update(all, i, new);
            lemma_template_kept(all, i, new, c.template);
        },
        None => {
            assert(all.push(c).drop_last() =~= all);
        },
    }
}

proof fn lemma_template_kept(
    all: Seq<CandidateText>,
    i: int,
    new: CandidateText,
    template: Seq<char>,
)
    requires
        0 <= i < all.len(),
        new.template == all[i].template,
    ensures
        template_at(all.update(i, new), template) == template_at(all, template),
    decreases all.len(),
{
    let rest = all.drop_last();
    let after = all.update(i, new);
    if i < rest.len() {
        lemma_template_kept(rest, i, new, template);
        assert(after.drop_last() =~= rest.update(i, new));
    } else {
        assert(after.drop_last() =~= rest);
    }
}

/// A line that is read as a death already is passed over; any other is taken in where it
/// is a candidate.
pub proof fn lemma_lines_are_collected(
    matchers: Seq<deaths::MatcherText>,
    seen: Seq<Seen>,
    one: Seen,
    players: Seq<Seq<char>>,
    words: Seq<Seq<char>>,
)
    ensures
        ({
            let line = text::trimmed(one.line@);
            let known = classify::classified(matchers, line, false, false, None).kind == Kind::Death;
            let before = collected(matchers, seen, players, words);
            let after = collected(matchers, seen.push(one), players, words);
            &&& known ==> after == before
            &&& !known ==> (assessed(line, one.count as int, players, words) matches Some(c) ==> after
                == merged(before, c))
            &&& !known && assessed(line, one.count as int, players, words) is None ==> after == before
        }),
{
    assert(seen.push(one).drop_last() =~= seen);
}

/// Only the candidates that nothing speaks against are added, in their order.
pub proof fn lemma_safe_candidates(all: Seq<CandidateText>, c: CandidateText)
    ensures
        c.blocked is None ==> safe(all.push(c)) == safe(all).push(c.template),
        c.blocked is Some ==> safe(all.push(c)) == safe(all),
        safe(Seq::empty()).len() == 0,
{
    assert(all.push(c).drop_last() =~= all);
}

/// The names are looked for one after the other, each in what the names before it left,
/// and each that is found is kept with its place.
pub proof fn lemma_names_are_looked_for(line: Seq<char>, names: Seq<Seq<char>>, name: Seq<char>)
    ensures
        name_at(blanked(line, names), name) matches Some(at) ==> named_in(line, names.push(name))
            == named_in(line, names).push((at, name)),
        name_at(blanked(line, names), name) is None ==> named_in(line, names.push(name)) == named_in(
            line,
            names,
        ),
{
    assert(names.push(name).drop_last() =~= names);
}

/// What is written for review names the template, the example, how often it was seen, and
/// why it was not added.
pub proof fn lemma_reviews_name_candidates(c: CandidateText)
    ensures
        candidate_json(c) matches JsonText::Object(m) && {
            &&& json::member(m, "template"@) == Some(JsonText::Text(c.template))
            &&& json::member(m, "example"@) == Some(JsonText::Text(c.example))
            &&& json::member(m, "seen"@) is Some
            &&& c.blocked is Some ==> json::member(m, "why"@) == Some(JsonText::Text(c.blocked->0))
        },
{
    reveal_strlit("template");
    reveal_strlit("example");
    reveal_strlit("seen");
    reveal_strlit("why");
    assert("template"@.len() == 8 && "example"@.len() == 7 && "seen"@.len() == 4 && "why"@.len() == 3);
    let a = Seq::<(Seq<char>, JsonText)>::empty();
    let b = json::with_entry(a, "template"@, JsonText::Text(c.template));
    let d = json::with_entry(b, "example"@, JsonText::Text(c.example));
    let n = JsonText::Number {
        whole: if c.count >= 0 {
            Some(c.count as u64)
        } else {
            None
        },
        written: text::signed_decimal(c.count),
    };
    let e = json::with_entry(d, "seen"@, n);
    let w = match c.blocked {
        Some(why) => JsonText::Text(why),
        None => JsonText::Null,
    };
    json::lemma_entry_kept(a, "template"@, JsonText::Text(c.template), "template"@);
    json::lemma_entry_kept(b, "example"@, JsonText::Text(c.example), "template"@);
    json::lemma_entry_kept(b, "example"@, JsonText::Text(c.example), "example"@);
    json::lemma_entry_kept(d, "seen"@, n, "template"@);
    json::lemma_entry_kept(d, "seen"@, n, "example"@);
    json::lemma_entry_kept(d, "seen"@, n, "seen"@);
    json::lemma_entry_kept(e, "why"@, w, "template"@);
    json::lemma_entry_kept(e, "why"@, w, "example"@);
    json::lemma_entry_kept(e, "why"@, w, "seen"@);
    json::lemma_entry_kept(e, "why"@, w, "why"@);
}

/// The files with settings are those of a name that starts with the word, but for those
/// that are switched off.
pub proof fn lemma_settings_files(rest: Seq<char>)
    ensures
        env_file(".env"@),
        !text::ends(".env."@ + rest, ".disabled"@) && !text::ends(".env."@ + rest, ".pid"@) ==> env_file(
            ".env."@ + rest,
        ),
        !env_file(".env."@ + rest + ".disabled"@),
        !env_file(rest + ".pid"@),
{
    reveal_strlit(".env");
    reveal_strlit(".pid");
    reveal_strlit(".env.");
    reveal_strlit(".disabled");
    assert(".env"@.skip(0)[1] == 'e');
    assert(".pid"@[1] == 'p');
    assert((".env."@ + rest).take(5) =~= ".env."@);
    let d = ".env."@ + rest + ".disabled"@;
    assert(d.skip(d.len() - 9) =~= ".disabled"@);
    let p = rest + ".pid"@;
    assert(p.skip(p.len() - 4) =~= ".pid"@);
}

/// The first address in a file of settings counts.
pub proof fn lemma_first_address(lines: Seq<Seq<char>>, line: Seq<char>)
    ensures
        first_url(Seq::empty()) is None,
        first_url(lines) is Some ==> first_url(lines.push(line)) == first_url(lines),
        first_url(lines) is None ==> first_url(lines.push(line)) == url_in_line(line),
{
    assert(lines.push(line).drop_last() =~= lines);
}

} // verus!
