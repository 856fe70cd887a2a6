//! Running the classifier again over lines that are stored.
//!
//! A template is almost always taught long after the lines it matches were
//! logged, so a death that is recognised today was stored as a notice.
use vstd::prelude::*;
use vstd::string::*;

use crate::classify;
use crate::classify::{Classifier, Kind};
use crate::deaths;
use crate::text;

verus! {

/// A line as it is stored.
pub struct StoredRow {
    pub id: i64,
    pub source: String,
    pub kind: String,
    pub subject_name: Option<String>,
    pub killer_name: Option<String>,
    pub plain_text: String,
}

/// A row whose classification changed, and what it should become.
pub struct Change {
    pub id: i64,
    pub was_kind: String,
    pub was_subject: Option<String>,
    pub was_killer: Option<String>,
    /// What the row should be now: `death` or `chat`.
    pub kind: String,
    pub subject: Option<String>,
    pub killer: Option<String>,
    pub sender: Option<String>,
    pub prefix: Option<String>,
    pub content: Option<String>,
    pub plain_text: String,
}

/// The contents of a [`Change`].
#[verifier::ext_equal]
pub struct ChangeText {
    pub id: i64,
    pub was_kind: Seq<char>,
    pub was_subject: Option<Seq<char>>,
    pub was_killer: Option<Seq<char>>,
    pub kind: Seq<char>,
    pub subject: Option<Seq<char>>,
    pub killer: Option<Seq<char>>,
    pub sender: Option<Seq<char>>,
    pub prefix: Option<Seq<char>>,
    pub content: Option<Seq<char>>,
    pub plain_text: Seq<char>,
}

impl View for Change {
    type V = ChangeText;

    open spec fn view(&self) -> ChangeText {
        ChangeText {
            id: self.id,
            was_kind: self.was_kind@,
            was_subject: text::opt_text(self.was_subject),
            was_killer: text::opt_text(self.was_killer),
            kind: self.kind@,
            subject: text::opt_text(self.subject),
            killer: text::opt_text(self.killer),
            sender: text::opt_text(self.sender),
            prefix: text::opt_text(self.prefix),
            content: text::opt_text(self.content),
            plain_text: self.plain_text@,
        }
    }
}

pub open spec fn change_texts(v: Seq<Change>) -> Seq<ChangeText> {
    Seq::new(v.len(), |i: int| v[i]@)
}

/// Whether a line was no death at all before, as opposed to one with the wrong
/// names.
pub open spec fn rescued(c: ChangeText) -> bool {
    c.was_kind != "death"@
}

impl Change {
    /// A line that was not previously a death at all, as opposed to one that was
    /// a death with the wrong names on it.
    pub fn is_rescue(&self) -> (b: bool)
        ensures
            b == rescued(self@),
    {
        !text::same(&self.was_kind, "death")
    }
}

/// What a pass over the stored lines found.
pub struct Scan {
    pub scanned: usize,
    pub changes: Vec<Change>,
    pub unchanged: usize,
    pub not_a_death: usize,
    /// Rows stored as deaths that no longer match anything. Never written back.
    pub downgrades: Vec<String>,
}

/// The contents of a [`Scan`].
#[verifier::ext_equal]
pub struct ScanText {
    pub scanned: int,
    pub changes: Seq<ChangeText>,
    pub unchanged: int,
    pub not_a_death: int,
    pub downgrades: Seq<Seq<char>>,
}

impl View for Scan {
    type V = ScanText;

    open spec fn view(&self) -> ScanText {
        ScanText {
            scanned: self.scanned as int,
            changes: change_texts(self.changes@),
            unchanged: self.unchanged as int,
            not_a_death: self.not_a_death as int,
            downgrades: text::texts(self.downgrades@),
        }
    }
}

/// What a line reads as today.
pub open spec fn reads_as(matchers: Seq<deaths::MatcherText>, row: StoredRow) -> classify::LineText {
    classify::classified(matchers, row.plain_text@, row.source@ == "player"@, false, None)
}

/// Whether a notice now reads as chat of somebody. Chat is safe to rewrite: no
/// presence event belongs to it.
pub open spec fn now_chat(row: StoredRow, line: classify::LineText) -> bool {
    row.kind@ == "server"@ && line.kind == Kind::Chat && line.sender is Some
}

/// Whether a death is stored with the names it has.
pub open spec fn right_already(row: StoredRow, line: classify::LineText) -> bool {
    row.kind@ == "death"@ && text::opt_text(row.subject_name) == line.subject && text::opt_text(
        row.killer_name,
    ) == line.killer
}

pub open spec fn change_of(row: StoredRow, line: classify::LineText) -> ChangeText {
    ChangeText {
        id: row.id,
        was_kind: row.kind@,
        was_subject: text::opt_text(row.subject_name),
        was_killer: text::opt_text(row.killer_name),
        kind: if line.kind == Kind::Death {
            "death"@
        } else {
            "chat"@
        },
        subject: line.subject,
        killer: line.killer,
        sender: line.sender,
        prefix: line.sender_label,
        content: line.content,
        plain_text: row.plain_text@,
    }
}

/// What one row adds to a scan. A death that matches nothing any more is only
/// reported: losing one is worse than keeping one that is stale.
pub open spec fn scan_row(s: ScanText, row: StoredRow, line: classify::LineText) -> ScanText {
    if line.kind != Kind::Death && !now_chat(row, line) {
        if row.kind@ == "death"@ {
            ScanText { downgrades: s.downgrades.push(row.plain_text@), ..s }
        } else {
            ScanText { not_a_death: s.not_a_death + 1, ..s }
        }
    } else if right_already(row, line) {
        ScanText { unchanged: s.unchanged + 1, ..s }
    } else {
        ScanText { changes: s.changes.push(change_of(row, line)), ..s }
    }
}

/// What a pass over the rows finds.
pub open spec fn scanned(matchers: Seq<deaths::MatcherText>, rows: Seq<StoredRow>) -> ScanText
    decreases rows.len(),
{
    if rows.len() == 0 {
        ScanText {
            scanned: 0,
            changes: Seq::empty(),
            unchanged: 0,
            not_a_death: 0,
            downgrades: Seq::empty(),
        }
    } else {
        let before = scanned(matchers, rows.drop_last());
        let after = scan_row(before, rows.last(), reads_as(matchers, rows.last()));
        ScanText { scanned: rows.len() as int, ..after }
    }
}

/// Classifies every stored row again and reports what would change.
pub fn scan(classifier: &Classifier, rows: &Vec<StoredRow>) -> (r: Scan)
    ensures
        r@ == scanned(deaths::matcher_texts(classifier.deaths@), rows@),
{
    let ghost matchers = deaths::matcher_texts(classifier.deaths@);
    let mut changes: Vec<Change> = Vec::new();
    let mut unchanged: usize = 0;
    let mut not_a_death: usize = 0;
    let mut downgrades: Vec<String> = Vec::new();
    assert(change_texts(changes@) =~= Seq::<ChangeText>::empty());
    assert(text::texts(downgrades@) =~= Seq::<Seq<char>>::empty());
    for i in 0..rows.len()
        invariant
            matchers == deaths::matcher_texts(classifier.deaths@),
            unchanged <= i,
            not_a_death <= i,
            scanned(matchers, rows@.take(i as int)) == (ScanText {
                scanned: i as int,
                changes: change_texts(changes@),
                unchanged: unchanged as int,
                not_a_death: not_a_death as int,
                downgrades: text::texts(downgrades@),
            }),
    {
        let row = &rows[i];
        proof {
            assert(rows@.take(i + 1).drop_last() =~= rows@.take(i as int));
            assert(rows@.take(i + 1).last() == *row);
        }
        let line = classify::classify(
            classifier,
            &row.plain_text,
            text::same(&row.source, "player"),
            false,
            None,
        );
        let ghost seen = line@;
        assert(seen == reads_as(matchers, *row));
        let was_death = text::same(&row.kind, "death");
        let rescue_as_chat = text::same(&row.kind, "server") && line.kind == Kind::Chat
            && line.sender.is_some();
        if line.kind != Kind::Death && !rescue_as_chat {
            if was_death {
                let t = row.plain_text.clone();
                proof {
                    text::lemma_texts_push(downgrades@, t);
                }
                downgrades.push(t);
            } else {
                not_a_death = not_a_death + 1;
            }
        } else if was_death && text::same_opt(&row.subject_name, &line.subject) && text::same_opt(
            &row.killer_name,
            &line.killer,
        ) {
            unchanged = unchanged + 1;
        } else {
            let ghost before = changes@;
            let change = Change {
                id: row.id,
                was_kind: row.kind.clone(),
                was_subject: text::copy_opt(&row.subject_name),
                was_killer: text::copy_opt(&row.killer_name),
                kind: if line.kind == Kind::Death {
                    text::copy("death")
                } else {
                    text::copy("chat")
                },
                subject: line.subject,
                killer: line.killer,
                sender: line.sender,
                prefix: line.sender_label,
                content: line.content,
                plain_text: row.plain_text.clone(),
            };
            assert(change@ =~= change_of(*row, seen));
            changes.push(change);
            assert(change_texts(changes@) =~= change_texts(before).push(change@));
        }
    }
    assert(rows@.take(rows.len() as int) =~= rows@);
    Scan { scanned: rows.len(), changes, unchanged, not_a_death, downgrades }
}

/// A scan never takes a death away: every change makes its row a death or chat,
/// and only a notice becomes chat.
pub proof fn lemma_no_death_is_lost(matchers: Seq<deaths::MatcherText>, rows: Seq<StoredRow>, i: int)
    requires
        0 <= i < scanned(matchers, rows).changes.len(),
    ensures
        ({
            let c = scanned(matchers, rows).changes[i];
            c.kind == "death"@ || (c.kind == "chat"@ && c.was_kind == "server"@)
        }),
    decreases rows.len(),
{
    let before = scanned(matchers, rows.drop_last());
    if i < before.changes.len() {
        lemma_no_death_is_lost(matchers, rows.drop_last(), i);
    }
}

/// Every row is counted once.
pub proof fn lemma_every_row_is_counted(matchers: Seq<deaths::MatcherText>, rows: Seq<StoredRow>)
    ensures
        ({
            let s = scanned(matchers, rows);
            s.scanned == rows.len() && s.scanned == s.changes.len() + s.unchanged + s.not_a_death
                + s.downgrades.len()
        }),
    decreases rows.len(),
{
    if rows.len() > 0 {
        lemma_every_row_is_counted(matchers, rows.drop_last());
    }
}

/// Whether a row is what another one becomes once a change is written to it.
pub open spec fn written(row: StoredRow, c: ChangeText, now: StoredRow) -> bool {
    &&& now.id == row.id
    &&& now.source@ == row.source@
    &&& now.plain_text@ == row.plain_text@
    &&& now.kind@ == c.kind
    &&& text::opt_text(now.subject_name) == c.subject
    &&& text::opt_text(now.killer_name) == c.killer
}

/// Corrections settle: a row to which its change was written is chat, which a scan
/// does not look at, or a death that the next scan finds right.
pub proof fn lemma_corrections_settle(
    matchers: Seq<deaths::MatcherText>,
    row: StoredRow,
    c: ChangeText,
    now: StoredRow,
)
    requires
        scanned(matchers, seq![row]).changes == seq![c],
        written(row, c, now),
    ensures
        now.kind@ == "chat"@ || scanned(matchers, seq![now]) == (ScanText {
            scanned: 1,
            changes: Seq::empty(),
            unchanged: 1,
            not_a_death: 0,
            downgrades: Seq::empty(),
        }),
{
    let line = reads_as(matchers, row);
    let none = scanned(matchers, Seq::<StoredRow>::empty());
    assert(seq![row].drop_last() =~= Seq::<StoredRow>::empty());
    assert(seq![now].drop_last() =~= Seq::<StoredRow>::empty());
    assert(scanned(matchers, seq![row]).changes == scan_row(none, row, line).changes);
    if line.kind != Kind::Death && !now_chat(row, line) || right_already(row, line) {
        assert(scanned(matchers, seq![row]).changes.len() == 0);
        assert(seq![c].len() == 1);
    } else {
        assert(none.changes.push(change_of(row, line))[0] == change_of(row, line));
        assert(seq![c][0] == c);
        assert(c == change_of(row, line));
    }
}

/// Stored chat without the decoration of its sender.
pub struct BareRow {
    pub id: i64,
    pub plain_text: String,
}

/// The decorations that can be filled in.
pub open spec fn prefixes(matchers: Seq<deaths::MatcherText>, rows: Seq<BareRow>) -> Seq<(i64, Seq<char>)>
    decreases rows.len(),
{
    if rows.len() == 0 {
        Seq::empty()
    } else {
        let before = prefixes(matchers, rows.drop_last());
        match classify::classified(
            matchers,
            rows.last().plain_text@,
            false,
            false,
            None,
        ).sender_label {
            Some(label) => before.push((rows.last().id, label)),
            None => before,
        }
    }
}

pub open spec fn update_texts(v: Seq<(i64, String)>) -> Seq<(i64, Seq<char>)> {
    Seq::new(v.len(), |i: int| (v[i].0, v[i].1@))
}

/// Finds the decoration of senders whose rows were stored without it. Nothing
/// else of those rows is touched.
pub fn backfill_prefixes(classifier: &Classifier, rows: &Vec<BareRow>) -> (r: Vec<(i64, String)>)
    ensures
        update_texts(r@) == prefixes(deaths::matcher_texts(classifier.deaths@), rows@),
{
    let ghost matchers = deaths::matcher_texts(classifier.deaths@);
    let mut r: Vec<(i64, String)> = Vec::new();
    assert(update_texts(r@) =~= prefixes(matchers, rows@.take(0)));
    for i in 0..rows.len()
        invariant
            matchers == deaths::matcher_texts(classifier.deaths@),
            update_texts(r@) == prefixes(matchers, rows@.take(i as int)),
    {
        assert(rows@.take(i + 1).drop_last() =~= rows@.take(i as int));
        let line = classify::classify(classifier, &rows[i].plain_text, false, false, None);
        if let Some(label) = line.sender_label {
            let ghost before = r@;
            r.push((rows[i].id, label));
            assert(update_texts(r@) =~= update_texts(before).push((rows[i as int].id, label@)));
        }
    }
    assert(rows@.take(rows.len() as int) =~= rows@);
    r
}

// ---------------------------------------------------------------------------
// The report on a scan
// ---------------------------------------------------------------------------

/// A group of changes in the report.
#[derive(Clone, Copy, PartialEq, Eq, Structural)]
pub enum Part {
    /// Deaths that were filed as notices.
    Deaths,
    /// Chat that was filed as notices.
    Chat,
    /// Deaths with the wrong names.
    Corrections,
    /// Changes that give a victim a death.
    Victims,
}

pub open spec fn belongs(part: Part, c: ChangeText) -> bool {
    match part {
        Part::Deaths => rescued(c) && c.kind == "death"@,
        Part::Chat => c.kind == "chat"@,
        Part::Corrections => !rescued(c),
        Part::Victims => rescued(c) && c.subject is Some,
    }
}

fn is_in(part: Part, c: &Change) -> (b: bool)
    ensures
        b == belongs(part, c@),
{
    match part {
        Part::Deaths => c.is_rescue() && text::same(&c.kind, "death"),
        Part::Chat => text::same(&c.kind, "chat"),
        Part::Corrections => !c.is_rescue(),
        Part::Victims => c.is_rescue() && c.subject.is_some(),
    }
}

pub open spec fn or_dash(o: Option<Seq<char>>) -> Seq<char> {
    match o {
        Some(s) => s,
        None => "-"@,
    }
}

fn name_or_dash(o: &Option<String>) -> (r: &str)
    ensures
        r@ == or_dash(text::opt_text(*o)),
{
    match o {
        Some(s) => s.as_str(),
        None => "-",
    }
}

/// How the report shows a change.
pub open spec fn part_line(part: Part, c: ChangeText) -> Seq<char> {
    match part {
        Part::Deaths | Part::Victims => "  ["@ + c.was_kind + "] "@ + c.plain_text
            + "  ->  victim "@ + or_dash(c.subject) + ", killer "@ + or_dash(c.killer),
        Part::Chat => "  "@ + c.plain_text + "  ->  "@ + or_dash(c.sender) + " said "@ + text::str_debug(
            text::text_or_empty(c.content),
        ),
        Part::Corrections => "  "@ + c.plain_text + "\n    victim "@ + or_dash(c.was_subject)
            + " -> "@ + or_dash(c.subject) + ", killer "@ + or_dash(c.was_killer) + " -> "@
            + or_dash(c.killer),
    }
}

fn show(part: Part, c: &Change) -> (r: String)
    ensures
        r@ == part_line(part, c@),
{
    match part {
        Part::Deaths | Part::Victims => {
            let mut s = text::cat6(
                "  [",
                &c.was_kind,
                "] ",
                &c.plain_text,
                "  ->  victim ",
                name_or_dash(&c.subject),
            );
            s.append(", killer ");
            s.append(name_or_dash(&c.killer));
            s
        },
        Part::Chat => {
            let said = match &c.content {
                Some(t) => text::quoted(t),
                None => text::quoted(""),
            };
            proof {
                reveal_strlit("");
                assert(""@ =~= Seq::<char>::empty());
            }
            text::cat6(
                "  ",
                &c.plain_text,
                "  ->  ",
                name_or_dash(&c.sender),
                " said ",
                &said,
            )
        },
        Part::Corrections => {
            let mut s = text::cat6(
                "  ",
                &c.plain_text,
                "\n    victim ",
                name_or_dash(&c.was_subject),
                " -> ",
                name_or_dash(&c.subject),
            );
            s.append(", killer ");
            s.append(name_or_dash(&c.was_killer));
            s.append(" -> ");
            s.append(name_or_dash(&c.killer));
            s
        },
    }
}

/// The lines of a part.
pub open spec fn part_lines(part: Part, changes: Seq<ChangeText>) -> Seq<Seq<char>>
    decreases changes.len(),
{
    if changes.len() == 0 {
        Seq::empty()
    } else if belongs(part, changes.last()) {
        part_lines(part, changes.drop_last()).push(part_line(part, changes.last()))
    } else {
        part_lines(part, changes.drop_last())
    }
}

fn show_all(part: Part, changes: &Vec<Change>) -> (r: Vec<String>)
    ensures
        text::texts(r@) == part_lines(part, change_texts(changes@)),
        r.len() <= changes.len(),
{
    let ghost all = change_texts(changes@);
    let mut r: Vec<String> = Vec::new();
    assert(text::texts(r@) =~= part_lines(part, all.take(0)));
    for i in 0..changes.len()
        invariant
            all == change_texts(changes@),
            text::texts(r@) == part_lines(part, all.take(i as int)),
            r.len() <= i,
    {
        assert(all.take(i + 1).drop_last() =~= all.take(i as int));
        if is_in(part, &changes[i]) {
            let line = show(part, &changes[i]);
            proof {
                text::lemma_texts_push(r@, line);
            }
            r.push(line);
        }
    }
    assert(all.take(all.len() as int) =~= all);
    r
}

proof fn lemma_parts_are_apart(changes: Seq<ChangeText>)
    ensures
        part_lines(Part::Deaths, changes).len() + part_lines(Part::Chat, changes).len()
            <= changes.len(),
    decreases changes.len(),
{
    reveal_strlit("death");
    reveal_strlit("chat");
    assert("death"@ != "chat"@) by {
        assert("death"@.len() == 5 && "chat"@.len() == 4);
    }
    if changes.len() > 0 {
        lemma_parts_are_apart(changes.drop_last());
    }
}

/// The first `n` of the lines.
pub open spec fn at_most_lines(lines: Seq<Seq<char>>, n: int) -> Seq<Seq<char>> {
    if lines.len() > n {
        lines.take(n)
    } else {
        lines
    }
}

/// Adds the first `n` lines.
fn add_lines(out: &mut Vec<String>, lines: &Vec<String>, n: usize)
    ensures
        text::texts(final(out)@) == text::texts(old(out)@) + at_most_lines(
            text::texts(lines@),
            n as int,
        ),
{
    let ghost before = text::texts(out@);
    let ghost all = text::texts(lines@);
    let m: usize = if lines.len() > n {
        n
    } else {
        lines.len()
    };
    assert(before =~= before + all.take(0));
    for i in 0..m
        invariant
            m <= lines.len(),
            all == text::texts(lines@),
            text::texts(out@) == before + all.take(i as int),
    {
        let line = lines[i].clone();
        proof {
            text::lemma_texts_push(out@, line);
            assert(before + all.take(i + 1) =~= (before + all.take(i as int)).push(all[i as int]));
        }
        out.push(line);
    }
    assert(all.take(m as int) =~= at_most_lines(all, n as int));
}

fn add_line(out: &mut Vec<String>, line: String)
    ensures
        text::texts(final(out)@) == text::texts(old(out)@).push(line@),
{
    proof {
        text::lemma_texts_push(out@, line);
    }
    out.push(line);
}

/// Whether a killer counts on the leaderboard: only known players do.
pub open spec fn counts(known: Set<Seq<char>>, killer: Option<Seq<char>>) -> bool {
    killer matches Some(name) && known.contains(text::unicode_lower(name))
}

/// The killers that gain a kill, once for each.
pub open spec fn credited(changes: Seq<ChangeText>, known: Set<Seq<char>>) -> Seq<Seq<char>>
    decreases changes.len(),
{
    if changes.len() == 0 {
        Seq::empty()
    } else {
        let c = changes.last();
        let before = credited(changes.drop_last(), known);
        if counts(known, c.killer) && !counts(known, c.was_killer) {
            before.push(c.killer->0)
        } else {
            before
        }
    }
}

/// How many new killers are no known players.
pub open spec fn unknown_killers(changes: Seq<ChangeText>, known: Set<Seq<char>>) -> int
    decreases changes.len(),
{
    if changes.len() == 0 {
        0
    } else {
        let c = changes.last();
        unknown_killers(changes.drop_last(), known) + (if c.killer is Some && !counts(
            known,
            c.killer,
        ) && !counts(known, c.was_killer) {
            1int
        } else {
            0int
        })
    }
}

/// How often a name occurs.
pub open spec fn times(names: Seq<Seq<char>>, name: Seq<char>) -> int
    decreases names.len(),
{
    if names.len() == 0 {
        0
    } else {
        times(names.drop_last(), name) + (if names.last() == name {
            1int
        } else {
            0int
        })
    }
}

/// Kills by player.
pub type Tally = Seq<(int, Seq<char>)>;

pub open spec fn tally_text(v: Seq<(usize, String)>) -> Tally {
    Seq::new(v.len(), |i: int| (v[i].0 as int, v[i].1@))
}

/// More kills come first, and of those with as many the name that sorts first.
pub open spec fn ahead(a: (int, Seq<char>), b: (int, Seq<char>)) -> bool {
    a.0 > b.0 || (a.0 == b.0 && text::at_most(a.1, b.1) && a.1 != b.1)
}

/// Whether a tally is in order.
pub open spec fn in_rank(t: Tally) -> bool {
    forall|i: int, j: int| 0 <= i < j < t.len() ==> #[trigger] ahead(t[i], t[j])
}

/// Whether a name stands in a tally.
pub open spec fn stands_in(t: Tally, name: Seq<char>) -> bool {
    exists|i: int| 0 <= i < t.len() && #[trigger] t[i].1 == name
}

/// Whether a tally counts the names: each name once, with how often it occurs, in
/// order.
pub open spec fn tallies(t: Tally, names: Seq<Seq<char>>) -> bool {
    &&& in_rank(t)
    &&& forall|i: int| 0 <= i < t.len() ==> #[trigger] t[i].0 == times(names, t[i].1) && t[i].0 > 0
    &&& forall|k: int| 0 <= k < names.len() ==> #[trigger] stands_in(t, names[k])
}

proof fn lemma_times(names: Seq<Seq<char>>, name: Seq<char>)
    ensures
        0 <= times(names, name) <= names.len(),
        times(names, name) > 0 <==> names.contains(name),
    decreases names.len(),
{
    if names.len() > 0 {
        let rest = names.drop_last();
        lemma_times(rest, name);
        if rest.contains(name) {
            let k = choose|k: int| 0 <= k < rest.len() && rest[k] == name;
            assert(names[k] == name);
        }
        if names.contains(name) && names.last() != name {
            let k = choose|k: int| 0 <= k < names.len() && names[k] == name;
            assert(rest[k] == name);
        }
        if names.last() == name {
            assert(names[names.len() - 1] == name);
        }
    }
}

fn count_times(names: &Vec<String>, name: &String) -> (n: usize)
    ensures
        n == times(text::texts(names@), name@),
{
    let ghost all = text::texts(names@);
    let mut n: usize = 0;
    for i in 0..names.len()
        invariant
            all == text::texts(names@),
            n <= i,
            n == times(all.take(i as int), name@),
    {
        assert(all.take(i + 1).drop_last() =~= all.take(i as int));
        if names[i] == *name {
            n = n + 1;
        }
    }
    assert(all.take(all.len() as int) =~= all);
    n
}

/// Counts the names.
pub fn tally(names: &Vec<String>) -> (r: Vec<(usize, String)>)
    ensures
        tallies(tally_text(r@), text::texts(names@)),
{
    let ghost all = text::texts(names@);
    let mut distinct: Vec<String> = Vec::new();
    assert(text::texts(distinct@).to_set() =~= all.take(0).to_set());
    for i in 0..names.len()
        invariant
            all == text::texts(names@),
            text::strictly_sorted(text::texts(distinct@)),
            text::texts(distinct@).to_set() == all.take(i as int).to_set(),
    {
        text::insert_sorted(&mut distinct, names[i].clone());
        proof {
            let now = all.take(i + 1);
            assert(now =~= all.take(i as int).push(all[i as int]));
            assert(now.to_set() =~= all.take(i as int).to_set().insert(all[i as int])) by {
                assert forall|x: Seq<char>| now.to_set().contains(x) == all.take(
                    i as int,
                ).to_set().insert(all[i as int]).contains(x) by {
                    if now.contains(x) && x != all[i as int] {
                        let k = choose|k: int| 0 <= k < now.len() && now[k] == x;
                        assert(all.take(i as int)[k] == x);
                    }
                    if all.take(i as int).contains(x) {
                        let k = choose|k: int|
                            0 <= k < all.take(i as int).len() && all.take(i as int)[k] == x;
                        assert(now[k] == x);
                    }
                    if x == all[i as int] {
                        assert(now[i as int] == x);
                    }
                }
            }
        }
    }
    assert(all.take(all.len() as int) =~= all);
    let ghost sorted = text::texts(distinct@);
    let mut r: Vec<(usize, String)> = Vec::new();
    for i in 0..distinct.len()
        invariant
            all == text::texts(names@),
            sorted == text::texts(distinct@),
            text::strictly_sorted(sorted),
            sorted.to_set() == all.to_set(),
            in_rank(tally_text(r@)),
            r.len() == i,
            forall|k: int|
                0 <= k < r.len() ==> #[trigger] tally_text(r@)[k].0 == times(
                    all,
                    tally_text(r@)[k].1,
                ) && tally_text(r@)[k].0 > 0,
            forall|k: int|
                0 <= k < r.len() ==> sorted.take(i as int).contains(
                    #[trigger] tally_text(r@)[k].1,
                ),
            forall|k: int| 0 <= k < i ==> #[trigger] stands_in(tally_text(r@), sorted[k]),
    {
        let name = distinct[i].clone();
        let n: usize = count_times(names, &name);
        let ghost before = tally_text(r@);
        let mut k: usize = r.len();
        while k > 0 && r[k - 1].0 < n
            invariant
                k <= r.len(),
                before == tally_text(r@),
                in_rank(before),
                forall|j: int| k <= j < r.len() ==> #[trigger] before[j].0 < n,
            decreases k,
        {
            assert(before[k - 1].0 == r[k - 1].0);
            k = k - 1;
        }
        let ghost item = (n as int, name@);
        proof {
            assert(sorted[i as int] == name@);
            assert(sorted.contains(name@));
            assert(sorted.to_set().contains(name@));
            assert(all.to_set().contains(name@));
            lemma_times(all, name@);
            if k > 0 {
                assert(before[k - 1].0 == r[k - 1].0);
            }
            assert forall|j: int| 0 <= j < k implies #[trigger] ahead(before[j], item) by {
                if j < k - 1 {
                    assert(ahead(before[j], before[k - 1]));
                }
                let part = sorted.take(i as int);
                assert(part.contains(before[j].1));
                let m = choose|m: int| 0 <= m < part.len() && part[m] == before[j].1;
                assert(text::at_most(sorted[m], sorted[i as int]));
            }
            assert forall|j: int| k <= j < before.len() implies #[trigger] ahead(item, before[j]) by {
            }
        }
        r.insert(k, (n, name));
        proof {
            let after = tally_text(r@);
            assert(after =~= before.insert(k as int, item));
            assert forall|a: int, b: int| 0 <= a < b < after.len() implies #[trigger] ahead(
                after[a],
                after[b],
            ) by {
                if a < k && b == k {
                    assert(ahead(before[a], item));
                } else if a == k {
                    assert(ahead(item, before[b - 1]));
                } else {
                    let x = if a < k {
                        a
                    } else {
                        a - 1
                    };
                    let y = if b < k {
                        b
                    } else {
                        b - 1
                    };
                    assert(ahead(before[x], before[y]));
                }
            }
            let next = sorted.take(i + 1);
            assert forall|j: int| 0 <= j < after.len() implies #[trigger] after[j].0 == times(
                all,
                after[j].1,
            ) && after[j].0 > 0 by {
                if j != k {
                    let x = if j < k {
                        j
                    } else {
                        j - 1
                    };
                    assert(after[j] == before[x]);
                    assert(before[x].0 > 0);
                }
            }
            assert forall|j: int| 0 <= j < after.len() implies next.contains(
                #[trigger] after[j].1,
            ) by {
                if j == k {
                    assert(next[i as int] == name@);
                } else {
                    let x = if j < k {
                        j
                    } else {
                        j - 1
                    };
                    assert(after[j] == before[x]);
                    let part = sorted.take(i as int);
                    assert(part.contains(before[x].1));
                    let m = choose|m: int| 0 <= m < part.len() && part[m] == before[x].1;
                    assert(next[m] == before[x].1);
                }
            }
            assert forall|j: int| 0 <= j < i + 1 implies #[trigger] stands_in(after, sorted[j]) by {
                if j == i {
                    assert(after[k as int].1 == sorted[j]);
                } else {
                    assert(stands_in(before, sorted[j]));
                    let m = choose|m: int| 0 <= m < before.len() && #[trigger] before[m].1 == sorted[j];
                    let x = if m < k {
                        m
                    } else {
                        m + 1
                    };
                    assert(after[x].1 == sorted[j]);
                }
            }
        }
    }
    proof {
        let t = tally_text(r@);
        assert forall|k: int| 0 <= k < all.len() implies #[trigger] stands_in(t, all[k]) by {
            assert(all.contains(all[k]));
            assert(all.to_set().contains(all[k]));
            assert(sorted.to_set().contains(all[k]));
            let m = choose|m: int| 0 <= m < sorted.len() && sorted[m] == all[k];
            assert(stands_in(t, sorted[m]));
        }
    }
    r
}

/// A number with spaces before it, up to a width.
pub open spec fn padded(n: int, width: int) -> Seq<char> {
    let digits = text::decimal(n);
    if digits.len() >= width {
        digits
    } else {
        Seq::new((width - digits.len()) as nat, |i: int| ' ') + digits
    }
}

pub fn pad(n: u64, width: usize) -> (r: String)
    ensures
        r@ == padded(n as int, width as int),
{
    let digits = text::number(n);
    let have: usize = text::chars_of(&digits).len();
    let mut r = String::new();
    let mut k: usize = have;
    while k < width
        invariant
            have == digits@.len(),
            k <= width || k == have,
            have <= k,
            r@ == Seq::new((k - have) as nat, |i: int| ' '),
        decreases width - k,
    {
        r.push(' ');
        k = k + 1;
        assert(r@ =~= Seq::new((k - have) as nat, |i: int| ' '));
    }
    r.append(&digits);
    assert(r@ =~= padded(n as int, width as int));
    r
}

pub open spec fn tally_lines(t: Tally) -> Seq<Seq<char>> {
    Seq::new(t.len(), |i: int| "  "@ + padded(t[i].0, 3) + "  "@ + t[i].1)
}

/// The first line of the report.
pub open spec fn summary_line(s: ScanText) -> Seq<char> {
    let deaths = part_lines(Part::Deaths, s.changes).len() as int;
    let chat = part_lines(Part::Chat, s.changes).len() as int;
    "\nscanned "@ + text::decimal(s.scanned) + " row(s): "@ + text::decimal(deaths)
        + " unrecognised death(s), "@ + text::decimal(chat) + " unrecognised chat message(s), "@
        + text::decimal(s.changes.len() - deaths - chat)
        + " death(s) with the wrong names, "@ + text::decimal(s.unchanged)
        + " already correct, "@ + text::decimal(s.not_a_death) + " unclassified"@
}

/// The deaths that match nothing any more.
pub open spec fn downgrade_lines(s: ScanText) -> Seq<Seq<char>> {
    if s.downgrades.len() == 0 {
        Seq::empty()
    } else {
        seq![
            "\n"@ + text::decimal(s.downgrades.len() as int)
                + " row(s) stored as deaths no longer match any template — left alone:"@,
        ] + at_most_lines(indented(s.downgrades), 10)
    }
}

pub open spec fn indented(lines: Seq<Seq<char>>) -> Seq<Seq<char>> {
    Seq::new(lines.len(), |i: int| "  "@ + lines[i])
}

pub open spec fn chat_lines(changes: Seq<ChangeText>) -> Seq<Seq<char>> {
    let chat = part_lines(Part::Chat, changes);
    if chat.len() == 0 {
        Seq::empty()
    } else {
        let shown = seq!["\nChat now recognised (was filed as a server notice):"@]
            + at_most_lines(chat, 15);
        if chat.len() > 15 {
            shown.push("  ... and "@ + text::decimal(chat.len() - 15) + " more"@)
        } else {
            shown
        }
    }
}

pub open spec fn correction_lines(changes: Seq<ChangeText>) -> Seq<Seq<char>> {
    let wrong = part_lines(Part::Corrections, changes);
    if wrong.len() == 0 {
        Seq::empty()
    } else {
        seq!["\nDeaths whose victim or killer was wrong:"@] + at_most_lines(wrong, 30)
    }
}

pub open spec fn kill_lines(t: Tally) -> Seq<Seq<char>> {
    if t.len() == 0 {
        Seq::empty()
    } else {
        seq!["\nPvP kills these corrections add to the leaderboard:"@] + tally_lines(t)
    }
}

pub open spec fn last_lines(changes: Seq<ChangeText>, known: Set<Seq<char>>) -> Seq<Seq<char>> {
    let victims = part_lines(Part::Victims, changes).len() as int;
    let lost = unknown_killers(changes, known);
    let gained = seq![
        "\n"@ + text::decimal(victims) + " death(s) will be added to victims' stats."@,
    ];
    if lost > 0 {
        gained.push(
            text::decimal(lost)
                + " corrected killer(s) are not in `players` — mobs, or players the bot never saw in the tab list. Those stay out of the leaderboard by design."@,
        )
    } else {
        gained
    }
}

/// The report, given the tally of kills.
pub open spec fn report_lines(s: ScanText, known: Set<Seq<char>>, t: Tally) -> Seq<Seq<char>> {
    let top = seq![summary_line(s)] + downgrade_lines(s);
    if s.changes.len() == 0 {
        top
    } else {
        top.push("\nDeaths now recognised:"@) + at_most_lines(
            part_lines(Part::Deaths, s.changes),
            30,
        ) + chat_lines(s.changes) + correction_lines(s.changes) + kill_lines(t) + last_lines(
            s.changes,
            known,
        )
    }
}

fn add_summary(out: &mut Vec<String>, scan: &Scan, deaths: usize, chat: usize)
    requires
        deaths == part_lines(Part::Deaths, scan@.changes).len(),
        chat == part_lines(Part::Chat, scan@.changes).len(),
    ensures
        text::texts(final(out)@) == text::texts(old(out)@).push(summary_line(scan@)),
{
    proof {
        lemma_parts_are_apart(scan@.changes);
    }
    let corrected: usize = scan.changes.len() - deaths - chat;
    let mut line = text::cat6(
        "\nscanned ",
        &text::number(scan.scanned as u64),
        " row(s): ",
        &text::number(deaths as u64),
        " unrecognised death(s), ",
        &text::number(chat as u64),
    );
    line.append(" unrecognised chat message(s), ");
    line.append(&text::number(corrected as u64));
    line.append(" death(s) with the wrong names, ");
    line.append(&text::number(scan.unchanged as u64));
    line.append(" already correct, ");
    line.append(&text::number(scan.not_a_death as u64));
    line.append(" unclassified");
    add_line(out, line);
}

fn add_downgrades(out: &mut Vec<String>, scan: &Scan)
    ensures
        text::texts(final(out)@) == text::texts(old(out)@) + downgrade_lines(scan@),
{
    let ghost before = text::texts(out@);
    if scan.downgrades.len() == 0 {
        assert(before =~= before + downgrade_lines(scan@));
        return;
    }
    let head = text::cat3(
        "\n",
        &text::number(scan.downgrades.len() as u64),
        " row(s) stored as deaths no longer match any template — left alone:",
    );
    let ghost first = head@;
    add_line(out, head);
    let mut lines: Vec<String> = Vec::new();
    let ghost all = text::texts(scan.downgrades@);
    assert(text::texts(lines@) =~= indented(all.take(0)));
    for i in 0..scan.downgrades.len()
        invariant
            all == text::texts(scan.downgrades@),
            text::texts(lines@) == indented(all.take(i as int)),
    {
        let line = text::cat2("  ", &scan.downgrades[i]);
        proof {
            text::lemma_texts_push(lines@, line);
            assert(indented(all.take(i + 1)) =~= indented(all.take(i as int)).push(line@));
        }
        lines.push(line);
    }
    assert(all.take(all.len() as int) =~= all);
    add_lines(out, &lines, 10);
    assert(text::texts(out@) =~= before + downgrade_lines(scan@));
}

fn add_chat(out: &mut Vec<String>, chat: &Vec<String>, Ghost(changes): Ghost<Seq<ChangeText>>)
    requires
        text::texts(chat@) == part_lines(Part::Chat, changes),
    ensures
        text::texts(final(out)@) == text::texts(old(out)@) + chat_lines(changes),
{
    let ghost before = text::texts(out@);
    if chat.len() > 0 {
        add_line(out, text::copy("\nChat now recognised (was filed as a server notice):"));
        add_lines(out, chat, 15);
        if chat.len() > 15 {
            add_line(
                out,
                text::cat3("  ... and ", &text::number((chat.len() - 15) as u64), " more"),
            );
        }
    }
    assert(text::texts(out@) =~= before + chat_lines(changes));
}

fn add_corrections(out: &mut Vec<String>, changes: &Vec<Change>)
    ensures
        text::texts(final(out)@) == text::texts(old(out)@) + correction_lines(
            change_texts(changes@),
        ),
{
    let ghost before = text::texts(out@);
    let wrong = show_all(Part::Corrections, changes);
    if wrong.len() > 0 {
        add_line(out, text::copy("\nDeaths whose victim or killer was wrong:"));
        add_lines(out, &wrong, 30);
    }
    assert(text::texts(out@) =~= before + correction_lines(change_texts(changes@)));
}

fn add_kills(out: &mut Vec<String>, t: &Vec<(usize, String)>)
    ensures
        text::texts(final(out)@) == text::texts(old(out)@) + kill_lines(tally_text(t@)),
{
    let ghost before = text::texts(out@);
    let ghost all = tally_text(t@);
    if t.len() == 0 {
        assert(before =~= before + kill_lines(all));
        return;
    }
    let ghost head = "\nPvP kills these corrections add to the leaderboard:"@;
    add_line(out, text::copy("\nPvP kills these corrections add to the leaderboard:"));
    assert(text::texts(out@) =~= before.push(head) + tally_lines(all).take(0));
    for i in 0..t.len()
        invariant
            all == tally_text(t@),
            text::texts(out@) == before.push(head) + tally_lines(all).take(i as int),
    {
        let line = text::cat4("  ", &pad(t[i].0 as u64, 3), "  ", &t[i].1);
        let ghost so_far = text::texts(out@);
        add_line(out, line);
        proof {
            assert(tally_lines(all)[i as int] == line@);
            assert(text::texts(out@) =~= before.push(head) + tally_lines(all).take(i + 1));
        }
    }
    assert(tally_lines(all).take(all.len() as int) =~= tally_lines(all));
    assert(text::texts(out@) =~= before + kill_lines(all));
}

/// What the corrections do to the leaderboard: who gains kills, and how many
/// killers are nobody that counts.
fn gains(changes: &Vec<Change>, known: &Vec<String>) -> (r: (Vec<String>, usize))
    ensures
        text::texts(r.0@) == credited(change_texts(changes@), text::texts(known@).to_set()),
        r.1 == unknown_killers(change_texts(changes@), text::texts(known@).to_set()),
{
    let ghost all = change_texts(changes@);
    let ghost players = text::texts(known@).to_set();
    let mut names: Vec<String> = Vec::new();
    let mut lost: usize = 0;
    assert(text::texts(names@) =~= credited(all.take(0), players));
    for i in 0..changes.len()
        invariant
            all == change_texts(changes@),
            players == text::texts(known@).to_set(),
            lost <= i,
            text::texts(names@) == credited(all.take(i as int), players),
            lost == unknown_killers(all.take(i as int), players),
    {
        assert(all.take(i + 1).drop_last() =~= all.take(i as int));
        let c = &changes[i];
        if let Some(killer) = &c.killer {
            let before = match &c.was_killer {
                Some(name) => text::listed(known, &text::to_lowercase(name)),
                None => false,
            };
            if !before {
                if text::listed(known, &text::to_lowercase(killer)) {
                    let name = killer.clone();
                    proof {
                        text::lemma_texts_push(names@, name);
                    }
                    names.push(name);
                } else {
                    lost = lost + 1;
                }
            }
        }
    }
    assert(all.take(all.len() as int) =~= all);
    (names, lost)
}

/// Says what a scan found. `known` holds the known players in lower case.
pub fn report(scan: &Scan, known: &Vec<String>) -> (lines: Vec<String>)
    ensures
        exists|t: Tally| #[trigger]
            tallies(t, credited(scan@.changes, text::texts(known@).to_set()))
                && text::texts(lines@) == report_lines(scan@, text::texts(known@).to_set(), t),
{
    let ghost s = scan@;
    let ghost players = text::texts(known@).to_set();
    let mut out: Vec<String> = Vec::new();
    assert(text::texts(out@) =~= Seq::<Seq<char>>::empty());
    let deaths = show_all(Part::Deaths, &scan.changes);
    let chat = show_all(Part::Chat, &scan.changes);
    let (names, lost) = gains(&scan.changes, known);
    let kills = tally(&names);
    let ghost t = tally_text(kills@);
    assert(tallies(t, credited(s.changes, players)));
    add_summary(&mut out, scan, deaths.len(), chat.len());
    assert(text::texts(out@) =~= seq![summary_line(s)]);
    add_downgrades(&mut out, scan);
    if scan.changes.len() == 0 {
        assert(text::texts(out@) == report_lines(s, players, t));
        return out;
    }
    add_line(&mut out, text::copy("\nDeaths now recognised:"));
    add_lines(&mut out, &deaths, 30);
    add_chat(&mut out, &chat, Ghost(s.changes));
    add_corrections(&mut out, &scan.changes);
    add_kills(&mut out, &kills);
    let ghost so_far = text::texts(out@);
    let victims = show_all(Part::Victims, &scan.changes);
    add_line(
        &mut out,
        text::cat3(
            "\n",
            &text::number(victims.len() as u64),
            " death(s) will be added to victims' stats.",
        ),
    );
    if lost > 0 {
        add_line(
            &mut out,
            text::cat2(
                &text::number(lost as u64),
                " corrected killer(s) are not in `players` — mobs, or players the bot never saw in the tab list. Those stay out of the leaderboard by design.",
            ),
        );
    }
    assert(text::texts(out@) =~= so_far + last_lines(s.changes, players));
    assert(text::texts(out@) == report_lines(s, players, t));
    out
}

/// There is one tally of a list of names: what the report shows is settled by the
/// scan and the known players.
pub proof fn lemma_one_tally(a: Tally, b: Tally, names: Seq<Seq<char>>)
    requires
        tallies(a, names),
        tallies(b, names),
    ensures
        a == b,
{
    lemma_tally_prefix(a, b, names, if a.len() < b.len() {
        a.len() as int
    } else {
        b.len() as int
    });
    lemma_tally_covers(a, b, names);
    lemma_tally_covers(b, a, names);
    assert(a =~= b);
}

/// Two tallies of one list agree as far as both go.
proof fn lemma_tally_prefix(a: Tally, b: Tally, names: Seq<Seq<char>>, n: int)
    requires
        tallies(a, names),
        tallies(b, names),
        0 <= n <= a.len(),
        n <= b.len(),
    ensures
        forall|i: int| 0 <= i < n ==> #[trigger] a[i] == b[i],
    decreases n,
{
    if n > 0 {
        lemma_tally_prefix(a, b, names, n - 1);
        let k = n - 1;
        if a[k] != b[k] {
            lemma_times(names, a[k].1);
            lemma_times(names, b[k].1);
            assert(a[k].0 == times(names, a[k].1));
            assert(b[k].0 == times(names, b[k].1));
            lemma_behind(a, b, names, k);
            lemma_behind(b, a, names, k);
            if a[k].1 == b[k].1 {
                assert(a[k] == b[k]);
            } else {
                if text::at_most(a[k].1, b[k].1) && text::at_most(b[k].1, a[k].1) {
                    text::lemma_at_most_antisymmetric(a[k].1, b[k].1);
                }
            }
        }
    }
}

/// The entry of one tally at the place where another differs comes later there.
proof fn lemma_behind(a: Tally, b: Tally, names: Seq<Seq<char>>, k: int)
    requires
        tallies(a, names),
        tallies(b, names),
        0 <= k < a.len(),
        k < b.len(),
        forall|i: int| 0 <= i < k ==> #[trigger] a[i] == b[i],
        a[k] != b[k],
    ensures
        ahead(b[k], a[k]),
{
    lemma_times(names, a[k].1);
    assert(a[k].0 > 0);
    assert(names.contains(a[k].1));
    let m = choose|m: int| 0 <= m < names.len() && names[m] == a[k].1;
    assert(stands_in(b, names[m]));
    let j = choose|j: int| 0 <= j < b.len() && #[trigger] b[j].1 == a[k].1;
    assert(b[j].0 == times(names, b[j].1));
    assert(a[k].0 == times(names, a[k].1));
    assert(b[j] == a[k]);
    if j < k {
        assert(a[j] == b[j]);
        assert(ahead(a[j], a[k]));
    } else {
        assert(j != k);
        assert(ahead(b[k], b[j]));
    }
}

/// A tally is not the beginning of a longer one.
proof fn lemma_tally_covers(a: Tally, b: Tally, names: Seq<Seq<char>>)
    requires
        tallies(a, names),
        tallies(b, names),
        forall|i: int| 0 <= i < a.len() && i < b.len() ==> #[trigger] a[i] == b[i],
    ensures
        b.len() <= a.len(),
{
    if a.len() < b.len() {
        let k = a.len() as int;
        lemma_times(names, b[k].1);
        assert(b[k].0 > 0);
        assert(names.contains(b[k].1));
        let m = choose|m: int| 0 <= m < names.len() && names[m] == b[k].1;
        assert(stands_in(a, names[m]));
        let j = choose|j: int| 0 <= j < a.len() && #[trigger] a[j].1 == b[k].1;
        assert(a[j] == b[j]);
        assert(ahead(b[j], b[k]));
        assert(b[j].0 == times(names, b[j].1));
        assert(b[k].0 == times(names, b[k].1));
    }
}

// ---------------------------------------------------------------------------
// What becomes of each row
// ---------------------------------------------------------------------------

/// A row that is read as a death with other names is corrected to those names, and the
/// correction keeps what was there; one with the right names stays. A notice that somebody
/// said is corrected to chat. A stored death that is read as none is left alone, and any
/// other row is only counted.
pub proof fn lemma_rows_are_scanned(
    matchers: Seq<deaths::MatcherText>,
    rows: Seq<StoredRow>,
    row: StoredRow,
)
    ensures
        ({
            let line = reads_as(matchers, row);
            let before = scanned(matchers, rows);
            let after = scanned(matchers, rows.push(row));
            let same_names = text::opt_text(row.subject_name) == line.subject && text::opt_text(
                row.killer_name,
            ) == line.killer;
            &&& after.scanned == rows.len() + 1
            &&& line.kind == Kind::Death && row.kind@ == "death"@ && same_names ==> after.unchanged
                == before.unchanged + 1 && after.changes == before.changes && after.downgrades
                == before.downgrades && after.not_a_death == before.not_a_death
            &&& line.kind == Kind::Death && !(row.kind@ == "death"@ && same_names) ==> {
                &&& after.changes.len() == before.changes.len() + 1
                &&& after.changes.last().id == row.id
                &&& after.changes.last().was_kind == row.kind@
                &&& after.changes.last().was_subject == text::opt_text(row.subject_name)
                &&& after.changes.last().was_killer == text::opt_text(row.killer_name)
                &&& after.changes.last().kind == "death"@
                &&& after.changes.last().subject == line.subject
                &&& after.changes.last().killer == line.killer
                &&& after.changes.last().plain_text == row.plain_text@
                &&& after.unchanged == before.unchanged
            }
            &&& line.kind == Kind::Chat && line.sender is Some && row.kind@ == "server"@ ==> {
                &&& after.changes.len() == before.changes.len() + 1
                &&& after.changes.last().id == row.id
                &&& after.changes.last().kind == "chat"@
                &&& after.changes.last().sender == line.sender
                &&& after.changes.last().prefix == line.sender_label
                &&& after.changes.last().content == line.content
            }
            &&& line.kind != Kind::Death && row.kind@ == "death"@ ==> after.downgrades
                == before.downgrades.push(row.plain_text@) && after.changes == before.changes
            &&& line.kind != Kind::Death && line.kind != Kind::Chat && row.kind@ != "death"@
                ==> after.not_a_death == before.not_a_death + 1 && after.changes == before.changes
        }),
{
    reveal_strlit("death");
    reveal_strlit("server");
    assert("death"@.len() == 5 && "server"@.len() == 6);
    assert(rows.push(row).drop_last() =~= rows);
}

/// A line of the report stands for each change it is about: deaths that were none before,
/// chat, deaths with the wrong names, and deaths that have a victim.
pub proof fn lemma_changes_are_reported(part: Part, changes: Seq<ChangeText>, c: ChangeText)
    ensures
        belongs(part, c) ==> part_lines(part, changes.push(c)) == part_lines(part, changes).push(
            part_line(part, c),
        ),
        !belongs(part, c) ==> part_lines(part, changes.push(c)) == part_lines(part, changes),
        belongs(Part::Deaths, c) <==> c.was_kind != "death"@ && c.kind == "death"@,
        belongs(Part::Chat, c) <==> c.kind == "chat"@,
        belongs(Part::Corrections, c) <==> c.was_kind == "death"@,
        belongs(Part::Victims, c) <==> c.was_kind != "death"@ && c.subject is Some,
        c.subject is Some && c.killer is Some ==> text::ends(
            part_line(Part::Deaths, c),
            "victim "@ + c.subject->0 + ", killer "@ + c.killer->0,
        ),
        c.sender is Some ==> text::begins(
            part_line(Part::Chat, c),
            "  "@ + c.plain_text + "  ->  "@ + c.sender->0 + " said "@,
        ),
{
    assert(changes.push(c).drop_last() =~= changes);
    if c.subject is Some && c.killer is Some {
        reveal_strlit("victim ");
        reveal_strlit("  ->  victim ");
        let a = part_line(Part::Deaths, c);
        let b = "victim "@ + c.subject->0 + ", killer "@ + c.killer->0;
        assert(a.skip(a.len() - b.len()) =~= b);
    }
    if c.sender is Some {
        let a = part_line(Part::Chat, c);
        let b = "  "@ + c.plain_text + "  ->  "@ + c.sender->0 + " said "@;
        assert(a.take(b.len() as int) =~= b);
    }
}

/// A kill is added where the killer is a player and the row had no player as its killer.
pub proof fn lemma_kills_are_credited(changes: Seq<ChangeText>, c: ChangeText, known: Set<Seq<char>>)
    ensures
        counts(known, None) == false,
        c.killer matches Some(k) ==> (known.contains(text::unicode_lower(k)) && !counts(
            known,
            c.was_killer,
        ) ==> credited(changes.push(c), known) == credited(changes, known).push(k)),
        c.killer is None || counts(known, c.was_killer) ==> credited(changes.push(c), known)
            == credited(changes, known),
        c.killer matches Some(k) ==> (!known.contains(text::unicode_lower(k)) && !counts(
            known,
            c.was_killer,
        ) ==> unknown_killers(changes.push(c), known) == unknown_killers(changes, known) + 1 && credited(
            changes.push(c),
            known,
        ) == credited(changes, known)),
        c.killer is None ==> unknown_killers(changes.push(c), known) == unknown_killers(changes, known),
{
    assert(changes.push(c).drop_last() =~= changes);
}

/// A tally counts each name as often as it stands in the list, the most often first.
pub proof fn lemma_tallies_count(t: Tally, names: Seq<Seq<char>>, name: Seq<char>, i: int, j: int)
    requires
        tallies(t, names),
        0 <= i < j < t.len(),
    ensures
        t[i].0 >= t[j].0,
        t[i].1 != t[j].1,
        t[i].0 == times(names, t[i].1),
        times(names.push(name), name) == times(names, name) + 1,
        forall|other: Seq<char>|
            other != name ==> #[trigger] times(names.push(name), other) == times(names, other),
{
    assert(ahead(t[i], t[j]));
    assert(names.push(name).drop_last() =~= names);
    if t[i].1 == t[j].1 {
        assert(t[i].0 == times(names, t[i].1));
        assert(t[j].0 == times(names, t[j].1));
    }
}

/// The label of a chat line is written to its own row, in order.
pub proof fn lemma_labels_are_written(
    matchers: Seq<deaths::MatcherText>,
    rows: Seq<BareRow>,
    row: BareRow,
)
    ensures
        ({
            let label = classify::classified(matchers, row.plain_text@, false, false, None).sender_label;
            &&& label matches Some(l) ==> prefixes(matchers, rows.push(row)) == prefixes(matchers, rows)
                .push((row.id, l))
            &&& label is None ==> prefixes(matchers, rows.push(row)) == prefixes(matchers, rows)
        }),
{
    assert(rows.push(row).drop_last() =~= rows);
}

/// The summary gives the counts of the scan, each with its own words.
pub proof fn lemma_summaries_count(s: ScanText)
    ensures
        text::begins(summary_line(s), "\nscanned "@ + text::decimal(s.scanned) + " row(s): "@),
        text::has_text(
            summary_line(s),
            text::decimal(part_lines(Part::Deaths, s.changes).len() as int) + " unrecognised death(s)"@,
        ),
        text::has_text(
            summary_line(s),
            text::decimal(part_lines(Part::Chat, s.changes).len() as int)
                + " unrecognised chat message(s)"@,
        ),
        text::has_text(summary_line(s), text::decimal(s.unchanged) + " already correct"@),
        text::ends(summary_line(s), text::decimal(s.not_a_death) + " unclassified"@),
{
    reveal_strlit(" unrecognised death(s)");
    reveal_strlit(" unrecognised death(s), ");
    reveal_strlit(" unrecognised chat message(s)");
    reveal_strlit(" unrecognised chat message(s), ");
    reveal_strlit(" already correct");
    reveal_strlit(" already correct, ");
    let line = summary_line(s);
    let deaths = part_lines(Part::Deaths, s.changes).len() as int;
    let chat = part_lines(Part::Chat, s.changes).len() as int;
    let wrong = s.changes.len() - deaths - chat;
    let a = "\nscanned "@ + text::decimal(s.scanned) + " row(s): "@;
    assert(line.take(a.len() as int) =~= a);
    let b = text::decimal(deaths) + " unrecognised death(s)"@;
    let rest_b = line.skip((a.len() + b.len()) as int);
    assert(line =~= a + b + rest_b);
    text::lemma_has_inside(a, b, rest_b);
    let to_c = a + text::decimal(deaths) + " unrecognised death(s), "@;
    let c = text::decimal(chat) + " unrecognised chat message(s)"@;
    let rest_c = line.skip((to_c.len() + c.len()) as int);
    assert(line =~= to_c + c + rest_c);
    text::lemma_has_inside(to_c, c, rest_c);
    let to_d = to_c + text::decimal(chat) + " unrecognised chat message(s), "@ + text::decimal(wrong)
        + " death(s) with the wrong names, "@;
    let d = text::decimal(s.unchanged) + " already correct"@;
    let rest_d = line.skip((to_d.len() + d.len()) as int);
    assert(line =~= to_d + d + rest_d);
    text::lemma_has_inside(to_d, d, rest_d);
    let e = text::decimal(s.not_a_death) + " unclassified"@;
    assert(line.skip(line.len() - e.len()) =~= e);
}

} // verus!
