//! Death lines.
//!
//! A server that sends its lines as plain text says nothing of what a line is,
//! so deaths are recognised by templates: Minecraft's own table of death
//! messages and a list of templates for single servers. `%1$s` to `%4$s` stand
//! for the names and the weapon.
use vstd::prelude::*;
use vstd::string::*;

use crate::json;
use crate::json::JsonText;
use crate::pattern;
use crate::pattern::Pattern;
use crate::text;

verus! {

/// The pattern of a player's name: one to sixteen letters, digits or
/// underscores, behind the mark that some proxies put before Bedrock players.
pub const NAME: &'static str = "[*.]?[A-Za-z0-9_]{1,16}";

// ---------------------------------------------------------------------------
// Templates
// ---------------------------------------------------------------------------

/// One entry of a group in the template file.
#[derive(Debug, Clone)]
pub enum TemplateEntry {
    /// A template that names the victim first.
    Text(String),
    /// A template with the slots of its victim and its killer.
    Slots { template: Option<String>, victim: Option<u64>, killer: Option<u64> },
    /// Anything else.
    Other,
}

/// One member of the template file.
#[derive(Debug, Clone)]
pub struct TemplateGroup {
    pub key: String,
    /// The entries, where the member is a list.
    pub entries: Option<Vec<TemplateEntry>>,
}

/// The contents of a [`TemplateEntry`].
pub enum EntryText {
    Text(Seq<char>),
    Slots { template: Option<Seq<char>>, victim: Option<int>, killer: Option<int> },
    Other,
}

impl View for TemplateEntry {
    type V = EntryText;

    open spec fn view(&self) -> EntryText {
        match self {
            TemplateEntry::Text(template) => EntryText::Text(template@),
            TemplateEntry::Slots { template, victim, killer } => EntryText::Slots {
                template: text::opt_text(*template),
                victim: text::opt_int(*victim),
                killer: text::opt_int(*killer),
            },
            TemplateEntry::Other => EntryText::Other,
        }
    }
}

/// The contents of a [`TemplateGroup`].
pub struct GroupText {
    pub key: Seq<char>,
    pub entries: Option<Seq<EntryText>>,
}

impl View for TemplateGroup {
    type V = GroupText;

    open spec fn view(&self) -> GroupText {
        GroupText {
            key: self.key@,
            entries: match self.entries {
                Some(entries) => Some(entry_texts(entries@)),
                None => None,
            },
        }
    }
}

pub open spec fn entry_texts(v: Seq<TemplateEntry>) -> Seq<EntryText> {
    Seq::new(v.len(), |i: int| v[i]@)
}

pub open spec fn group_texts(v: Seq<TemplateGroup>) -> Seq<GroupText> {
    Seq::new(v.len(), |i: int| v[i]@)
}

/// A template plus which slots hold the victim and the killer.
#[derive(Debug, Clone)]
pub struct CustomTemplate {
    pub template: String,
    pub victim_group: u64,
    pub killer_group: Option<u64>,
}

/// The contents of a [`CustomTemplate`].
pub struct TemplateText {
    pub template: Seq<char>,
    pub victim: int,
    pub killer: Option<int>,
}

impl View for CustomTemplate {
    type V = TemplateText;

    open spec fn view(&self) -> TemplateText {
        TemplateText {
            template: self.template@,
            victim: self.victim_group as int,
            killer: text::opt_int(self.killer_group),
        }
    }
}

pub open spec fn template_texts(v: Seq<CustomTemplate>) -> Seq<TemplateText> {
    Seq::new(v.len(), |i: int| v[i]@)
}

/// A template that names its victim first, and its killer after "by".
pub open spec fn victim_first(template: Seq<char>) -> TemplateText {
    TemplateText {
        template,
        victim: 1,
        killer: if text::has_text(template, "by %2$s"@) {
            Some(2)
        } else {
            None
        },
    }
}

pub open spec fn entry_template(entry: EntryText) -> Option<TemplateText> {
    match entry {
        EntryText::Text(template) => Some(victim_first(template)),
        EntryText::Slots { template: Some(template), victim, killer } => Some(
            TemplateText {
                template,
                victim: match victim {
                    Some(slot) => slot,
                    None => 1,
                },
                killer,
            },
        ),
        _ => None,
    }
}

/// The templates among the entries, in order.
pub open spec fn entries_templates(entries: Seq<EntryText>) -> Seq<TemplateText>
    decreases entries.len(),
{
    if entries.len() == 0 {
        Seq::empty()
    } else {
        match entry_template(entries.last()) {
            Some(t) => entries_templates(entries.drop_last()).push(t),
            None => entries_templates(entries.drop_last()),
        }
    }
}

/// The templates of one member of the file. A member whose key begins with an
/// underscore is a comment.
pub open spec fn group_templates(group: GroupText) -> Seq<TemplateText> {
    match group.entries {
        Some(entries) if !text::begins(group.key, "_"@) => entries_templates(entries),
        _ => Seq::empty(),
    }
}

/// The templates of all members, in order.
pub open spec fn all_templates(groups: Seq<GroupText>) -> Seq<TemplateText>
    decreases groups.len(),
{
    if groups.len() == 0 {
        Seq::empty()
    } else {
        all_templates(groups.drop_last()) + group_templates(groups.last())
    }
}

fn victim_first_template(template: &str) -> (t: CustomTemplate)
    ensures
        t@ == victim_first(template@),
{
    let killer_group: Option<u64> = if text::has(template, "by %2$s") {
        Some(2)
    } else {
        None
    };
    CustomTemplate { template: text::copy(template), victim_group: 1, killer_group }
}

fn template_of(entry: &TemplateEntry) -> (r: Option<CustomTemplate>)
    ensures
        match r {
            Some(t) => entry_template(entry@) == Some(t@),
            None => entry_template(entry@) is None,
        },
{
    match entry {
        TemplateEntry::Text(template) => Some(victim_first_template(template)),
        TemplateEntry::Slots { template: Some(template), victim, killer } => {
            let victim_group: u64 = match victim {
                Some(slot) => *slot,
                None => 1,
            };
            Some(
                CustomTemplate {
                    template: template.clone(),
                    victim_group,
                    killer_group: *killer,
                },
            )
        },
        _ => None,
    }
}

/// The templates of the members of a file, as they stand in it.
pub fn templates_in(groups: &Vec<TemplateGroup>) -> (r: Vec<CustomTemplate>)
    ensures
        template_texts(r@) == all_templates(group_texts(groups@)),
{
    let ghost all = group_texts(groups@);
    let mut r: Vec<CustomTemplate> = Vec::new();
    assert(template_texts(r@) =~= all_templates(all.take(0)));
    for i in 0..groups.len()
        invariant
            all == group_texts(groups@),
            template_texts(r@) == all_templates(all.take(i as int)),
    {
        let group = &groups[i];
        let ghost before = template_texts(r@);
        proof {
            assert(all.take(i + 1).drop_last() =~= all.take(i as int));
            assert(all.take(i + 1).last() == group@);
        }
        match &group.entries {
            Some(entries) if !text::starts_with(&group.key, "_") => {
                let ghost listed = entry_texts(entries@);
                assert(before + entries_templates(listed.take(0)) =~= before);
                for k in 0..entries.len()
                    invariant
                        listed == entry_texts(entries@),
                        template_texts(r@) == before + entries_templates(listed.take(k as int)),
                {
                    assert(listed.take(k + 1).drop_last() =~= listed.take(k as int));
                    assert(listed.take(k + 1).last() == entries[k as int]@);
                    let ghost so_far = r@;
                    if let Some(t) = template_of(&entries[k]) {
                        r.push(t);
                        assert(template_texts(r@) =~= template_texts(so_far).push(t@));
                    }
                    assert(template_texts(r@) =~= before + entries_templates(listed.take(k + 1)));
                }
                assert(listed.take(entries.len() as int) =~= listed);
            },
            _ => {
                assert(before + group_templates(group@) =~= before);
            },
        }
    }
    assert(all.take(groups.len() as int) =~= all);
    r
}

// ---------------------------------------------------------------------------
// Template files
// ---------------------------------------------------------------------------

pub open spec fn text_of(j: Option<JsonText>) -> Option<Seq<char>> {
    match j {
        Some(JsonText::Text(s)) => Some(s),
        _ => None,
    }
}

pub open spec fn whole_of(j: Option<JsonText>) -> Option<int> {
    match j {
        Some(JsonText::Number { whole: Some(n), .. }) => Some(n as int),
        _ => None,
    }
}

/// The entry that an item of a list is.
pub open spec fn entry_of(j: JsonText) -> EntryText {
    match j {
        JsonText::Text(s) => EntryText::Text(s),
        JsonText::Object(members) => EntryText::Slots {
            template: text_of(json::member(members, "template"@)),
            victim: whole_of(json::member(members, "victim"@)),
            killer: whole_of(json::member(members, "killer"@)),
        },
        _ => EntryText::Other,
    }
}

pub open spec fn entries_of(items: Seq<JsonText>) -> Seq<EntryText> {
    Seq::new(items.len(), |i: int| entry_of(items[i]))
}

/// The group that a member of a template file is.
pub open spec fn group_of(key: Seq<char>, value: JsonText) -> GroupText {
    GroupText {
        key,
        entries: match value {
            JsonText::List(items) => Some(entries_of(items)),
            _ => None,
        },
    }
}

/// The groups of a template file; none where it holds no object.
pub open spec fn groups_of(j: JsonText) -> Seq<GroupText> {
    match j {
        JsonText::Object(members) => Seq::new(
            members.len(),
            |i: int| group_of(members[i].0, members[i].1),
        ),
        _ => Seq::empty(),
    }
}

/// The templates in the text of a template file; none where it is no JSON.
pub open spec fn templates_of(raw: Seq<char>) -> Seq<TemplateText> {
    match json::json_of(raw) {
        Some(j) => all_templates(groups_of(j)),
        None => Seq::empty(),
    }
}

/// The texts of an object that holds nothing but texts.
pub open spec fn table_of(j: Option<JsonText>) -> Option<Seq<Seq<char>>> {
    match j {
        Some(JsonText::Object(members)) => if forall|i: int|
            0 <= i < members.len() ==> #[trigger] members[i].1 is Text {
            Some(Seq::new(members.len(), |i: int| members[i].1->Text_0))
        } else {
            None
        },
        _ => None,
    }
}

proof fn lemma_entries_added(a: Seq<EntryText>, b: Seq<EntryText>)
    ensures
        entries_templates(a + b) == entries_templates(a) + entries_templates(b),
    decreases b.len(),
{
    if b.len() == 0 {
        assert(a + b =~= a);
        assert(entries_templates(a) + entries_templates(b) =~= entries_templates(a));
    } else {
        lemma_entries_added(a, b.drop_last());
        assert((a + b).drop_last() =~= a + b.drop_last());
        let before = entries_templates(b.drop_last());
        if let Some(t) = entry_template(b.last()) {
            assert(entries_templates(a) + before.push(t) =~= (entries_templates(a) + before).push(
                t,
            ));
        }
    }
}

proof fn lemma_text_entries(texts: Seq<Seq<char>>)
    ensures
        ({
            let entries = Seq::new(texts.len(), |i: int| EntryText::Text(texts[i]));
            entries_templates(entries) == Seq::new(texts.len(), |i: int| victim_first(texts[i]))
        }),
    decreases texts.len(),
{
    let entries = Seq::new(texts.len(), |i: int| EntryText::Text(texts[i]));
    let all = Seq::new(texts.len(), |i: int| victim_first(texts[i]));
    if texts.len() > 0 {
        let rest = texts.drop_last();
        lemma_text_entries(rest);
        assert(entries.drop_last() =~= Seq::new(rest.len(), |i: int| EntryText::Text(rest[i])));
        assert(all =~= Seq::new(rest.len(), |i: int| victim_first(rest[i])).push(
            victim_first(texts.last()),
        ));
    } else {
        assert(entries_templates(entries) =~= all);
    }
}

/// A template stands among those of a file where it stands in one of its groups.
pub proof fn lemma_templates_of_groups(groups: Seq<GroupText>, t: TemplateText)
    ensures
        all_templates(groups).contains(t) <==> exists|i: int|
            0 <= i < groups.len() && group_templates(#[trigger] groups[i]).contains(t),
    decreases groups.len(),
{
    if groups.len() > 0 {
        let rest = groups.drop_last();
        lemma_templates_of_groups(rest, t);
        let before = all_templates(rest);
        let last = group_templates(groups.last());
        let all = before + last;
        if all.contains(t) {
            let k = choose|k: int| 0 <= k < all.len() && all[k] == t;
            if k < before.len() {
                assert(before[k] == t);
                let i = choose|i: int|
                    0 <= i < rest.len() && group_templates(#[trigger] rest[i]).contains(t);
                assert(groups[i] == rest[i]);
            } else {
                assert(last[k - before.len()] == t);
                assert(group_templates(groups[groups.len() - 1]).contains(t));
            }
        }
        if exists|i: int|
            0 <= i < groups.len() && group_templates(#[trigger] groups[i]).contains(t) {
            let i = choose|i: int|
                0 <= i < groups.len() && group_templates(#[trigger] groups[i]).contains(t);
            if i < rest.len() {
                assert(rest[i] == groups[i]);
                let k = choose|k: int| 0 <= k < before.len() && before[k] == t;
                assert(all[k] == t);
            } else {
                let k = choose|k: int| 0 <= k < last.len() && last[k] == t;
                assert(all[before.len() + k] == t);
            }
        }
    }
}

/// A list that grows at its end keeps its templates and gains those of the texts
/// that came.
pub proof fn lemma_group_grows(
    key: Seq<char>,
    items: Seq<JsonText>,
    texts: Seq<Seq<char>>,
    t: TemplateText,
)
    requires
        !text::begins(key, "_"@),
    ensures
        ({
            let now = group_templates(
                group_of(
                    key,
                    JsonText::List(
                        items + Seq::new(texts.len(), |i: int| JsonText::Text(texts[i])),
                    ),
                ),
            );
            &&& group_templates(group_of(key, JsonText::List(items))).contains(t) ==> now.contains(
                t,
            )
            &&& forall|i: int|
                0 <= i < texts.len() ==> now.contains(victim_first(#[trigger] texts[i]))
        }),
{
    let more = Seq::new(texts.len(), |i: int| JsonText::Text(texts[i]));
    let entries = Seq::new(texts.len(), |i: int| EntryText::Text(texts[i]));
    let new = Seq::new(texts.len(), |i: int| victim_first(texts[i]));
    let old_ones = entries_templates(entries_of(items));
    lemma_entries_added(entries_of(items), entries);
    lemma_text_entries(texts);
    assert(entries_of(items + more) =~= entries_of(items) + entries);
    let now = old_ones + new;
    assert forall|i: int| 0 <= i < texts.len() implies now.contains(
        victim_first(#[trigger] texts[i]),
    ) by {
        assert(now[old_ones.len() + i] == victim_first(texts[i]));
    }
    if old_ones.contains(t) {
        let k = choose|k: int| 0 <= k < old_ones.len() && old_ones[k] == t;
        assert(now[k] == t);
    }
}

fn slot_in(members: &Vec<(String, serde_json::Value)>, key: &str) -> (r: Option<u64>)
    ensures
        text::opt_int(r) == whole_of(json::member(json::members_of(members@), key@)),
{
    match json::find_member(members, key) {
        Some(i) => json::as_whole(&members[i].1),
        None => None,
    }
}

fn entry_in(value: &serde_json::Value) -> (e: TemplateEntry)
    ensures
        e@ == entry_of(json::value_of(*value)),
{
    if let Some(s) = json::as_text(value) {
        return TemplateEntry::Text(s);
    }
    match json::as_object(value) {
        Some(members) => TemplateEntry::Slots {
            template: match json::find_member(&members, "template") {
                Some(i) => json::as_text(&members[i].1),
                None => None,
            },
            victim: slot_in(&members, "victim"),
            killer: slot_in(&members, "killer"),
        },
        None => TemplateEntry::Other,
    }
}

fn group_in(key: &str, value: &serde_json::Value) -> (g: TemplateGroup)
    ensures
        g@ == group_of(key@, json::value_of(*value)),
{
    let entries = match json::as_list(value) {
        Some(items) => {
            let mut entries: Vec<TemplateEntry> = Vec::new();
            for i in 0..items.len()
                invariant
                    entries.len() == i,
                    forall|k: int|
                        0 <= k < i ==> (#[trigger] entries[k])@ == entry_of(
                            json::value_of(items[k]),
                        ),
            {
                entries.push(entry_in(&items[i]));
            }
            assert(entry_texts(entries@) =~= entries_of(json::values_of(items@)));
            Some(entries)
        },
        None => None,
    };
    TemplateGroup { key: text::copy(key), entries }
}

fn groups_in(value: &serde_json::Value) -> (groups: Vec<TemplateGroup>)
    ensures
        group_texts(groups@) == groups_of(json::value_of(*value)),
{
    let mut groups: Vec<TemplateGroup> = Vec::new();
    if let Some(members) = json::as_object(value) {
        for i in 0..members.len()
            invariant
                groups.len() == i,
                forall|k: int|
                    0 <= k < i ==> (#[trigger] groups[k])@ == group_of(
                        members[k].0@,
                        json::value_of(members[k].1),
                    ),
        {
            groups.push(group_in(&members[i].0, &members[i].1));
        }
    }
    assert(group_texts(groups@) =~= groups_of(json::value_of(*value)));
    groups
}

/// The templates of a template file, as they stand in it.
pub fn custom_death_templates(raw: &str) -> (r: Vec<CustomTemplate>)
    ensures
        template_texts(r@) == templates_of(raw@),
{
    match json::parse(raw) {
        Some(value) => templates_in(&groups_in(&value)),
        None => {
            let r: Vec<CustomTemplate> = Vec::new();
            assert(template_texts(r@) =~= Seq::<TemplateText>::empty());
            r
        },
    }
}

/// The texts of a table of templates, where it is an object of texts.
pub fn table_in(raw: &str) -> (r: Option<Vec<String>>)
    ensures
        (match r {
            Some(table) => Some(text::texts(table@)),
            None => None,
        }) == table_of(json::json_of(raw@)),
{
    let value = json::parse(raw)?;
    let members = json::as_object(&value)?;
    let ghost all = json::members_of(members@);
    let mut table: Vec<String> = Vec::new();
    for i in 0..members.len()
        invariant
            all == json::members_of(members@),
            table_of(json::json_of(raw@)) == table_of(Some(JsonText::Object(all))),
            table.len() == i,
            forall|k: int|
                0 <= k < i ==> #[trigger] all[k].1 == JsonText::Text(table[k]@),
    {
        assert(all[i as int].1 == json::value_of(members[i as int].1));
        match json::as_text(&members[i].1) {
            Some(s) => table.push(s),
            None => {
                assert(!(all[i as int].1 is Text));
                return None;
            },
        }
    }
    assert(text::texts(table@) =~= Seq::new(all.len(), |i: int| all[i].1->Text_0));
    Some(table)
}

// ---------------------------------------------------------------------------
// Order: the longest template first
// ---------------------------------------------------------------------------

/// Whether `a` is tried no later than `b`: the longer template first, and by
/// the order of the texts among templates of one length.
pub open spec fn tried_first(a: TemplateText, b: TemplateText) -> bool {
    ||| text::byte_len(a.template) > text::byte_len(b.template)
    ||| text::byte_len(a.template) == text::byte_len(b.template) && text::at_most(
        a.template,
        b.template,
    )
}

/// The list with `t` behind everything that is tried no later.
pub open spec fn placed(sorted: Seq<TemplateText>, t: TemplateText) -> Seq<TemplateText>
    decreases sorted.len(),
{
    if sorted.len() == 0 || tried_first(sorted.last(), t) {
        sorted.push(t)
    } else {
        placed(sorted.drop_last(), t).push(sorted.last())
    }
}

/// The templates in the order in which they are tried; of two that compare
/// equal, the one that stood first.
pub open spec fn in_order(v: Seq<TemplateText>) -> Seq<TemplateText>
    decreases v.len(),
{
    if v.len() == 0 {
        Seq::empty()
    } else {
        placed(in_order(v.drop_last()), v.last())
    }
}

pub open spec fn ordered(v: Seq<TemplateText>) -> bool {
    forall|i: int, j: int| 0 <= i < j < v.len() ==> #[trigger] tried_first(v[i], v[j])
}

proof fn lemma_tried_first_total(a: TemplateText, b: TemplateText)
    ensures
        tried_first(a, b) || tried_first(b, a),
{
    text::lemma_at_most_total(a.template, b.template);
}

proof fn lemma_tried_first_transitive(a: TemplateText, b: TemplateText, c: TemplateText)
    requires
        tried_first(a, b),
        tried_first(b, c),
    ensures
        tried_first(a, c),
{
    if text::byte_len(a.template) == text::byte_len(b.template) && text::byte_len(b.template)
        == text::byte_len(c.template) {
        text::lemma_at_most_transitive(a.template, b.template, c.template);
    }
}

proof fn lemma_placed(sorted: Seq<TemplateText>, t: TemplateText)
    requires
        ordered(sorted),
    ensures
        ordered(placed(sorted, t)),
        placed(sorted, t).to_multiset() == sorted.to_multiset().insert(t),
        placed(sorted, t).len() == sorted.len() + 1,
        forall|u: TemplateText|
            (forall|i: int| 0 <= i < sorted.len() ==> tried_first(#[trigger] sorted[i], u))
                && tried_first(t, u) ==> forall|i: int|
                0 <= i < placed(sorted, t).len() ==> tried_first(
                    #[trigger] placed(sorted, t)[i],
                    u,
                ),
    decreases sorted.len(),
{
    broadcast use vstd::seq_lib::group_to_multiset_ensures;

    if sorted.len() == 0 || tried_first(sorted.last(), t) {
        let r = sorted.push(t);
        assert forall|i: int, j: int| 0 <= i < j < r.len() implies #[trigger] tried_first(
            r[i],
            r[j],
        ) by {
            if j == sorted.len() && i < sorted.len() - 1 {
                assert(tried_first(sorted[i], sorted[sorted.len() - 1]));
                lemma_tried_first_transitive(sorted[i], sorted.last(), t);
            }
        }
    } else {
        let init = sorted.drop_last();
        let last = sorted.last();
        assert(ordered(init)) by {
            assert forall|i: int, j: int| 0 <= i < j < init.len() implies #[trigger] tried_first(
                init[i],
                init[j],
            ) by {
                assert(tried_first(sorted[i], sorted[j]));
            }
        }
        lemma_placed(init, t);
        lemma_tried_first_total(last, t);
        let inner = placed(init, t);
        assert forall|i: int| 0 <= i < init.len() implies tried_first(#[trigger] init[i], last) by {
            assert(tried_first(sorted[i], sorted[sorted.len() - 1]));
        }
        assert(forall|i: int| 0 <= i < inner.len() ==> tried_first(#[trigger] inner[i], last));
        let r = inner.push(last);
        assert forall|i: int, j: int| 0 <= i < j < r.len() implies #[trigger] tried_first(
            r[i],
            r[j],
        ) by {
            if j == inner.len() {
                assert(tried_first(inner[i], last));
            } else {
                assert(tried_first(inner[i], inner[j]));
            }
        }
        assert(sorted =~= init.push(last));
        assert(r.to_multiset() =~= sorted.to_multiset().insert(t));
        assert forall|u: TemplateText|
            (forall|i: int| 0 <= i < sorted.len() ==> tried_first(#[trigger] sorted[i], u))
                && tried_first(t, u) implies forall|i: int|
            0 <= i < r.len() ==> tried_first(#[trigger] r[i], u) by {
            assert forall|i: int| 0 <= i < init.len() implies tried_first(
                #[trigger] init[i],
                u,
            ) by {
                assert(tried_first(sorted[i], u));
            }
            assert(tried_first(sorted[sorted.len() - 1], u));
        }
    }
}

/// Sorting keeps exactly the templates it was given and puts the longer ones
/// first, so that a loose template never takes a line from a precise one.
pub proof fn lemma_longest_template_first(v: Seq<TemplateText>)
    ensures
        ordered(in_order(v)),
        in_order(v).to_multiset() == v.to_multiset(),
        in_order(v).len() == v.len(),
    decreases v.len(),
{
    broadcast use vstd::seq_lib::group_to_multiset_ensures;

    if v.len() > 0 {
        lemma_longest_template_first(v.drop_last());
        lemma_placed(in_order(v.drop_last()), v.last());
        assert(v =~= v.drop_last().push(v.last()));
    }
}

fn is_tried_first(a: &CustomTemplate, b: &CustomTemplate) -> (r: bool)
    ensures
        r == tried_first(a@, b@),
{
    let m: usize = text::bytes_in(&a.template);
    let n: usize = text::bytes_in(&b.template);
    m > n || (m == n && text::not_after(&a.template, &b.template))
}

/// Where a template goes: behind everything that is tried no later.
proof fn lemma_placed_at(sorted: Seq<TemplateText>, t: TemplateText, at: int)
    requires
        0 <= at <= sorted.len(),
        at > 0 ==> tried_first(sorted[at - 1], t),
        forall|j: int| at <= j < sorted.len() ==> !tried_first(#[trigger] sorted[j], t),
    ensures
        placed(sorted, t) == sorted.insert(at, t),
    decreases sorted.len(),
{
    if at == sorted.len() {
        assert(sorted.insert(at, t) =~= sorted.push(t));
    } else {
        assert(!tried_first(sorted[sorted.len() - 1], t));
        lemma_placed_at(sorted.drop_last(), t, at);
        assert(sorted.insert(at, t) =~= sorted.drop_last().insert(at, t).push(sorted.last()));
    }
}

fn place(sorted: &mut Vec<CustomTemplate>, t: CustomTemplate)
    ensures
        template_texts(final(sorted)@) == placed(template_texts(old(sorted)@), t@),
{
    let ghost before = template_texts(sorted@);
    let mut i: usize = sorted.len();
    while i > 0 && !is_tried_first(&sorted[i - 1], &t)
        invariant
            i <= sorted.len(),
            before == template_texts(sorted@),
            forall|j: int| i <= j < sorted.len() ==> !tried_first(#[trigger] before[j], t@),
        decreases i,
    {
        assert(before[i - 1] == sorted[i - 1]@);
        i -= 1;
    }
    proof {
        if i > 0 {
            assert(before[i - 1] == sorted[i - 1]@);
        }
        lemma_placed_at(before, t@, i as int);
    }
    sorted.insert(i, t);
    assert(template_texts(sorted@) =~= before.insert(i as int, t@));
}

// ---------------------------------------------------------------------------
// Patterns
// ---------------------------------------------------------------------------

/// The text a slot has in a template.
pub open spec fn slot_text(slot: int) -> Seq<char> {
    "%"@ + text::decimal(slot) + "$s"@
}

/// What stands for a slot in the pattern. The victim is a player's name. The
/// killer may be a mob with spaces in its name. Any other slot may be empty.
pub open spec fn slot_group(t: TemplateText, slot: int) -> Seq<char> {
    if slot == t.victim {
        "("@ + NAME@ + ")"@
    } else if t.killer == Some(slot) {
        "(.+?)"@
    } else {
        "(.*?)"@
    }
}

/// The template as a pattern, with its slots up to `slots` replaced.
pub open spec fn pattern_body(t: TemplateText, slots: int) -> Seq<char>
    decreases slots,
{
    if slots <= 0 {
        pattern::escaped(t.template)
    } else {
        text::replaced(
            pattern_body(t, slots - 1),
            pattern::escaped(slot_text(slots)),
            slot_group(t, slots),
        )
    }
}

/// The pattern that a line has to match as a whole.
pub open spec fn death_pattern(t: TemplateText) -> Seq<char> {
    "^"@ + pattern_body(t, 4) + "$"@
}

/// The pattern of a template.
pub fn pattern_for(t: &CustomTemplate) -> (r: String)
    ensures
        r@ == death_pattern(t@),
{
    let mut body = pattern::escape(&t.template);
    let mut slot: u64 = 1;
    while slot <= 4
        invariant
            1 <= slot <= 5,
            body@ == pattern_body(t@, slot - 1),
        decreases 5 - slot,
    {
        let escaped = pattern::escape(&text::cat3("%", &text::number(slot), "$s"));
        let group = if slot == t.victim_group {
            text::cat3("(", NAME, ")")
        } else {
            match t.killer_group {
                Some(killer) if killer == slot => text::copy("(.+?)"),
                _ => text::copy("(.*?)"),
            }
        };
        body = text::replace(&body, &escaped, &group);
        slot += 1;
    }
    text::cat3("^", &body, "$")
}

/// A template that compiled.
pub struct DeathMatcher {
    pub pattern: Pattern,
    pub victim_group: u64,
    /// The capture of the killer, where the template names one.
    pub killer_group: Option<u64>,
}

/// The contents of a [`DeathMatcher`].
pub struct MatcherText {
    pub source: Seq<char>,
    pub victim: int,
    pub killer: Option<int>,
}

impl View for DeathMatcher {
    type V = MatcherText;

    open spec fn view(&self) -> MatcherText {
        MatcherText {
            source: self.pattern.source(),
            victim: self.victim_group as int,
            killer: text::opt_int(self.killer_group),
        }
    }
}

pub open spec fn matcher_texts(v: Seq<DeathMatcher>) -> Seq<MatcherText> {
    Seq::new(v.len(), |i: int| v[i]@)
}

/// The matchers of those templates whose pattern compiles, in order.
pub open spec fn compiled(v: Seq<TemplateText>) -> Seq<MatcherText>
    decreases v.len(),
{
    if v.len() == 0 {
        Seq::empty()
    } else {
        let t = v.last();
        let rest = compiled(v.drop_last());
        if pattern::regex_accepts(death_pattern(t)) {
            rest.push(MatcherText { source: death_pattern(t), victim: t.victim, killer: t.killer })
        } else {
            rest
        }
    }
}

/// Minecraft's own templates.
pub open spec fn vanilla_templates(table: Seq<Seq<char>>) -> Seq<TemplateText> {
    Seq::new(table.len(), |i: int| victim_first(table[i]))
}

/// The matchers of a server's templates and of Minecraft's own table.
pub open spec fn death_matchers(
    custom: Seq<TemplateText>,
    table: Seq<Seq<char>>,
) -> Seq<MatcherText> {
    compiled(in_order(custom + vanilla_templates(table)))
}

/// Turns every template into a matcher, the longest template first.
pub fn matchers_from(custom: &Vec<CustomTemplate>, table: &Vec<String>) -> (r: Vec<DeathMatcher>)
    ensures
        matcher_texts(r@) == death_matchers(template_texts(custom@), text::texts(table@)),
{
    let ghost all = template_texts(custom@) + vanilla_templates(text::texts(table@));
    let mut sorted: Vec<CustomTemplate> = Vec::new();
    assert(template_texts(sorted@) =~= in_order(all.take(0)));
    for i in 0..custom.len()
        invariant
            all == template_texts(custom@) + vanilla_templates(text::texts(table@)),
            template_texts(sorted@) == in_order(all.take(i as int)),
    {
        let t = &custom[i];
        assert(all.take(i + 1).drop_last() =~= all.take(i as int));
        assert(all[i as int] == t@);
        let copy = CustomTemplate {
            template: t.template.clone(),
            victim_group: t.victim_group,
            killer_group: t.killer_group,
        };
        place(&mut sorted, copy);
    }
    for k in 0..table.len()
        invariant
            all == template_texts(custom@) + vanilla_templates(text::texts(table@)),
            template_texts(sorted@) == in_order(all.take(custom.len() + k)),
    {
        let ghost n = custom.len() + k;
        assert(all.take(n + 1).drop_last() =~= all.take(n));
        assert(all[n] == victim_first(table[k as int]@));
        place(&mut sorted, victim_first_template(&table[k]));
    }
    assert(all.take(custom.len() + table.len()) =~= all);
    let ghost order = template_texts(sorted@);
    let mut r: Vec<DeathMatcher> = Vec::new();
    assert(matcher_texts(r@) =~= compiled(order.take(0)));
    for i in 0..sorted.len()
        invariant
            order == template_texts(sorted@),
            matcher_texts(r@) == compiled(order.take(i as int)),
    {
        let t = &sorted[i];
        assert(order.take(i + 1).drop_last() =~= order.take(i as int));
        assert(order[i as int] == t@);
        let ghost so_far = r@;
        if let Some(p) = Pattern::new(&pattern_for(t)) {
            r.push(
                DeathMatcher {
                    pattern: p,
                    victim_group: t.victim_group,
                    killer_group: t.killer_group,
                },
            );
            assert(matcher_texts(r@) =~= matcher_texts(so_far).push(r@.last()@));
        }
    }
    assert(order.take(sorted.len() as int) =~= order);
    r
}

/// The matchers of the text of a template file and of the text of Minecraft's own
/// table. Without a table that can be read there are none at all.
pub open spec fn matchers_of(custom_source: Seq<char>, table_source: Seq<char>) -> Seq<
    MatcherText,
> {
    match table_of(json::json_of(table_source)) {
        Some(table) => death_matchers(templates_of(custom_source), table),
        None => Seq::empty(),
    }
}

/// Reads a template file and Minecraft's own table, and turns every template into
/// a matcher, the longest template first.
pub fn build_death_matchers(custom_source: &str, table_source: &str) -> (r: Vec<DeathMatcher>)
    ensures
        matcher_texts(r@) == matchers_of(custom_source@, table_source@),
{
    match table_in(table_source) {
        Some(table) => matchers_from(&custom_death_templates(custom_source), &table),
        None => {
            let r: Vec<DeathMatcher> = Vec::new();
            assert(matcher_texts(r@) =~= Seq::<MatcherText>::empty());
            r
        },
    }
}

/// How many death patterns were built.
pub fn death_matcher_count(matchers: &Vec<DeathMatcher>) -> (n: usize)
    ensures
        n == matchers.len(),
{
    matchers.len()
}

/// Why a changed template file is not taken over.
#[derive(Debug, Clone, Copy, PartialEq, Eq, Structural)]
pub enum ReloadError {
    /// The file is no JSON.
    InvalidJson,
    /// Nothing that was read compiles to a pattern.
    NoMatchers,
}

/// The matchers that were read, where there are any.
pub fn if_any(matchers: Vec<DeathMatcher>) -> (r: Result<Vec<DeathMatcher>, ReloadError>)
    ensures
        match r {
            Ok(kept) => kept == matchers && matchers.len() > 0,
            Err(e) => e == ReloadError::NoMatchers && matchers.len() == 0,
        },
{
    if matchers.len() == 0 {
        Err(ReloadError::NoMatchers)
    } else {
        Ok(matchers)
    }
}

/// The matchers that replace the current ones when the template file was read
/// again. A file that is no JSON, or that gives none, leaves the current ones in
/// place.
pub fn reload_custom_deaths(raw: &str, table_source: &str) -> (r: Result<
    Vec<DeathMatcher>,
    ReloadError,
>)
    ensures
        match r {
            Ok(matchers) => json::json_of(raw@) is Some && matcher_texts(matchers@) == matchers_of(
                raw@,
                table_source@,
            ) && matchers.len() > 0,
            Err(ReloadError::InvalidJson) => json::json_of(raw@) is None,
            Err(ReloadError::NoMatchers) => json::json_of(raw@) is Some && matchers_of(
                raw@,
                table_source@,
            ).len() == 0,
        },
{
    if json::parse(raw).is_none() {
        return Err(ReloadError::InvalidJson);
    }
    let matchers = build_death_matchers(raw, table_source);
    assert(matcher_texts(matchers@).len() == matchers.len());
    if_any(matchers)
}

// ---------------------------------------------------------------------------
// Matching
// ---------------------------------------------------------------------------

/// A captured name without what rides along with it: a full stop or an
/// exclamation mark behind it, and the ping in parentheses behind that.
pub open spec fn tidied(raw: Seq<char>) -> Seq<char> {
    let name = text::trimmed_end(text::drop_back(text::trimmed(raw), text::either('.', '!')));
    if text::ends(name, ")"@) {
        match text::rsplit_once_text(name.drop_last(), " ("@) {
            Some((head, ping)) if head.len() > 0 && ping.len() > 0 && text::all_digits(ping) =>
                text::trimmed_end(head),
            _ => name,
        }
    } else {
        name
    }
}

/// Strips what rides along in a capture, so that the name can be looked up.
pub fn tidy_captured_name(raw: &str) -> (r: String)
    ensures
        r@ == tidied(raw@),
{
    let name = text::trim_end(&text::trim_end_chars(&text::trim(raw), '.', '!'));
    proof {
        reveal_strlit(")");
    }
    if text::ends_with(&name, ")") {
        let v = text::chars_of(&name);
        let stripped = text::string_of(&v, 0, v.len() - 1);
        assert(stripped@ =~= name@.drop_last());
        if let Some((head, ping)) = text::rsplit_once(&stripped, " (") {
            if !head.as_str().is_empty() && !ping.as_str().is_empty() && only_digits(&ping) {
                return text::trim_end(&head);
            }
        }
    }
    name
}

fn only_digits(s: &str) -> (b: bool)
    ensures
        b == text::all_digits(s@),
{
    let v = text::chars_of(s);
    for i in 0..v.len()
        invariant
            v@ == s@,
            forall|j: int| 0 <= j < i ==> text::is_digit(#[trigger] s@[j]),
    {
        if !text::digit(v[i]) {
            assert(!text::is_digit(s@[i as int]));
            return false;
        }
    }
    true
}

/// The victim and the killer that the capture groups of a death line hold.
pub open spec fn victim_and_killer(
    groups: Seq<Option<Seq<char>>>,
    victim: int,
    killer: Option<int>,
) -> (Seq<char>, Option<Seq<char>>) {
    let named = match pattern::group_of(groups, victim) {
        Some(raw) => tidied(raw),
        None => Seq::empty(),
    };
    let by = match killer {
        Some(slot) => match pattern::group_of(groups, slot) {
            Some(raw) if tidied(raw).len() > 0 => Some(tidied(raw)),
            _ => None,
        },
        None => None,
    };
    (named, by)
}

fn group_at(groups: &Vec<Option<String>>, slot: u64) -> (r: Option<String>)
    ensures
        text::opt_text(r) == pattern::group_of(pattern::group_texts(groups@), slot as int),
{
    if slot < groups.len() as u64 {
        pattern::group(groups, slot as usize)
    } else {
        None
    }
}

/// The victim and the killer of a line that matched, from its capture groups.
pub fn death_of(groups: &Vec<Option<String>>, victim_group: u64, killer_group: Option<u64>) -> (r: (
    String,
    Option<String>,
))
    ensures
        (r.0@, text::opt_text(r.1)) == victim_and_killer(
            pattern::group_texts(groups@),
            victim_group as int,
            text::opt_int(killer_group),
        ),
{
    let victim = match group_at(groups, victim_group) {
        Some(raw) => tidy_captured_name(&raw),
        None => String::new(),
    };
    let killer = match killer_group {
        Some(slot) => match group_at(groups, slot) {
            Some(raw) => {
                let name = tidy_captured_name(&raw);
                if name.as_str().is_empty() {
                    None
                } else {
                    Some(name)
                }
            },
            None => None,
        },
        None => None,
    };
    (victim, killer)
}

/// The victim and the killer by the first matcher, from `from` on, that matches.
pub open spec fn first_death(
    matchers: Seq<MatcherText>,
    line: Seq<char>,
    from: int,
) -> Option<(Seq<char>, Option<Seq<char>>)>
    decreases matchers.len() - from,
{
    if from < 0 || from >= matchers.len() {
        None
    } else {
        match pattern::found_in(matchers[from].source, line) {
            Some(found) => Some(
                victim_and_killer(found.groups, matchers[from].victim, matchers[from].killer),
            ),
            None => first_death(matchers, line, from + 1),
        }
    }
}

/// A death that names a killer names somebody.
pub proof fn lemma_killers_have_names(matchers: Seq<MatcherText>, line: Seq<char>, from: int)
    ensures
        first_death(matchers, line, from) matches Some((victim, killer)) ==> killer != Some(
            Seq::<char>::empty(),
        ),
    decreases matchers.len() - from,
{
    if 0 <= from < matchers.len() && pattern::found_in(matchers[from].source, line) is None {
        lemma_killers_have_names(matchers, line, from + 1);
    }
}

pub open spec fn opt_death(o: Option<(String, Option<String>)>) -> Option<
    (Seq<char>, Option<Seq<char>>),
> {
    match o {
        Some((victim, killer)) => Some((victim@, text::opt_text(killer))),
        None => None,
    }
}

/// The victim and the killer for the first death template that matches.
pub fn match_death(matchers: &Vec<DeathMatcher>, line: &str) -> (r: Option<
    (String, Option<String>),
>)
    ensures
        opt_death(r) == first_death(matcher_texts(matchers@), line@, 0),
{
    for i in 0..matchers.len()
        invariant
            first_death(matcher_texts(matchers@), line@, 0) == first_death(
                matcher_texts(matchers@),
                line@,
                i as int,
            ),
    {
        let m = &matchers[i];
        assert(matcher_texts(matchers@)[i as int] == m@);
        if let Some(found) = m.pattern.find(line) {
            return Some(death_of(&found.groups, m.victim_group, m.killer_group));
        }
    }
    None
}

// ---------------------------------------------------------------------------
// Vocabulary
// ---------------------------------------------------------------------------

pub open spec fn not_letter() -> spec_fn(char) -> bool {
    |c: char| !text::is_ascii_letter(c)
}

/// The words of at least four letters in a text, in lower case.
pub open spec fn long_words(s: Seq<char>) -> Set<Seq<char>> {
    Set::new(
        |w: Seq<char>|
            exists|i: int|
                0 <= i < text::pieces(s, not_letter()).len() && #[trigger] text::pieces(
                    s,
                    not_letter(),
                )[i].len() >= 4 && w == text::unicode_lower(text::pieces(s, not_letter())[i]),
    )
}

/// The long words of all the texts.
pub open spec fn vocabulary(templates: Seq<Seq<char>>) -> Set<Seq<char>>
    decreases templates.len(),
{
    if templates.len() == 0 {
        Set::empty()
    } else {
        vocabulary(templates.drop_last()).union(long_words(templates.last()))
    }
}

/// A template that is added widens the vocabulary by its own long words and takes
/// none away.
pub proof fn lemma_vocabulary_widens(templates: Seq<Seq<char>>, more: Seq<Seq<char>>)
    ensures
        vocabulary(templates + more) == vocabulary(templates).union(vocabulary(more)),
    decreases more.len(),
{
    if more.len() == 0 {
        assert(templates + more =~= templates);
        assert(vocabulary(templates).union(vocabulary(more)) =~= vocabulary(templates));
    } else {
        lemma_vocabulary_widens(templates, more.drop_last());
        assert((templates + more).drop_last() =~= templates + more.drop_last());
        assert(vocabulary(templates + more) =~= vocabulary(templates).union(vocabulary(more)));
    }
}

/// The pieces of letters in a text.
fn letter_pieces(s: &str) -> (r: Vec<String>)
    ensures
        text::texts(r@) == text::pieces(s@, not_letter()),
{
    let v = text::chars_of(s);
    let mut r: Vec<String> = Vec::new();
    let mut cur = String::new();
    assert(text::texts(r@).push(cur@) =~= text::pieces(s@.take(0), not_letter()));
    for i in 0..v.len()
        invariant
            v@ == s@,
            text::texts(r@).push(cur@) == text::pieces(s@.take(i as int), not_letter()),
    {
        proof {
            let now = s@.take(i + 1);
            assert(now.drop_last() =~= s@.take(i as int));
            assert(now.last() == s@[i as int]);
            let before = text::pieces(s@.take(i as int), not_letter());
            assert(before.drop_last() =~= text::texts(r@));
            assert(before.last() == cur@);
        }
        if !text::ascii_letter(v[i]) {
            proof {
                text::lemma_texts_push(r@, cur);
            }
            r.push(cur);
            cur = String::new();
        } else {
            cur.push(v[i]);
        }
    }
    assert(s@.take(s@.len() as int) =~= s@);
    proof {
        text::lemma_texts_push(r@, cur);
    }
    r.push(cur);
    r
}

/// Adds the long words of a template to a vocabulary.
fn add_words(words: &mut Vec<String>, template: &str)
    requires
        text::strictly_sorted(text::texts(old(words)@)),
    ensures
        text::strictly_sorted(text::texts(final(words)@)),
        text::texts(final(words)@).to_set() == text::texts(old(words)@).to_set().union(
            long_words(template@),
        ),
{
    let parts = letter_pieces(template);
    let ghost pieces = text::pieces(template@, not_letter());
    let ghost before = text::texts(words@).to_set();
    let ghost mut seen: Set<Seq<char>> = Set::empty();
    assert(before.union(seen) =~= before);
    for i in 0..parts.len()
        invariant
            text::texts(parts@) == pieces,
            pieces == text::pieces(template@, not_letter()),
            text::strictly_sorted(text::texts(words@)),
            text::texts(words@).to_set() == before.union(seen),
            forall|w: Seq<char>| #[trigger]
                seen.contains(w) <==> exists|k: int|
                    0 <= k < i && #[trigger] pieces[k].len() >= 4 && w == text::unicode_lower(
                        pieces[k],
                    ),
    {
        assert(pieces[i as int] == parts[i as int]@);
        let ghost seen_before = seen;
        if parts[i].as_str().unicode_len() >= 4 {
            let word = text::to_lowercase(&parts[i]);
            proof {
                seen = seen.insert(word@);
                assert(before.union(seen_before).insert(word@) =~= before.union(seen));
            }
            text::insert_sorted(words, word);
        }
        proof {
            assert forall|w: Seq<char>| #[trigger] seen.contains(w) <==> exists|k: int|
                0 <= k < i + 1 && #[trigger] pieces[k].len() >= 4 && w == text::unicode_lower(
                    pieces[k],
                ) by {
                if seen.contains(w) {
                    if seen_before.contains(w) {
                        let k = choose|k: int|
                            0 <= k < i && #[trigger] pieces[k].len() >= 4 && w
                                == text::unicode_lower(pieces[k]);
                        assert(0 <= k < i + 1 && pieces[k].len() >= 4);
                    } else {
                        assert(pieces[i as int].len() >= 4);
                    }
                }
                if exists|k: int|
                    0 <= k < i + 1 && #[trigger] pieces[k].len() >= 4 && w == text::unicode_lower(
                        pieces[k],
                    ) {
                    let k = choose|k: int|
                        0 <= k < i + 1 && #[trigger] pieces[k].len() >= 4 && w
                            == text::unicode_lower(pieces[k]);
                    if k < i {
                        assert(seen_before.contains(w));
                    }
                }
            }
        }
    }
    assert(seen =~= long_words(template@));
}

/// Every word of four letters or more that the templates use, in lower case and
/// each once. Shorter words stand in nearly every line and would match anything.
pub fn vocabulary_in(templates: &Vec<String>) -> (words: Vec<String>)
    ensures
        text::strictly_sorted(text::texts(words@)),
        text::texts(words@).to_set() == vocabulary(text::texts(templates@)),
{
    let mut words: Vec<String> = Vec::new();
    assert(text::texts(words@).to_set() =~= vocabulary(text::texts(templates@).take(0)));
    for i in 0..templates.len()
        invariant
            text::strictly_sorted(text::texts(words@)),
            text::texts(words@).to_set() == vocabulary(text::texts(templates@).take(i as int)),
    {
        proof {
            let now = text::texts(templates@).take(i + 1);
            assert(now.drop_last() =~= text::texts(templates@).take(i as int));
            assert(now.last() == templates[i as int]@);
        }
        add_words(&mut words, &templates[i]);
    }
    assert(text::texts(templates@).take(templates.len() as int) =~= text::texts(templates@));
    words
}

/// The templates of Minecraft's own table, where it can be read, and those of a
/// template file.
pub open spec fn known_templates(custom_source: Seq<char>, table_source: Seq<char>) -> Seq<
    Seq<char>,
> {
    let custom = templates_of(custom_source);
    (match table_of(json::json_of(table_source)) {
        Some(table) => table,
        None => Seq::empty(),
    }) + Seq::new(custom.len(), |i: int| custom[i].template)
}

/// The vocabulary of Minecraft's own table and of a template file.
pub fn death_vocabulary(custom_source: &str, table_source: &str) -> (words: Vec<String>)
    ensures
        text::strictly_sorted(text::texts(words@)),
        text::texts(words@).to_set() == vocabulary(
            known_templates(custom_source@, table_source@),
        ),
{
    let mut templates: Vec<String> = match table_in(table_source) {
        Some(table) => table,
        None => Vec::new(),
    };
    let custom = custom_death_templates(custom_source);
    let ghost first = text::texts(templates@);
    for i in 0..custom.len()
        invariant
            text::texts(templates@) == first + Seq::new(
                i as nat,
                |k: int| template_texts(custom@)[k].template,
            ),
    {
        let ghost before = templates@;
        let t = custom[i].template.clone();
        proof {
            text::lemma_texts_push(before, t);
            assert(template_texts(custom@)[i as int].template == t@);
        }
        templates.push(t);
        assert(text::texts(templates@) =~= first + Seq::new(
            (i + 1) as nat,
            |k: int| template_texts(custom@)[k].template,
        ));
    }
    assert(text::texts(templates@) =~= known_templates(custom_source@, table_source@));
    vocabulary_in(&templates)
}

/// Whether the line uses a long word that the vocabulary holds.
pub fn reads_like_a_death(line: &str, words: &Vec<String>) -> (b: bool)
    ensures
        b == exists|w: Seq<char>| #[trigger]
            long_words(line@).contains(w) && text::texts(words@).contains(w),
{
    let parts = letter_pieces(line);
    let ghost pieces = text::pieces(line@, not_letter());
    for i in 0..parts.len()
        invariant
            text::texts(parts@) == pieces,
            pieces == text::pieces(line@, not_letter()),
            forall|k: int|
                0 <= k < i && #[trigger] pieces[k].len() >= 4 ==> !text::texts(words@).contains(
                    text::unicode_lower(pieces[k]),
                ),
    {
        assert(pieces[i as int] == parts[i as int]@);
        if parts[i].as_str().unicode_len() >= 4 {
            let word = text::to_lowercase(&parts[i]);
            if text::listed(words, &word) {
                assert(pieces[i as int].len() >= 4);
                assert(long_words(line@).contains(word@));
                return true;
            }
        }
    }
    proof {
        assert forall|w: Seq<char>| #[trigger] long_words(line@).contains(w) implies !text::texts(
            words@,
        ).contains(w) by {
            let k = choose|k: int|
                0 <= k < pieces.len() && #[trigger] pieces[k].len() >= 4 && w
                    == text::unicode_lower(pieces[k]);
            assert(pieces[k].len() >= 4);
        }
    }
    false
}

// ---------------------------------------------------------------------------
// Who died, and by whom
// ---------------------------------------------------------------------------

/// Of the forms of a death the first that takes the line decides: the victim is the
/// name in its victim group, and the killer the name in its killer group.
pub proof fn lemma_first_form_decides(matchers: Seq<MatcherText>, line: Seq<char>, from: int, i: int)
    requires
        0 <= from <= i < matchers.len(),
        forall|j: int|
            from <= j < i ==> pattern::found_in(#[trigger] matchers[j].source, line) is None,
        pattern::found_in(matchers[i].source, line) is Some,
    ensures
        ({
            let groups = pattern::found_in(matchers[i].source, line)->0.groups;
            first_death(matchers, line, from) matches Some((victim, killer)) && {
                &&& forall|raw: Seq<char>| #[trigger]
                    tidied(raw) == raw && pattern::group_of(groups, matchers[i].victim) == Some(raw)
                        ==> victim == raw
                &&& matchers[i].killer is None ==> killer is None
                &&& forall|raw: Seq<char>| #[trigger]
                    tidied(raw) == raw && raw.len() > 0 && matchers[i].killer is Some
                        && pattern::group_of(groups, matchers[i].killer->0) == Some(raw) ==> killer
                        == Some(raw)
            }
        }),
    decreases i - from,
{
    if from < i {
        assert(pattern::found_in(matchers[from].source, line) is None);
        lemma_first_form_decides(matchers, line, from + 1, i);
    }
}

/// In a form of the game the first slot is the victim, and the second is the killer
/// where the form says so; a form may name its slots itself.
pub proof fn lemma_slots_of_forms(
    before: Seq<char>,
    after: Seq<char>,
    template: Seq<char>,
    victim: int,
    killer: Option<int>,
)
    ensures
        entry_template(EntryText::Text(template)) matches Some(t) && t.template == template && t.victim
            == 1 && (t.killer is None || t.killer == Some(2int)),
        entry_template(EntryText::Text(before + "by %2$s"@ + after)) matches Some(t) && t.killer == Some(
            2int,
        ),
        entry_template(
            EntryText::Slots { template: Some(template), victim: Some(victim), killer },
        ) matches Some(t) && t.template == template && t.victim == victim && t.killer == killer,
        entry_template(EntryText::Slots { template: None, victim: Some(victim), killer }) is None,
        entry_template(EntryText::Other) is None,
{
    text::lemma_has_inside(before, "by %2$s"@, after);
}

/// In the pattern of a form the victim is a name, the killer is anything but nothing, and
/// what else it leaves open may be anything.
pub proof fn lemma_groups_of_slots(t: TemplateText, slot: int)
    ensures
        slot == t.victim ==> slot_group(t, slot) == "("@ + NAME@ + ")"@,
        slot != t.victim && t.killer == Some(slot) ==> slot_group(t, slot) == "(.+?)"@,
        slot != t.victim && t.killer != Some(slot) ==> slot_group(t, slot) == "(.*?)"@,
{
}

/// Each form that is a pattern is compiled, in order, with its own slots, and the others
/// are passed over.
pub proof fn lemma_forms_are_compiled(v: Seq<TemplateText>, t: TemplateText)
    ensures
        pattern::regex_accepts(death_pattern(t)) ==> compiled(v.push(t)) == compiled(v).push(
            MatcherText { source: death_pattern(t), victim: t.victim, killer: t.killer },
        ),
        !pattern::regex_accepts(death_pattern(t)) ==> compiled(v.push(t)) == compiled(v),
        compiled(Seq::empty()).len() == 0,
{
    assert(v.push(t).drop_last() =~= v);
}

/// The forms of the game and those of the file are all compiled, the longest first.
pub proof fn lemma_all_forms_count(custom: Seq<TemplateText>, table: Seq<Seq<char>>, i: int)
    requires
        0 <= i < table.len(),
    ensures
        vanilla_templates(table).len() == table.len(),
        vanilla_templates(table)[i].template == table[i],
        vanilla_templates(table)[i].victim == 1,
        (custom + vanilla_templates(table)).contains(vanilla_templates(table)[i]),
        death_matchers(custom, table) == compiled(in_order(custom + vanilla_templates(table))),
{
    let all = custom + vanilla_templates(table);
    assert(all[custom.len() + i] == vanilla_templates(table)[i]);
}

/// The forms in a file are those of its groups that are lists and whose key does not begin
/// with an underscore.
pub proof fn lemma_groups_of_forms(groups: Seq<GroupText>, group: GroupText, entries: Seq<EntryText>, e: EntryText)
    ensures
        all_templates(groups.push(group)) == all_templates(groups) + group_templates(group),
        group.entries is None ==> group_templates(group).len() == 0,
        text::begins(group.key, "_"@) ==> group_templates(group).len() == 0,
        entry_template(e) matches Some(t) ==> entries_templates(entries.push(e)) == entries_templates(
            entries,
        ).push(t),
        entry_template(e) is None ==> entries_templates(entries.push(e)) == entries_templates(entries),
{
    assert(groups.push(group).drop_last() =~= groups);
    assert(entries.push(e).drop_last() =~= entries);
}

/// An entry of the file is a form, or an object with a form and its slots.
pub proof fn lemma_entries_of_files(
    s: Seq<char>,
    members: Seq<(Seq<char>, JsonText)>,
    number: JsonText,
    n: u64,
)
    requires
        number matches JsonText::Number { whole, .. } && whole == Some(n),
    ensures
        entry_of(JsonText::Text(s)) == EntryText::Text(s),
        entry_of(JsonText::Object(members)) matches EntryText::Slots { template, victim, killer } && {
            &&& json::member(members, "template"@) == Some(JsonText::Text(s)) ==> template == Some(s)
            &&& json::member(members, "template"@) is None ==> template is None
            &&& json::member(members, "victim"@) is None ==> victim is None
            &&& json::member(members, "killer"@) is None ==> killer is None
            &&& json::member(members, "victim"@) == Some(number) ==> victim == Some(n as int)
            &&& json::member(members, "killer"@) == Some(number) ==> killer == Some(n as int)
        },
{
}

/// A name in a line stands without the full stop or the mark behind it.
pub proof fn lemma_names_are_tidied(name: Seq<char>)
    requires
        name.len() > 0,
        forall|i: int| 0 <= i < name.len() ==> text::is_name_char(#[trigger] name[i]),
    ensures
        tidied(name) == name,
        tidied(name.push('.')) == name,
        tidied(name.push('!')) == name,
{
    reveal_strlit(")");
    assert(text::is_name_char(name[0]) && text::is_name_char(name[name.len() - 1]));
    let p = text::either('.', '!');
    lemma_no_space_around(name);
    assert(!p(name.last()));
    assert(text::drop_back(name, p) == name);
    assert(text::trimmed_end(name) == name);
    assert(!text::ends(name, ")"@)) by {
        if text::ends(name, ")"@) {
            assert(name.skip(name.len() - 1)[0] == ')');
        }
    }
    let dot = name.push('.');
    let mark = name.push('!');
    lemma_no_space_around(dot);
    lemma_no_space_around(mark);
    assert(p(dot.last()) && p(mark.last()));
    assert(dot.drop_last() =~= name);
    assert(mark.drop_last() =~= name);
    assert(text::drop_back(dot, p) == name);
    assert(text::drop_back(mark, p) == name);
}

proof fn lemma_no_space_around(s: Seq<char>)
    requires
        s.len() > 0,
        !text::is_white(s[0]),
        !text::is_white(s.last()),
    ensures
        text::trimmed(s) == s,
        text::trimmed_end(s) == s,
{
    assert(!text::white_pred()(s[0]) && !text::white_pred()(s.last()));
    assert(text::drop_front(s, text::white_pred()) == s);
    assert(text::drop_back(s, text::white_pred()) == s);
}

} // verus!
