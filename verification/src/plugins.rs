//! Which plugins a server runs.
//!
//! The command tree that a server sends on login holds namespaced commands, its
//! answer to a tab completion of its version command lists plugins by name, and
//! some servers answer `/plugins` in chat.
use vstd::prelude::*;
use vstd::string::*;

use crate::text;

verus! {

/// The aliases of Bukkit's version command whose completion lists plugins.
pub open spec fn version_alias(name: Seq<char>) -> bool {
    ||| name == "version"@
    ||| name == "ver"@
    ||| name == "about"@
    ||| name == "bukkit:version"@
    ||| name == "bukkit:ver"@
    ||| name == "bukkit:about"@
}

pub fn is_version_alias(name: &str) -> (b: bool)
    ensures
        b == version_alias(name@),
{
    text::same(name, "version") || text::same(name, "ver") || text::same(name, "about")
        || text::same(name, "bukkit:version") || text::same(name, "bukkit:ver") || text::same(
        name,
        "bukkit:about",
    )
}

#[derive(Debug, Clone, Copy, PartialEq, Eq, Structural)]
pub enum PluginSource {
    CommandTree,
    TabComplete,
    Chat,
    RegisterChannel,
    PluginChannel,
}

pub open spec fn source_label(source: PluginSource) -> Seq<char> {
    match source {
        PluginSource::CommandTree => "command_tree"@,
        PluginSource::TabComplete => "tab_complete"@,
        PluginSource::Chat => "chat"@,
        PluginSource::RegisterChannel => "register_channel"@,
        PluginSource::PluginChannel => "plugin_channel"@,
    }
}

impl PluginSource {
    pub fn as_str(self) -> (s: &'static str)
        ensures
            s@ == source_label(self),
    {
        match self {
            PluginSource::CommandTree => "command_tree",
            PluginSource::TabComplete => "tab_complete",
            PluginSource::Chat => "chat",
            PluginSource::RegisterChannel => "register_channel",
            PluginSource::PluginChannel => "plugin_channel",
        }
    }
}

/// A plugin and the ways in which it was found, in the order of their labels.
#[derive(Debug, Clone)]
pub struct DetectedPlugin {
    pub name: String,
    pub sources: Vec<String>,
}

// ---------------------------------------------------------------------------
// Names in a piece of text
// ---------------------------------------------------------------------------

pub fn normalize_plugin_name(name: &str) -> (r: String)
    ensures
        r@ == text::trimmed(name@),
{
    text::trim(name)
}

/// The namespace of a command, where it is a plugin's.
pub open spec fn namespace_text(name: Seq<char>) -> Option<Seq<char>> {
    match text::split_once_text(name, ":"@) {
        Some((head, _)) => {
            let namespace = text::trimmed(head);
            if namespace.len() == 0 || namespace == "minecraft"@ || namespace == "bukkit"@ {
                None
            } else {
                Some(text::trimmed(namespace))
            }
        },
        None => None,
    }
}

pub fn namespace_of_command(name: &str) -> (r: Option<String>)
    ensures
        text::opt_text(r) == namespace_text(name@),
{
    match text::split_once(name, ":") {
        Some((head, _)) => {
            let namespace = text::trim(&head);
            if namespace.as_str().is_empty() || text::same(&namespace, "minecraft") || text::same(
                &namespace,
                "bukkit",
            ) {
                None
            } else {
                Some(normalize_plugin_name(&namespace))
            }
        },
        None => None,
    }
}

// ---------------------------------------------------------------------------
// Channels
// ---------------------------------------------------------------------------

/// The plugin behind a channel of the form `namespace:path`.
pub open spec fn channel_plugin(channel: Seq<char>) -> Option<Seq<char>> {
    match text::split_once_text(channel, ":"@) {
        Some((head, _)) => {
            let namespace = text::trimmed(head);
            if namespace.len() == 0 || namespace == "minecraft"@ {
                None
            } else {
                Some(namespace)
            }
        },
        None => None,
    }
}

/// The plugin that a channel belongs to. The game's own channels are nobody's.
pub fn plugin_from_channel(channel: &str) -> (r: Option<String>)
    ensures
        text::opt_text(r) == channel_plugin(channel@),
{
    match text::split_once(channel, ":") {
        Some((head, _)) => {
            let namespace = normalize_plugin_name(&head);
            if namespace.as_str().is_empty() || text::same(&namespace, "minecraft") {
                None
            } else {
                Some(namespace)
            }
        },
        None => None,
    }
}

/// The parts of a payload between its zero bytes: one more than there are such
/// bytes.
pub open spec fn byte_parts(data: Seq<u8>) -> Seq<Seq<u8>>
    decreases data.len(),
{
    if data.len() == 0 {
        seq![Seq::<u8>::empty()]
    } else {
        let before = byte_parts(data.drop_last());
        if data.last() == 0 {
            before.push(Seq::empty())
        } else {
            before.drop_last().push(before.last().push(data.last()))
        }
    }
}

/// The texts among the parts, in order. A part that is empty or no UTF-8 is none.
pub open spec fn part_texts(parts: Seq<Seq<u8>>) -> Seq<Seq<char>>
    decreases parts.len(),
{
    if parts.len() == 0 {
        Seq::empty()
    } else {
        let before = part_texts(parts.drop_last());
        if parts.last().len() > 0 && vstd::utf8::valid_utf8(parts.last()) {
            before.push(vstd::utf8::decode_utf8(parts.last()))
        } else {
            before
        }
    }
}

/// `String::from_utf8`: the text that the bytes encode, where they encode one.
#[verifier::external_body]
fn text_from_bytes(bytes: Vec<u8>) -> (r: Option<String>)
    ensures
        text::opt_text(r) == (if vstd::utf8::valid_utf8(bytes@) {
            Some(vstd::utf8::decode_utf8(bytes@))
        } else {
            None
        }),
{
    String::from_utf8(bytes).ok()
}

fn take_part(channels: &mut Vec<String>, part: Vec<u8>)
    ensures
        text::texts(final(channels)@) == (if part@.len() > 0 && vstd::utf8::valid_utf8(part@) {
            text::texts(old(channels)@).push(vstd::utf8::decode_utf8(part@))
        } else {
            text::texts(old(channels)@)
        }),
{
    if part.len() > 0 {
        if let Some(channel) = text_from_bytes(part) {
            proof {
                text::lemma_texts_push(channels@, channel);
            }
            channels.push(channel);
        }
    }
}

/// The channels that the payload of a register or unregister packet names, one
/// behind the other with a zero byte between each two.
pub fn parse_register_channels(data: &[u8]) -> (r: Vec<String>)
    ensures
        text::texts(r@) == part_texts(byte_parts(data@)),
{
    let mut r: Vec<String> = Vec::new();
    let mut cur: Vec<u8> = Vec::new();
    let ghost mut done: Seq<Seq<u8>> = Seq::empty();
    assert(done.push(cur@) =~= byte_parts(data@.take(0)));
    assert(text::texts(r@) =~= part_texts(done));
    for i in 0..data.len()
        invariant
            done.push(cur@) == byte_parts(data@.take(i as int)),
            text::texts(r@) == part_texts(done),
    {
        proof {
            let now = data@.take(i + 1);
            assert(now.drop_last() =~= data@.take(i as int));
            assert(now.last() == data@[i as int]);
            let before = byte_parts(data@.take(i as int));
            assert(before.drop_last() =~= done);
            assert(before.last() == cur@);
            assert(done.push(cur@).drop_last() =~= done);
        }
        if data[i] == 0 {
            proof {
                done = done.push(cur@);
            }
            take_part(&mut r, cur);
            cur = Vec::new();
        } else {
            cur.push(data[i]);
        }
    }
    proof {
        assert(data@.take(data@.len() as int) =~= data@);
        assert(done.push(cur@).drop_last() =~= done);
    }
    take_part(&mut r, cur);
    r
}

/// The plugins that the channels belong to, in order.
pub open spec fn channel_plugins(channels: Seq<Seq<char>>) -> Seq<Seq<char>>
    decreases channels.len(),
{
    if channels.len() == 0 {
        Seq::empty()
    } else {
        match channel_plugin(channels.last()) {
            Some(name) => channel_plugins(channels.drop_last()).push(name),
            None => channel_plugins(channels.drop_last()),
        }
    }
}

pub fn plugins_from_register_channels(channels: &Vec<String>) -> (r: Vec<String>)
    ensures
        text::texts(r@) == channel_plugins(text::texts(channels@)),
{
    let ghost all = text::texts(channels@);
    let mut r: Vec<String> = Vec::new();
    assert(text::texts(r@) =~= channel_plugins(all.take(0)));
    for i in 0..channels.len()
        invariant
            all == text::texts(channels@),
            text::texts(r@) == channel_plugins(all.take(i as int)),
    {
        assert(all.take(i + 1).drop_last() =~= all.take(i as int));
        if let Some(name) = plugin_from_channel(&channels[i]) {
            proof {
                text::lemma_texts_push(r@, name);
            }
            r.push(name);
        }
    }
    assert(all.take(all.len() as int) =~= all);
    r
}

/// The plugin a token of a list names: its first word, without brackets round
/// the token. The heading of the list is none.
pub open spec fn token_name(raw: Seq<char>) -> Option<Seq<char>> {
    let brackets = text::one_of("()[]"@);
    let token = text::drop_back(text::drop_front(text::trimmed(raw), brackets), brackets);
    let words = text::words_text(token);
    if token.len() == 0 || words.len() == 0 {
        None
    } else {
        let name = text::trimmed(words[0]);
        if text::lowered(name) == text::lowered("plugins"@) || text::lowered(name)
            == text::lowered("server"@) {
            None
        } else {
            Some(text::trimmed(name))
        }
    }
}

pub fn clean_plugin_token(raw: &str) -> (r: Option<String>)
    ensures
        text::opt_text(r) == token_name(raw@),
{
    let token = text::trim_back_set(&text::trim_front_set(&text::trim(raw), "()[]"), "()[]");
    if token.as_str().is_empty() {
        return None;
    }
    let words = text::words(&token);
    if words.len() == 0 {
        assert(text::texts(words@).len() == 0);
        return None;
    }
    assert(text::texts(words@)[0] == words[0]@);
    let name = text::trim(&words[0]);
    if text::same_ignoring_case(&name, "plugins") || text::same_ignoring_case(&name, "server") {
        None
    } else {
        Some(normalize_plugin_name(&name))
    }
}

/// The plugin a completion names: what stands before " version".
pub open spec fn tab_line_name(line: Seq<char>) -> Option<Seq<char>> {
    let whole = text::trimmed(line);
    if whole.len() == 0 {
        None
    } else {
        match text::split_once_text(whole, " version"@) {
            Some((head, _)) => token_name(text::trimmed(head)),
            None => token_name(text::trimmed(whole)),
        }
    }
}

pub fn parse_tab_plugin_line(line: &str) -> (r: Option<String>)
    ensures
        text::opt_text(r) == tab_line_name(line@),
{
    let whole = text::trim(line);
    if whole.as_str().is_empty() {
        return None;
    }
    match text::split_once(&whole, " version") {
        Some((head, _)) => clean_plugin_token(&text::trim(&head)),
        None => clean_plugin_token(&text::trim(&whole)),
    }
}

// ---------------------------------------------------------------------------
// Names in a list
// ---------------------------------------------------------------------------

/// The names that `f` reads in the entries.
pub open spec fn names_in(
    entries: Seq<Seq<char>>,
    f: spec_fn(Seq<char>) -> Option<Seq<char>>,
) -> Set<Seq<char>>
    decreases entries.len(),
{
    if entries.len() == 0 {
        Set::empty()
    } else {
        match f(entries.last()) {
            Some(name) => names_in(entries.drop_last(), f).insert(name),
            None => names_in(entries.drop_last(), f),
        }
    }
}

/// A name is read exactly where some entry gives it.
pub proof fn lemma_names_in(
    entries: Seq<Seq<char>>,
    f: spec_fn(Seq<char>) -> Option<Seq<char>>,
    name: Seq<char>,
)
    ensures
        names_in(entries, f).contains(name) <==> exists|i: int|
            0 <= i < entries.len() && f(#[trigger] entries[i]) == Some(name),
    decreases entries.len(),
{
    if entries.len() > 0 {
        let init = entries.drop_last();
        lemma_names_in(init, f, name);
        if names_in(init, f).contains(name) {
            let i = choose|i: int| 0 <= i < init.len() && f(#[trigger] init[i]) == Some(name);
            assert(f(entries[i]) == Some(name));
        }
        if f(entries.last()) == Some(name) {
            assert(f(entries[entries.len() - 1]) == Some(name));
        }
        if exists|i: int| 0 <= i < entries.len() && f(#[trigger] entries[i]) == Some(name) {
            let i = choose|i: int|
                0 <= i < entries.len() && f(#[trigger] entries[i]) == Some(name);
            if i < init.len() {
                assert(f(init[i]) == Some(name));
            }
        }
    }
}

/// The first entry that is an alias of the version command.
pub open spec fn first_alias(names: Seq<Seq<char>>) -> Option<Seq<char>>
    decreases names.len(),
{
    if names.len() == 0 {
        None
    } else if first_alias(names.drop_last()) is Some {
        first_alias(names.drop_last())
    } else if version_alias(names.last()) {
        Some(names.last())
    } else {
        None
    }
}

/// The plugins whose commands stand in a command tree, and the first alias of
/// the version command in it.
pub fn plugins_from_command_names(names: &Vec<String>) -> (r: (Vec<String>, Option<String>))
    ensures
        text::strictly_sorted(text::texts(r.0@)),
        text::texts(r.0@).to_set() == names_in(
            text::texts(names@),
            |n: Seq<char>| namespace_text(n),
        ),
        text::opt_text(r.1) == first_alias(text::texts(names@)),
{
    let ghost f = |n: Seq<char>| namespace_text(n);
    let ghost all = text::texts(names@);
    let mut plugins: Vec<String> = Vec::new();
    let mut alias: Option<String> = None;
    assert(text::texts(plugins@).to_set() =~= names_in(all.take(0), f));
    for i in 0..names.len()
        invariant
            all == text::texts(names@),
            f == (|n: Seq<char>| namespace_text(n)),
            text::strictly_sorted(text::texts(plugins@)),
            text::texts(plugins@).to_set() == names_in(all.take(i as int), f),
            text::opt_text(alias) == first_alias(all.take(i as int)),
    {
        proof {
            assert(all.take(i + 1).drop_last() =~= all.take(i as int));
            assert(all.take(i + 1).last() == names[i as int]@);
        }
        if alias.is_none() && is_version_alias(&names[i]) {
            alias = Some(names[i].clone());
        }
        if let Some(namespace) = namespace_of_command(&names[i]) {
            text::insert_sorted(&mut plugins, namespace);
        }
    }
    assert(all.take(names.len() as int) =~= all);
    (plugins, alias)
}

/// The plugins that a completion of the version command lists.
pub fn plugins_from_tab_suggestions(lines: &Vec<String>) -> (r: Vec<String>)
    ensures
        text::strictly_sorted(text::texts(r@)),
        text::texts(r@).to_set() == names_in(
            text::texts(lines@),
            |n: Seq<char>| tab_line_name(n),
        ),
{
    let ghost f = |n: Seq<char>| tab_line_name(n);
    let ghost all = text::texts(lines@);
    let mut out: Vec<String> = Vec::new();
    assert(text::texts(out@).to_set() =~= names_in(all.take(0), f));
    for i in 0..lines.len()
        invariant
            all == text::texts(lines@),
            f == (|n: Seq<char>| tab_line_name(n)),
            text::strictly_sorted(text::texts(out@)),
            text::texts(out@).to_set() == names_in(all.take(i as int), f),
    {
        proof {
            assert(all.take(i + 1).drop_last() =~= all.take(i as int));
            assert(all.take(i + 1).last() == lines[i as int]@);
        }
        if let Some(name) = parse_tab_plugin_line(&lines[i]) {
            text::insert_sorted(&mut out, name);
        }
    }
    assert(all.take(lines.len() as int) =~= all);
    out
}

/// The plugin that a line of a bulleted list names.
pub open spec fn bullet_name(line: Seq<char>) -> Option<Seq<char>> {
    let t = text::trimmed(line);
    if text::begins(t, "-"@) || text::begins(t, "•"@) {
        token_name(text::drop_front(t, text::one_of("-•* "@)))
    } else {
        None
    }
}

/// The entries behind the first colon of a list, up to the second.
pub open spec fn listed_entries(line: Seq<char>) -> Seq<Seq<char>> {
    let parts = text::pieces(line, text::is_char(':'));
    if parts.len() > 1 {
        text::pieces(parts[1], text::either(',', ';'))
    } else {
        Seq::empty()
    }
}

/// The plugins that an answer to `/plugins` lists: behind a colon, with commas
/// or semicolons between, or one to a line behind a bullet.
pub open spec fn chat_plugins(line: Seq<char>) -> Set<Seq<char>> {
    if text::has_text(text::unicode_lower(line), "plugin"@) {
        names_in(listed_entries(line), |n: Seq<char>| token_name(n)).union(
            names_in(
                text::pieces(line, text::is_char('\n')),
                |n: Seq<char>| bullet_name(n),
            ),
        )
    } else {
        Set::empty()
    }
}

/// The pieces between occurrences of either character.
fn split_either(s: &str, a: char, b: char) -> (r: Vec<String>)
    ensures
        text::texts(r@) == text::pieces(s@, text::either(a, b)),
{
    let v = text::chars_of(s);
    let mut r: Vec<String> = Vec::new();
    let mut cur = String::new();
    assert(text::texts(r@).push(cur@) =~= text::pieces(s@.take(0), text::either(a, b)));
    for i in 0..v.len()
        invariant
            v@ == s@,
            text::texts(r@).push(cur@) == text::pieces(s@.take(i as int), text::either(a, b)),
    {
        proof {
            let now = s@.take(i + 1);
            assert(now.drop_last() =~= s@.take(i as int));
            assert(now.last() == s@[i as int]);
            let before = text::pieces(s@.take(i as int), text::either(a, b));
            assert(before.drop_last() =~= text::texts(r@));
            assert(before.last() == cur@);
        }
        if v[i] == a || v[i] == b {
            proof {
                text::lemma_texts_push(r@, cur);
            }
            r.push(cur);
            cur = String::new();
        } else {
            cur.push(v[i]);
        }
    }
    assert(s@.take(s@.len() as int) =~= s@);
    proof {
        text::lemma_texts_push(r@, cur);
    }
    r.push(cur);
    r
}

fn entries_listed(line: &str) -> (r: Vec<String>)
    ensures
        text::texts(r@) == listed_entries(line@),
{
    let parts = text::split(line, ':');
    if parts.len() > 1 {
        assert(text::texts(parts@)[1] == parts[1]@);
        split_either(&parts[1], ',', ';')
    } else {
        let r: Vec<String> = Vec::new();
        assert(text::texts(r@) =~= Seq::<Seq<char>>::empty());
        r
    }
}

fn bullet_of(line: &str) -> (r: Option<String>)
    ensures
        text::opt_text(r) == bullet_name(line@),
{
    let t = text::trim(line);
    if text::starts_with(&t, "-") || text::starts_with(&t, "•") {
        clean_plugin_token(&text::trim_front_set(&t, "-•* "))
    } else {
        None
    }
}

/// The plugins that an answer to `/plugins` lists.
pub fn plugins_from_chat(line: &str) -> (out: Vec<String>)
    ensures
        text::strictly_sorted(text::texts(out@)),
        text::texts(out@).to_set() == chat_plugins(line@),
{
    let mut out: Vec<String> = Vec::new();
    let lower = text::to_lowercase(line);
    if !text::has(&lower, "plugin") {
        assert(text::texts(out@).to_set() =~= Set::<Seq<char>>::empty());
        return out;
    }
    let ghost token = |n: Seq<char>| token_name(n);
    let ghost bullet = |n: Seq<char>| bullet_name(n);
    let entries = entries_listed(line);
    let ghost all = text::texts(entries@);
    assert(text::texts(out@).to_set() =~= names_in(all.take(0), token));
    for i in 0..entries.len()
        invariant
            all == text::texts(entries@),
            token == (|n: Seq<char>| token_name(n)),
            text::strictly_sorted(text::texts(out@)),
            text::texts(out@).to_set() == names_in(all.take(i as int), token),
    {
        proof {
            assert(all.take(i + 1).drop_last() =~= all.take(i as int));
            assert(all.take(i + 1).last() == entries[i as int]@);
        }
        if let Some(name) = clean_plugin_token(&entries[i]) {
            text::insert_sorted(&mut out, name);
        }
    }
    assert(all.take(entries.len() as int) =~= all);
    let lines = text::split(line, '\n');
    let ghost rows = text::texts(lines@);
    let ghost first = names_in(all, token);
    assert(first.union(names_in(rows.take(0), bullet)) =~= first);
    for i in 0..lines.len()
        invariant
            rows == text::texts(lines@),
            bullet == (|n: Seq<char>| bullet_name(n)),
            text::strictly_sorted(text::texts(out@)),
            text::texts(out@).to_set() == first.union(names_in(rows.take(i as int), bullet)),
    {
        proof {
            assert(rows.take(i + 1).drop_last() =~= rows.take(i as int));
            assert(rows.take(i + 1).last() == lines[i as int]@);
        }
        let ghost so_far = names_in(rows.take(i as int), bullet);
        if let Some(name) = bullet_of(&lines[i]) {
            text::insert_sorted(&mut out, name);
            assert(first.union(so_far).insert(name@) =~= first.union(so_far.insert(name@)));
        }
    }
    assert(rows.take(lines.len() as int) =~= rows);
    out
}

// ---------------------------------------------------------------------------
// Putting the sources together
// ---------------------------------------------------------------------------

pub open spec fn plugin_names(v: Seq<DetectedPlugin>) -> Seq<Seq<char>> {
    Seq::new(v.len(), |i: int| v[i].name@)
}

/// The pairs of a plugin's name and the label of a way in which it was found.
pub open spec fn finds(v: Seq<DetectedPlugin>) -> Set<(Seq<char>, Seq<char>)> {
    Set::new(
        |p: (Seq<char>, Seq<char>)|
            exists|k: int|
                0 <= k < v.len() && #[trigger] v[k].name@ == p.0 && text::texts(
                    v[k].sources@,
                ).contains(p.1),
    )
}

/// A list of plugins in the order of their names, each named once, and each with
/// the labels of its sources in order.
pub open spec fn well_listed(v: Seq<DetectedPlugin>) -> bool {
    &&& text::strictly_sorted(plugin_names(v))
    &&& forall|k: int|
        0 <= k < v.len() ==> text::strictly_sorted(text::texts(#[trigger] v[k].sources@))
            && v[k].sources.len() > 0
}

/// What the sources report: a source and the plugins it found.
pub open spec fn reported(sources: Seq<(PluginSource, Vec<String>)>) -> Set<(Seq<char>, Seq<char>)>
    decreases sources.len(),
{
    if sources.len() == 0 {
        Set::empty()
    } else {
        let (source, names) = sources.last();
        reported(sources.drop_last()).union(labelled(text::texts(names@), source_label(source)))
    }
}

/// Each name, normalised, with the label.
pub open spec fn labelled(names: Seq<Seq<char>>, label: Seq<char>) -> Set<(Seq<char>, Seq<char>)>
    decreases names.len(),
{
    if names.len() == 0 {
        Set::empty()
    } else {
        labelled(names.drop_last(), label).insert((text::trimmed(names.last()), label))
    }
}

fn place_of(v: &Vec<DetectedPlugin>, name: &str) -> (i: usize)
    requires
        well_listed(v@),
    ensures
        i <= v.len(),
        i < v.len() ==> text::at_most(name@, v[i as int].name@),
        forall|j: int| 0 <= j < i ==> !text::at_most(name@, #[trigger] v[j].name@),
{
    let mut i: usize = 0;
    while i < v.len() && !text::not_after(name, &v[i].name)
        invariant
            i <= v.len(),
            forall|j: int| 0 <= j < i ==> !text::at_most(name@, #[trigger] v[j].name@),
        decreases v.len() - i,
    {
        i += 1;
    }
    i
}

/// Notes that a plugin was found in some way.
fn note(v: &mut Vec<DetectedPlugin>, name: String, label: &str)
    requires
        well_listed(old(v)@),
    ensures
        well_listed(final(v)@),
        finds(final(v)@) == finds(old(v)@).insert((name@, label@)),
{
    let ghost before = v@;
    let at: usize = place_of(v, &name);
    let known = at < v.len() && text::same(&v[at].name, &name);
    if known {
        let mut entry = v.remove(at);
        let ghost old_entry = entry;
        assert(before[at as int] == entry);
        text::insert_sorted(&mut entry.sources, text::copy(label));
        proof {
            let old_labels = text::texts(old_entry.sources@);
            let new_labels = text::texts(entry.sources@);
            assert(new_labels.to_set().contains(label@));
            assert(new_labels.contains(label@));
            assert(entry.sources.len() > 0);
            assert(old_labels.to_set().insert(label@) == new_labels.to_set());
        }
        v.insert(at, entry);
        proof {
            let after = v@;
            assert(after =~= before.update(at as int, entry));
            assert(plugin_names(after) =~= plugin_names(before));
            assert forall|k: int| 0 <= k < after.len() implies text::strictly_sorted(
                text::texts(#[trigger] after[k].sources@),
            ) && after[k].sources.len() > 0 by {
                if k != at {
                    assert(after[k] == before[k]);
                }
            }
            assert forall|p: (Seq<char>, Seq<char>)|
                finds(after).contains(p) == finds(before).insert((name@, label@)).contains(p) by {
                let old_labels = text::texts(old_entry.sources@);
                let new_labels = text::texts(entry.sources@);
                if finds(after).contains(p) {
                    let k = choose|k: int|
                        0 <= k < after.len() && #[trigger] after[k].name@ == p.0 && text::texts(
                            after[k].sources@,
                        ).contains(p.1);
                    if k == at {
                        assert(new_labels.to_set().contains(p.1));
                        if p.1 != label@ {
                            assert(old_labels.to_set().contains(p.1));
                            assert(before[k].name@ == p.0);
                        }
                    } else {
                        assert(before[k].name@ == p.0);
                    }
                }
                if finds(before).contains(p) {
                    let k = choose|k: int|
                        0 <= k < before.len() && #[trigger] before[k].name@ == p.0 && text::texts(
                            before[k].sources@,
                        ).contains(p.1);
                    if k == at {
                        assert(old_labels.to_set().contains(p.1));
                        assert(new_labels.to_set().contains(p.1));
                    }
                    assert(after[k].name@ == p.0);
                }
                if p == (name@, label@) {
                    assert(new_labels.to_set().contains(label@));
                    assert(after[at as int].name@ == p.0);
                }
            }
            assert(finds(after) =~= finds(before).insert((name@, label@)));
        }
    } else {
        let mut sources: Vec<String> = Vec::new();
        sources.push(text::copy(label));
        let entry = DetectedPlugin { name, sources };
        v.insert(at, entry);
        proof {
            let after = v@;
            assert(after =~= before.insert(at as int, entry));
            let names = plugin_names(before);
            let now = plugin_names(after);
            assert(now =~= names.insert(at as int, entry.name@));
            assert(text::texts(entry.sources@) =~= seq![label@]);
            assert(seq![label@][0] == label@);
            assert forall|a: int, b: int| 0 <= a < b < now.len() implies #[trigger] text::at_most(
                now[a],
                now[b],
            ) && now[a] != now[b] by {
                let x = if a < at {
                    a
                } else {
                    a - 1
                };
                let y = if b < at {
                    b
                } else {
                    b - 1
                };
                if a != at && b != at {
                    assert(text::at_most(names[x], names[y]));
                } else if b == at {
                    assert(!text::at_most(entry.name@, before[a].name@));
                    text::lemma_at_most_total(entry.name@, before[a].name@);
                } else {
                    // The entry stands before the one it was put in front of.
                    assert(before[at as int].name@ == names[at as int]);
                    if y > at {
                        assert(text::at_most(names[at as int], names[y]));
                        text::lemma_at_most_transitive(entry.name@, names[at as int], names[y]);
                        if entry.name@ == names[y] {
                            text::lemma_at_most_antisymmetric(names[at as int], names[y]);
                        }
                    }
                }
            }
            assert forall|k: int| 0 <= k < after.len() implies text::strictly_sorted(
                text::texts(#[trigger] after[k].sources@),
            ) && after[k].sources.len() > 0 by {
                if k < at {
                    assert(after[k] == before[k]);
                } else if k > at {
                    assert(after[k] == before[k - 1]);
                }
            }
            assert forall|p: (Seq<char>, Seq<char>)|
                finds(after).contains(p) == finds(before).insert((entry.name@, label@)).contains(
                    p,
                ) by {
                if finds(after).contains(p) {
                    let k = choose|k: int|
                        0 <= k < after.len() && #[trigger] after[k].name@ == p.0 && text::texts(
                            after[k].sources@,
                        ).contains(p.1);
                    if k < at {
                        assert(before[k].name@ == p.0);
                    } else if k > at {
                        assert(before[k - 1].name@ == p.0);
                    }
                }
                if finds(before).contains(p) {
                    let k = choose|k: int|
                        0 <= k < before.len() && #[trigger] before[k].name@ == p.0 && text::texts(
                            before[k].sources@,
                        ).contains(p.1);
                    if k < at {
                        assert(after[k].name@ == p.0);
                    } else {
                        assert(after[k + 1].name@ == p.0);
                    }
                }
                if p == (entry.name@, label@) {
                    assert(after[at as int].name@ == p.0);
                }
            }
            assert(finds(after) =~= finds(before).insert((entry.name@, label@)));
        }
    }
}

/// Puts together what the sources found: each plugin once, in the order of the
/// names, with every way in which it was found.
pub fn merge_plugins(sources: &Vec<(PluginSource, Vec<String>)>) -> (r: Vec<DetectedPlugin>)
    ensures
        well_listed(r@),
        finds(r@) == reported(sources@),
{
    let mut r: Vec<DetectedPlugin> = Vec::new();
    assert(finds(r@) =~= reported(sources@.take(0)));
    for i in 0..sources.len()
        invariant
            well_listed(r@),
            finds(r@) == reported(sources@.take(i as int)),
    {
        let source = sources[i].0;
        let names = &sources[i].1;
        let ghost before = finds(r@);
        let ghost label = source_label(source);
        let ghost all = text::texts(names@);
        assert(sources@.take(i + 1).drop_last() =~= sources@.take(i as int));
        assert(before.union(labelled(all.take(0), label)) =~= before);
        for j in 0..names.len()
            invariant
                all == text::texts(names@),
                label == source_label(source),
                well_listed(r@),
                finds(r@) == before.union(labelled(all.take(j as int), label)),
        {
            proof {
                assert(all.take(j + 1).drop_last() =~= all.take(j as int));
                assert(all.take(j + 1).last() == names[j as int]@);
                let one = (text::trimmed(names[j as int]@), label);
                assert(before.union(labelled(all.take(j as int), label)).insert(one)
                    =~= before.union(labelled(all.take(j as int), label).insert(one)));
            }
            note(&mut r, normalize_plugin_name(&names[j]), source.as_str());
        }
        assert(all.take(names.len() as int) =~= all);
    }
    assert(sources@.take(sources.len() as int) =~= sources@);
    r
}

// ---------------------------------------------------------------------------
// Where the names come from
// ---------------------------------------------------------------------------

/// What stands before the colon of a command is its plugin, but for those of the game and
/// of the server; of a channel only those of the game do not count.
pub proof fn lemma_namespaces(head: Seq<char>, tail: Seq<char>)
    requires
        !head.contains(':'),
        text::trimmed(head) == head,
        head.len() > 0,
    ensures
        head != "minecraft"@ && head != "bukkit"@ ==> namespace_text(head.push(':') + tail) == Some(head),
        head == "minecraft"@ || head == "bukkit"@ ==> namespace_text(head.push(':') + tail) is None,
        head != "minecraft"@ ==> channel_plugin(head.push(':') + tail) == Some(head),
        head == "minecraft"@ ==> channel_plugin(head.push(':') + tail) is None,
{
    reveal_strlit(":");
    assert(":"@ =~= seq![':']);
    text::lemma_first_one(head, ':', tail, ":"@);
    let s = head.push(':') + tail;
    assert(s.take(head.len() as int) =~= head);
}

/// The plugins of channels come in the order of the channels.
pub proof fn lemma_channels_in_order(channels: Seq<Seq<char>>, channel: Seq<char>)
    ensures
        channel_plugin(channel) matches Some(name) ==> channel_plugins(channels.push(channel))
            == channel_plugins(channels).push(name),
        channel_plugin(channel) is None ==> channel_plugins(channels.push(channel)) == channel_plugins(
            channels,
        ),
{
    assert(channels.push(channel).drop_last() =~= channels);
}

/// The first command that tells versions is the one that is asked.
pub proof fn lemma_first_alias(names: Seq<Seq<char>>, name: Seq<char>)
    ensures
        first_alias(Seq::empty()) is None,
        first_alias(names) is Some ==> first_alias(names.push(name)) == first_alias(names),
        first_alias(names) is None && version_alias(name) ==> first_alias(names.push(name)) == Some(name),
        first_alias(names) is None && !version_alias(name) ==> first_alias(names.push(name)) is None,
        version_alias("version"@) && version_alias("ver"@) && version_alias("about"@),
        version_alias("bukkit:version"@) && version_alias("bukkit:ver"@) && version_alias(
            "bukkit:about"@,
        ),
{
    assert(names.push(name).drop_last() =~= names);
}

/// The ways in which plugins are found have their own names.
pub proof fn lemma_ways_are_named()
    ensures
        source_label(PluginSource::CommandTree) == "command_tree"@,
        source_label(PluginSource::TabComplete) == "tab_complete"@,
        source_label(PluginSource::Chat) == "chat"@,
        source_label(PluginSource::RegisterChannel) == "register_channel"@,
        source_label(PluginSource::PluginChannel) == "plugin_channel"@,
{
}

/// A line of chat without the word names no plugin.
pub proof fn lemma_other_chat_names_none(line: Seq<char>)
    requires
        !text::has_text(text::unicode_lower(line), "plugin"@),
    ensures
        chat_plugins(line) == Set::<Seq<char>>::empty(),
{
}

/// The bytes of a list of channels are split at the zeros.
pub proof fn lemma_bytes_are_split(data: Seq<u8>, b: u8)
    ensures
        byte_parts(Seq::empty()) == seq![Seq::<u8>::empty()],
        byte_parts(data.push(0)) == byte_parts(data).push(Seq::empty()),
        b != 0 ==> byte_parts(data.push(b)).len() == byte_parts(data).len() && byte_parts(data.push(b))
            .last() == byte_parts(data).last().push(b),
        byte_parts(data).len() > 0,
    decreases data.len(),
{
    assert(data.push(0).drop_last() =~= data);
    assert(data.push(b).drop_last() =~= data);
    if data.len() > 0 {
        lemma_bytes_are_split(data.drop_last(), data.last());
        assert(data.drop_last().push(data.last()) =~= data);
    }
}

/// A plugin that is reported is reported under each source that named it.
pub proof fn lemma_reports(names: Seq<Seq<char>>, name: Seq<char>, label: Seq<char>)
    ensures
        labelled(names.push(name), label).contains((text::trimmed(name), label)),
        forall|p: (Seq<char>, Seq<char>)|
            labelled(names, label).contains(p) ==> #[trigger] labelled(names.push(name), label).contains(p),
        forall|p: (Seq<char>, Seq<char>)| #[trigger]
            labelled(names.push(name), label).contains(p) ==> p == (text::trimmed(name), label) || labelled(
                names,
                label,
            ).contains(p),
{
    assert(names.push(name).drop_last() =~= names);
}

} // verus!
