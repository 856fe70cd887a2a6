//! The probe for plugins that runs once after each login.
//!
//! It listens to what the server sends by itself, asks for one completion of the
//! version command, where allowed asks `/plugins` in chat, and reports what it
//! found after three hundred ticks.
use vstd::prelude::*;
use vstd::string::*;

use crate::plugins;
use crate::plugins::{DetectedPlugin, PluginSource};
use crate::text;

verus! {

/// Ticks after which the probe asks for a completion, asks in chat, asks in chat
/// again, and ends.
pub const TAB_TICK: u32 = 20;

pub const CHAT_TICK: u32 = 60;

pub const CHAT_AGAIN_TICK: u32 = 160;

pub const LAST_TICK: u32 = 300;

/// What the probe has found so far. The lists are sorted and hold nothing twice.
pub struct PluginProbeState {
    /// When the probe started; zero while it does not run.
    pub probe_start_ms: i64,
    pub ticks_since_start: u32,
    pub saved: bool,
    pub server_brand: Option<String>,
    pub tree_plugins: Vec<String>,
    pub tab_plugins: Vec<String>,
    pub chat_plugins: Vec<String>,
    pub register_plugins: Vec<String>,
    pub channel_plugins: Vec<String>,
    pub version_alias: Option<String>,
    pub pending_tab_id: Option<u32>,
    pub tab_requested: bool,
    pub chat_requested: bool,
    pub waiting_chat: bool,
    pub methods: Vec<String>,
}

/// The contents of a [`PluginProbeState`].
#[verifier::ext_equal]
pub struct ProbeText {
    pub start_ms: int,
    pub ticks: int,
    pub saved: bool,
    pub brand: Option<Seq<char>>,
    pub tree: Set<Seq<char>>,
    pub tab: Set<Seq<char>>,
    pub chat: Set<Seq<char>>,
    pub register: Set<Seq<char>>,
    pub channel: Set<Seq<char>>,
    pub alias: Option<Seq<char>>,
    pub pending: Option<u32>,
    pub tab_requested: bool,
    pub chat_requested: bool,
    pub waiting_chat: bool,
    pub methods: Set<Seq<char>>,
}

pub open spec fn members(v: Vec<String>) -> Set<Seq<char>> {
    text::texts(v@).to_set()
}

impl View for PluginProbeState {
    type V = ProbeText;

    open spec fn view(&self) -> ProbeText {
        ProbeText {
            start_ms: self.probe_start_ms as int,
            ticks: self.ticks_since_start as int,
            saved: self.saved,
            brand: text::opt_text(self.server_brand),
            tree: members(self.tree_plugins),
            tab: members(self.tab_plugins),
            chat: members(self.chat_plugins),
            register: members(self.register_plugins),
            channel: members(self.channel_plugins),
            alias: text::opt_text(self.version_alias),
            pending: self.pending_tab_id,
            tab_requested: self.tab_requested,
            chat_requested: self.chat_requested,
            waiting_chat: self.waiting_chat,
            methods: members(self.methods),
        }
    }
}

/// A probe that has found nothing and does not run.
pub open spec fn idle() -> ProbeText {
    ProbeText {
        start_ms: 0,
        ticks: 0,
        saved: false,
        brand: None,
        tree: Set::empty(),
        tab: Set::empty(),
        chat: Set::empty(),
        register: Set::empty(),
        channel: Set::empty(),
        alias: None,
        pending: None,
        tab_requested: false,
        chat_requested: false,
        waiting_chat: false,
        methods: Set::empty(),
    }
}

impl PluginProbeState {
    pub open spec fn wf(self) -> bool {
        &&& self.ticks_since_start < LAST_TICK
        &&& text::strictly_sorted(text::texts(self.tree_plugins@))
        &&& text::strictly_sorted(text::texts(self.tab_plugins@))
        &&& text::strictly_sorted(text::texts(self.chat_plugins@))
        &&& text::strictly_sorted(text::texts(self.register_plugins@))
        &&& text::strictly_sorted(text::texts(self.channel_plugins@))
        &&& text::strictly_sorted(text::texts(self.methods@))
    }

    /// A probe that does not run.
    pub fn new() -> (p: Self)
        ensures
            p.wf(),
            p@ == idle(),
    {
        let p = PluginProbeState {
            probe_start_ms: 0,
            ticks_since_start: 0,
            saved: false,
            server_brand: None,
            tree_plugins: Vec::new(),
            tab_plugins: Vec::new(),
            chat_plugins: Vec::new(),
            register_plugins: Vec::new(),
            channel_plugins: Vec::new(),
            version_alias: None,
            pending_tab_id: None,
            tab_requested: false,
            chat_requested: false,
            waiting_chat: false,
            methods: Vec::new(),
        };
        assert(p@ =~= idle());
        p
    }

    /// Forgets everything.
    pub fn reset(&mut self)
        ensures
            final(self).wf(),
            final(self)@ == idle(),
    {
        *self = PluginProbeState::new();
    }

    /// Starts anew at a login.
    pub fn restart(&mut self, now_ms: i64)
        ensures
            final(self).wf(),
            final(self)@ == (ProbeText { start_ms: now_ms as int, ..idle() }),
    {
        self.reset();
        self.probe_start_ms = now_ms;
    }
}

/// What a packet tells the probe.
pub enum ProbePacket {
    /// The names of the commands in the command tree.
    Commands(Vec<String>),
    /// The answer to a completion.
    Suggestions { id: u32, lines: Vec<String> },
    /// The brand that the server gives itself.
    Brand(String),
    /// The plugins whose channels the server registers.
    Register(Vec<String>),
    /// The plugins whose channels the server takes back.
    Unregister(Vec<String>),
    /// A payload on a channel, with the plugin whose channel it is.
    Channel(Option<String>),
    Other,
}

/// A completion to ask the server for.
pub struct TabRequest {
    pub id: u32,
    pub command: String,
}

/// What one packet makes of the probe, before a completion is asked for.
pub open spec fn heard(p: ProbeText, packet: ProbePacket) -> ProbeText {
    match packet {
        ProbePacket::Commands(names) => {
            let tree = plugins::names_in(
                text::texts(names@),
                |n: Seq<char>| plugins::namespace_text(n),
            );
            let alias = plugins::first_alias(text::texts(names@));
            ProbeText {
                tree: p.tree.union(tree),
                methods: if tree == Set::<Seq<char>>::empty() {
                    p.methods
                } else {
                    p.methods.insert(plugins::source_label(PluginSource::CommandTree))
                },
                alias: if alias is Some {
                    alias
                } else {
                    p.alias
                },
                ..p
            }
        },
        ProbePacket::Suggestions { id, lines } => if p.pending == Some(id) {
            let tab = plugins::names_in(
                text::texts(lines@),
                |n: Seq<char>| plugins::tab_line_name(n),
            );
            ProbeText {
                tab: p.tab.union(tab),
                methods: if tab == Set::<Seq<char>>::empty() {
                    p.methods
                } else {
                    p.methods.insert(plugins::source_label(PluginSource::TabComplete))
                },
                pending: None,
                ..p
            }
        } else {
            p
        },
        ProbePacket::Brand(brand) => ProbeText { brand: Some(brand@), ..p },
        ProbePacket::Register(found) => ProbeText {
            register: p.register.union(members(found)),
            methods: if found.len() == 0 {
                p.methods
            } else {
                p.methods.insert(plugins::source_label(PluginSource::RegisterChannel))
            },
            ..p
        },
        ProbePacket::Unregister(found) => ProbeText {
            register: p.register.difference(members(found)),
            ..p
        },
        ProbePacket::Channel(Some(name)) => ProbeText {
            channel: p.channel.insert(name@),
            methods: p.methods.insert(plugins::source_label(PluginSource::PluginChannel)),
            ..p
        },
        _ => p,
    }
}

/// The number of a completion asked for at a time.
pub open spec fn tab_id(now_ms: i64) -> u32 {
    (now_ms as u32) ^ 0xA5A5_0000u32
}

/// Whether a completion is asked for.
pub open spec fn asks(p: ProbeText) -> bool {
    !p.tab_requested && p.alias is Some
}

/// The probe once a completion was asked for, where one is.
pub open spec fn asked(p: ProbeText, now_ms: i64) -> ProbeText {
    if asks(p) {
        ProbeText { pending: Some(tab_id(now_ms)), tab_requested: true, ..p }
    } else {
        p
    }
}

/// Whether the request is the one for the completion that the probe asks for.
pub open spec fn requests(p: ProbeText, now_ms: i64, request: Option<TabRequest>) -> bool {
    match request {
        Some(r) => asks(p) && r.id == tab_id(now_ms) && r.command@ == p.alias->0 + " "@,
        None => !asks(p),
    }
}

/// Asks for a completion of the version command, once.
pub fn maybe_request_tab_complete(p: &mut PluginProbeState, now_ms: i64) -> (r: Option<TabRequest>)
    requires
        old(p).wf(),
    ensures
        final(p).wf(),
        final(p)@ == asked(old(p)@, now_ms),
        requests(old(p)@, now_ms, r),
{
    if p.tab_requested {
        return None;
    }
    match &p.version_alias {
        None => None,
        Some(alias) => {
            let command = text::cat2(alias, " ");
            let id: u32 = (now_ms as u32) ^ 0xA5A5_0000u32;
            p.pending_tab_id = Some(id);
            p.tab_requested = true;
            Some(TabRequest { id, command })
        },
    }
}

proof fn lemma_empty_list(v: Vec<String>)
    ensures
        v.len() == 0 <==> members(v) == Set::<Seq<char>>::empty(),
{
    let all = text::texts(v@);
    if v.len() == 0 {
        assert(members(v) =~= Set::<Seq<char>>::empty());
    } else {
        assert(all[0] == v[0]@);
        assert(all.contains(v[0]@));
        assert(members(v).contains(v[0]@));
    }
}

/// Takes in a packet. Once the report is saved nothing is heard any more.
pub fn handle_probe_packet(p: &mut PluginProbeState, packet: ProbePacket, now_ms: i64) -> (r:
    Option<TabRequest>)
    requires
        old(p).wf(),
    ensures
        final(p).wf(),
        old(p).saved ==> final(p)@ == old(p)@ && r is None,
        !old(p).saved ==> match packet {
            ProbePacket::Commands(_) => final(p)@ == asked(heard(old(p)@, packet), now_ms)
                && requests(heard(old(p)@, packet), now_ms, r),
            _ => final(p)@ == heard(old(p)@, packet) && r is None,
        },
{
    if p.saved {
        return None;
    }
    let ghost before = p@;
    match packet {
        ProbePacket::Commands(names) => {
            let (tree, alias) = plugins::plugins_from_command_names(&names);
            proof {
                lemma_empty_list(tree);
            }
            if tree.len() > 0 {
                text::insert_all(&mut p.tree_plugins, &tree);
                text::insert_sorted(
                    &mut p.methods,
                    text::copy(PluginSource::CommandTree.as_str()),
                );
            } else {
                assert(before.tree.union(members(tree)) =~= before.tree);
            }
            if alias.is_some() {
                p.version_alias = alias;
            }
            assert(p@ =~= heard(before, packet));
            return maybe_request_tab_complete(p, now_ms);
        },
        ProbePacket::Suggestions { id, lines } => {
            let mine = match p.pending_tab_id {
                Some(pending) => pending == id,
                None => false,
            };
            if mine {
                let tab = plugins::plugins_from_tab_suggestions(&lines);
                proof {
                    lemma_empty_list(tab);
                }
                if tab.len() > 0 {
                    text::insert_all(&mut p.tab_plugins, &tab);
                    text::insert_sorted(
                        &mut p.methods,
                        text::copy(PluginSource::TabComplete.as_str()),
                    );
                } else {
                    assert(before.tab.union(members(tab)) =~= before.tab);
                }
                p.pending_tab_id = None;
                assert(p@ =~= heard(before, packet));
            }
        },
        ProbePacket::Brand(brand) => {
            p.server_brand = Some(brand);
        },
        ProbePacket::Register(found) => {
            proof {
                lemma_empty_list(found);
            }
            if found.len() > 0 {
                text::insert_all(&mut p.register_plugins, &found);
                text::insert_sorted(
                    &mut p.methods,
                    text::copy(PluginSource::RegisterChannel.as_str()),
                );
            } else {
                assert(before.register.union(members(found)) =~= before.register);
            }
            assert(p@ =~= heard(before, packet));
        },
        ProbePacket::Unregister(found) => {
            let ghost all = text::texts(found@);
            assert(before.register.difference(all.take(0).to_set()) =~= before.register);
            let mut list = Vec::new();
            std::mem::swap(&mut list, &mut p.register_plugins);
            for i in 0..found.len()
                invariant
                    all == text::texts(found@),
                    text::strictly_sorted(text::texts(list@)),
                    members(list) == before.register.difference(all.take(i as int).to_set()),
            {
                proof {
                    text::lemma_take_to_set(all, i as int);
                    assert(before.register.difference(all.take(i as int).to_set()).remove(
                        found[i as int]@,
                    ) =~= before.register.difference(all.take(i + 1).to_set()));
                }
                text::remove_sorted(&mut list, &found[i]);
            }
            assert(all.take(found.len() as int) =~= all);
            p.register_plugins = list;
            assert(p@ =~= heard(before, packet));
        },
        ProbePacket::Channel(found) => {
            if let Some(name) = found {
                text::insert_sorted(&mut p.channel_plugins, name);
                text::insert_sorted(
                    &mut p.methods,
                    text::copy(PluginSource::PluginChannel.as_str()),
                );
            }
            assert(p@ =~= heard(before, packet));
        },
        ProbePacket::Other => {},
    }
    None
}

/// What a line of chat makes of a probe that waits for one.
pub open spec fn heard_chat(p: ProbeText, line: Seq<char>) -> ProbeText {
    let found = plugins::chat_plugins(line);
    if p.waiting_chat && found != Set::<Seq<char>>::empty() {
        ProbeText {
            chat: p.chat.union(found),
            methods: p.methods.insert(plugins::source_label(PluginSource::Chat)),
            waiting_chat: false,
            ..p
        }
    } else {
        p
    }
}

/// Takes in a line of chat.
pub fn hear_chat(p: &mut PluginProbeState, line: &str)
    requires
        old(p).wf(),
    ensures
        final(p).wf(),
        final(p)@ == heard_chat(old(p)@, line@),
{
    let ghost before = p@;
    if p.waiting_chat {
        let found = plugins::plugins_from_chat(line);
        proof {
            lemma_empty_list(found);
        }
        if found.len() > 0 {
            text::insert_all(&mut p.chat_plugins, &found);
            text::insert_sorted(&mut p.methods, text::copy(PluginSource::Chat.as_str()));
            p.waiting_chat = false;
            assert(p@ =~= heard_chat(before, line@));
        }
    }
}

/// What a tick asks for.
pub struct ProbeTick {
    /// A command to send in chat.
    pub say: Option<&'static str>,
    pub request: Option<TabRequest>,
    /// The finished probe, to be reported.
    pub finished: Option<PluginProbeState>,
}

pub open spec fn running(p: ProbeText) -> bool {
    !p.saved && p.start_ms != 0
}

/// The probe after its counter went up and a question in chat was due.
pub open spec fn counted(p: ProbeText, chat_probe: bool) -> ProbeText {
    let ticks = p.ticks + 1;
    let first = !p.chat_requested && ticks == CHAT_TICK;
    ProbeText {
        ticks,
        chat_requested: p.chat_requested || first,
        waiting_chat: p.waiting_chat || (first && chat_probe),
        ..p
    }
}

/// What is said in chat on a tick.
pub open spec fn said(p: ProbeText, chat_probe: bool) -> Option<Seq<char>> {
    let now = counted(p, chat_probe);
    if !p.chat_requested && now.ticks == CHAT_TICK && chat_probe {
        Some("/plugins"@)
    } else if now.waiting_chat && now.ticks == CHAT_AGAIN_TICK {
        Some("/pl"@)
    } else {
        None
    }
}

/// The probe after a tick.
pub open spec fn ticked(p: ProbeText, chat_probe: bool, now_ms: i64) -> ProbeText {
    let now = counted(p, chat_probe);
    if !running(p) {
        p
    } else if now.ticks >= LAST_TICK {
        idle()
    } else if now.ticks == TAB_TICK {
        asked(now, now_ms)
    } else {
        now
    }
}

/// Counts a tick, asks what is due, and hands the probe out when it is over.
pub fn plugin_probe_tick(p: &mut PluginProbeState, chat_probe: bool, now_ms: i64) -> (r: ProbeTick)
    requires
        old(p).wf(),
    ensures
        final(p).wf(),
        final(p)@ == ticked(old(p)@, chat_probe, now_ms),
        !running(old(p)@) ==> r.say is None && r.request is None && r.finished is None,
        running(old(p)@) ==> {
            let now = counted(old(p)@, chat_probe);
            &&& text::opt_str(r.say) == said(old(p)@, chat_probe)
            &&& r.finished is Some == (now.ticks >= LAST_TICK)
            &&& r.finished matches Some(f) ==> f@ == (ProbeText { waiting_chat: false, ..now })
                && text::strictly_sorted(text::texts(f.methods@))
            &&& now.ticks == TAB_TICK ==> requests(now, now_ms, r.request)
            &&& now.ticks != TAB_TICK ==> r.request is None
        },
{
    if p.saved || p.probe_start_ms == 0 {
        return ProbeTick { say: None, request: None, finished: None };
    }
    let ghost before = p@;
    let ticks: u32 = p.ticks_since_start + 1;
    let mut say: Option<&'static str> = None;
    if !p.chat_requested && ticks == CHAT_TICK {
        p.chat_requested = true;
        if chat_probe {
            p.waiting_chat = true;
            say = Some("/plugins");
        }
    }
    if p.waiting_chat && ticks == CHAT_AGAIN_TICK {
        say = Some("/pl");
    }
    if ticks >= LAST_TICK {
        p.waiting_chat = false;
        let mut over = PluginProbeState::new();
        std::mem::swap(&mut over, p);
        over.ticks_since_start = ticks;
        assert(over@ =~= ProbeText { waiting_chat: false, ..counted(before, chat_probe) });
        return ProbeTick { say, request: None, finished: Some(over) };
    }
    p.ticks_since_start = ticks;
    assert(p@ =~= counted(before, chat_probe));
    let request = if ticks == TAB_TICK {
        maybe_request_tab_complete(p, now_ms)
    } else {
        None
    };
    ProbeTick { say, request, finished: None }
}

/// What is saved of a probe.
pub struct ProbeReport {
    pub plugins: Vec<DetectedPlugin>,
    pub methods: Vec<String>,
    pub notes: Option<String>,
}

/// The note on a probe that found nothing.
pub open spec fn nothing_found() -> Seq<char> {
    "No plugins detected — server likely hides command tree, tab-complete, /plugins, and register channels."@
}

/// Each name with a label.
pub open spec fn found_by(names: Set<Seq<char>>, source: PluginSource) -> Set<
    (Seq<char>, Seq<char>),
> {
    Set::new(
        |p: (Seq<char>, Seq<char>)|
            p.1 == plugins::source_label(source) && exists|n: Seq<char>| #[trigger]
                names.contains(n) && p.0 == text::trimmed(n),
    )
}

/// Everything that a probe found, with the way in which it was found.
pub open spec fn all_found(p: ProbeText) -> Set<(Seq<char>, Seq<char>)> {
    found_by(p.tree, PluginSource::CommandTree).union(
        found_by(p.tab, PluginSource::TabComplete),
    ).union(found_by(p.chat, PluginSource::Chat)).union(
        found_by(p.register, PluginSource::RegisterChannel),
    ).union(found_by(p.channel, PluginSource::PluginChannel))
}

proof fn lemma_labelled(names: Seq<Seq<char>>, source: PluginSource)
    ensures
        plugins::labelled(names, plugins::source_label(source)) == found_by(
            names.to_set(),
            source,
        ),
    decreases names.len(),
{
    let label = plugins::source_label(source);
    if names.len() == 0 {
        assert(plugins::labelled(names, label) =~= found_by(names.to_set(), source));
    } else {
        let init = names.drop_last();
        lemma_labelled(init, source);
        assert forall|p: (Seq<char>, Seq<char>)|
            plugins::labelled(names, label).contains(p) == found_by(
                names.to_set(),
                source,
            ).contains(p) by {
            if found_by(init.to_set(), source).contains(p) {
                let n = choose|n: Seq<char>| #[trigger]
                    init.to_set().contains(n) && p.0 == text::trimmed(n);
                let k = choose|k: int| 0 <= k < init.len() && init[k] == n;
                assert(names[k] == n);
                assert(names.to_set().contains(n));
            }
            if p == (text::trimmed(names.last()), label) {
                assert(names[names.len() - 1] == names.last());
                assert(names.to_set().contains(names.last()));
            }
            if found_by(names.to_set(), source).contains(p) {
                let n = choose|n: Seq<char>| #[trigger]
                    names.to_set().contains(n) && p.0 == text::trimmed(n);
                let k = choose|k: int| 0 <= k < names.len() && names[k] == n;
                if k < init.len() {
                    assert(init[k] == n);
                    assert(init.to_set().contains(n));
                }
            }
        }
        assert(plugins::labelled(names, label) =~= found_by(names.to_set(), source));
    }
}

/// Puts the report of a finished probe together.
pub fn probe_report(p: PluginProbeState) -> (r: ProbeReport)
    ensures
        plugins::well_listed(r.plugins@),
        plugins::finds(r.plugins@) == all_found(p@),
        r.methods@ == p.methods@,
        text::opt_text(r.notes) == (if all_found(p@) == Set::<(Seq<char>, Seq<char>)>::empty() {
            Some(nothing_found())
        } else {
            None
        }),
{
    let ghost whole = p@;
    proof {
        lemma_labelled(text::texts(p.tree_plugins@), PluginSource::CommandTree);
        lemma_labelled(text::texts(p.tab_plugins@), PluginSource::TabComplete);
        lemma_labelled(text::texts(p.chat_plugins@), PluginSource::Chat);
        lemma_labelled(text::texts(p.register_plugins@), PluginSource::RegisterChannel);
        lemma_labelled(text::texts(p.channel_plugins@), PluginSource::PluginChannel);
    }
    let mut sources: Vec<(PluginSource, Vec<String>)> = Vec::new();
    sources.push((PluginSource::CommandTree, p.tree_plugins));
    sources.push((PluginSource::TabComplete, p.tab_plugins));
    sources.push((PluginSource::Chat, p.chat_plugins));
    sources.push((PluginSource::RegisterChannel, p.register_plugins));
    sources.push((PluginSource::PluginChannel, p.channel_plugins));
    proof {
        let s = sources@;
        assert(s.drop_last().drop_last().drop_last().drop_last().drop_last().len() == 0);
        reveal_with_fuel(plugins::reported, 6);
        assert(plugins::reported(s) =~= all_found(whole));
    }
    let merged = plugins::merge_plugins(&sources);
    let notes = if merged.len() == 0 {
        assert(plugins::finds(merged@) =~= Set::<(Seq<char>, Seq<char>)>::empty());
        Some(
            text::copy(
                "No plugins detected — server likely hides command tree, tab-complete, /plugins, and register channels.",
            ),
        )
    } else {
        proof {
            let first = merged[0];
            let label = text::texts(first.sources@)[0];
            assert(label == first.sources[0]@);
            assert(text::texts(first.sources@).contains(label));
            assert(merged@[0].name@ == first.name@);
            assert(plugins::finds(merged@).contains((first.name@, label)));
        }
        None
    };
    ProbeReport { plugins: merged, methods: p.methods, notes }
}

/// The line for the log about a saved report.
pub open spec fn report_text(plugins: int, methods: Seq<Seq<char>>) -> Seq<char> {
    "plugin probe saved ("@ + text::decimal(plugins) + " plugins via "@ + (if methods.len() == 0 {
        "none"@
    } else {
        text::join_text(methods, ", "@)
    }) + ")"@
}

pub fn describe_report(report: &ProbeReport) -> (s: String)
    ensures
        s@ == report_text(report.plugins.len() as int, text::texts(report.methods@)),
{
    let label = if report.methods.len() == 0 {
        text::copy("none")
    } else {
        text::join(&report.methods, ", ")
    };
    text::cat5(
        "plugin probe saved (",
        &text::number(report.plugins.len() as u64),
        " plugins via ",
        &label,
        ")",
    )
}

/// A completion is asked for at most once in a probe: a probe that has asked
/// asks no more, whatever it hears, until it is over.
pub proof fn lemma_one_completion(p: ProbeText, packet: ProbePacket, chat_probe: bool, now_ms: i64)
    requires
        p.tab_requested,
        p.ticks + 1 < LAST_TICK,
    ensures
        asked(heard(p, packet), now_ms).tab_requested,
        !asks(heard(p, packet)),
        ticked(p, chat_probe, now_ms).tab_requested,
        !asks(counted(p, chat_probe)),
{
}

// ---------------------------------------------------------------------------
// What a probe hears and asks
// ---------------------------------------------------------------------------

/// What a packet shows is kept with how it was found: the plugins of the commands, of the
/// completions that were asked for, of the channels; a channel that is taken back is
/// forgotten, and the brand of the server is kept.
pub proof fn lemma_packets_are_heard(p: ProbeText, packet: ProbePacket, name: Seq<char>)
    ensures
        packet matches ProbePacket::Brand(b) ==> heard(p, packet) == (ProbeText {
            brand: Some(b@),
            ..p
        }),
        packet matches ProbePacket::Channel(Some(n)) ==> heard(p, packet).channel.contains(n@) && heard(
            p,
            packet,
        ).methods.contains("plugin_channel"@) && heard(p, packet).register == p.register,
        packet matches ProbePacket::Register(found) ==> {
            &&& members(found).contains(name) ==> heard(p, packet).register.contains(name)
            &&& p.register.contains(name) ==> heard(p, packet).register.contains(name)
            &&& found.len() > 0 ==> heard(p, packet).methods.contains("register_channel"@)
            &&& heard(p, packet).channel == p.channel
        },
        packet matches ProbePacket::Unregister(found) ==> {
            &&& members(found).contains(name) ==> !heard(p, packet).register.contains(name)
            &&& !members(found).contains(name) ==> heard(p, packet).register.contains(name)
                == p.register.contains(name)
        },
        packet matches ProbePacket::Suggestions { id, lines } ==> (p.pending != Some(id) ==> heard(
            p,
            packet,
        ) == p),
        packet matches ProbePacket::Suggestions { id, lines } ==> (p.pending == Some(id) ==> heard(
            p,
            packet,
        ).pending is None && p.tab.subset_of(heard(p, packet).tab)),
        packet is Commands ==> p.tree.subset_of(heard(p, packet).tree) && heard(p, packet).tab == p.tab,
        packet is Other ==> heard(p, packet) == p,
{
}

/// A completion is asked for once, under the number that belongs to the time, and its
/// answer is then awaited.
pub proof fn lemma_completions_are_asked_for(p: ProbeText, now_ms: i64, r: TabRequest)
    ensures
        p.tab_requested || p.alias is None ==> asked(p, now_ms) == p && requests(p, now_ms, None),
        !p.tab_requested && p.alias is Some ==> {
            &&& asked(p, now_ms).tab_requested
            &&& asked(p, now_ms).pending == Some(tab_id(now_ms))
            &&& !requests(p, now_ms, None)
            &&& requests(p, now_ms, Some(r)) ==> r.id == tab_id(now_ms) && r.command@ == p.alias->0
                + " "@
        },
{
}

/// The server is asked in chat for its plugins once where that is allowed, and once more
/// where no answer came.
pub proof fn lemma_chat_is_asked(p: ProbeText)
    ensures
        said(p, false) == (if p.waiting_chat && p.ticks == 159 {
            Some("/pl"@)
        } else {
            None
        }),
        p.ticks == 59 && !p.chat_requested ==> said(p, true) == Some("/plugins"@) && counted(p, true)
            .waiting_chat && counted(p, true).chat_requested,
        p.ticks == 159 && p.waiting_chat ==> said(p, true) == Some("/pl"@),
        p.ticks != 59 && p.ticks != 159 ==> said(p, true) is None,
        counted(p, true).ticks == p.ticks + 1,
        !counted(p, false).waiting_chat || p.waiting_chat,
{
}

/// An answer in chat counts where one is awaited, and ends the wait.
pub proof fn lemma_answers_in_chat(p: ProbeText, line: Seq<char>, name: Seq<char>)
    ensures
        !p.waiting_chat ==> heard_chat(p, line) == p,
        p.waiting_chat && plugins::chat_plugins(line).contains(name) ==> {
            &&& heard_chat(p, line).chat.contains(name)
            &&& heard_chat(p, line).methods.contains("chat"@)
            &&& !heard_chat(p, line).waiting_chat
        },
{
}

/// A probe runs for its time and starts over.
pub proof fn lemma_probes_end(p: ProbeText, chat_probe: bool, now_ms: i64)
    ensures
        p.saved || p.start_ms == 0 ==> !running(p) && ticked(p, chat_probe, now_ms) == p,
        running(p) && p.ticks >= 299 ==> ticked(p, chat_probe, now_ms) == idle(),
        running(p) && p.ticks < 299 ==> ticked(p, chat_probe, now_ms).ticks == p.ticks + 1,
        !running(idle()),
        idle().methods == Set::<Seq<char>>::empty() && idle().tree == Set::<Seq<char>>::empty(),
{
}

/// A plugin is reported by each way it was found.
pub proof fn lemma_finds_are_reported(p: ProbeText, n: Seq<char>)
    ensures
        p.tree.contains(n) ==> all_found(p).contains((text::trimmed(n), "command_tree"@)),
        p.tab.contains(n) ==> all_found(p).contains((text::trimmed(n), "tab_complete"@)),
        p.chat.contains(n) ==> all_found(p).contains((text::trimmed(n), "chat"@)),
        p.register.contains(n) ==> all_found(p).contains((text::trimmed(n), "register_channel"@)),
        p.channel.contains(n) ==> all_found(p).contains((text::trimmed(n), "plugin_channel"@)),
{
}

} // verus!
