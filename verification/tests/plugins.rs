//! Plugins that a server gives away.
use mc_logger::plugins::{
    merge_plugins, parse_register_channels, parse_tab_plugin_line, plugin_from_channel,
    plugins_from_chat, plugins_from_command_names, plugins_from_register_channels,
    plugins_from_tab_suggestions, PluginSource,
};
use mc_logger::probe::{
    describe_report, handle_probe_packet, hear_chat, plugin_probe_tick, probe_report, PluginProbeState,
    ProbePacket, CHAT_AGAIN_TICK, CHAT_TICK, LAST_TICK, TAB_TICK,
};

#[test]
fn parses_chat_plugin_list() {
    let text = "Plugins (3): WorldEdit, Essentials, LuckPerms";
    let plugins = plugins_from_chat(text);
    assert!(plugins.contains(&"WorldEdit".to_string()));
    assert!(plugins.contains(&"Essentials".to_string()));
    assert_eq!(plugins.len(), 3);
}

#[test]
fn parses_tab_version_line() {
    assert_eq!(
        parse_tab_plugin_line("WorldEdit version: 7.2.15").as_deref(),
        Some("WorldEdit")
    );
}

fn strings(all: &[&str]) -> Vec<String> {
    all.iter().map(|s| s.to_string()).collect()
}

#[test]
fn command_names_carry_their_plugin() {
    let (plugins, _) =
        plugins_from_command_names(&strings(&["worldedit:wand", "help", "essentials:home"]));
    assert_eq!(plugins.len(), 2);
    assert!(plugins.iter().any(|p| p.eq_ignore_ascii_case("worldedit")));
    assert!(plugins.iter().any(|p| p.eq_ignore_ascii_case("essentials")));
}

#[test]
fn sources_are_merged_under_one_name() {
    let merged = merge_plugins(&vec![
        (PluginSource::CommandTree, strings(&["WorldEdit"])),
        (PluginSource::Chat, strings(&["WorldEdit", "LuckPerms"])),
    ]);
    assert_eq!(merged.len(), 2);
    let edit = merged.iter().find(|p| p.name.eq_ignore_ascii_case("worldedit")).unwrap();
    assert_eq!(edit.sources.len(), 2);
    assert!(plugins_from_tab_suggestions(&strings(&["LuckPerms version: 5"]))
        .contains(&"LuckPerms".to_string()));
}

#[test]
fn a_probe_asks_once_and_reports_once() {
    let mut p = PluginProbeState::new();
    p.restart(1_000);
    p.version_alias = Some("version".to_string());
    let mut requests = 0;
    let mut said = 0;
    let mut finished = None;
    for tick in 1..=LAST_TICK + 5 {
        let r = plugin_probe_tick(&mut p, true, 1_000);
        if r.request.is_some() {
            requests += 1;
            assert!(tick >= TAB_TICK);
        }
        if r.say.is_some() {
            said += 1;
            assert!(tick == CHAT_TICK || tick == CHAT_AGAIN_TICK);
        }
        if tick == CHAT_TICK + 1 {
            hear_chat(&mut p, "Plugins (1): WorldEdit");
        }
        if let Some(state) = r.finished {
            assert!(finished.is_none());
            finished = Some(state);
        }
    }
    assert_eq!(requests, 1);
    assert!(said >= 1);
    let report = probe_report(finished.expect("the probe ends"));
    assert_eq!(report.plugins.len(), 1);
    assert_eq!(report.plugins[0].name, "WorldEdit");
    assert!(describe_report(&report).starts_with("plugin probe saved (1 plugins via "));
}

#[test]
fn completions_answer_only_their_request() {
    let mut p = PluginProbeState::new();
    p.restart(0);
    let asked = handle_probe_packet(&mut p, ProbePacket::Commands(strings(&["version"])), 0);
    let id = asked.expect("the command tree starts a completion").id;
    let lines = strings(&["LuckPerms version: 5"]);
    handle_probe_packet(&mut p, ProbePacket::Suggestions { id: id + 1, lines: lines.clone() }, 0);
    assert!(p.tab_plugins.is_empty());
    handle_probe_packet(&mut p, ProbePacket::Suggestions { id, lines }, 0);
    assert_eq!(p.tab_plugins, strings(&["LuckPerms"]));
    let brand = ProbePacket::Brand("Paper".to_string());
    assert!(handle_probe_packet(&mut p, brand, 0).is_none());
    assert_eq!(p.server_brand.as_deref(), Some("Paper"));
}

#[test]
fn channels_carry_their_plugin() {
    let data = b"worldedit:cui\0bungeecord:main\0\0minecraft:brand\0plain\0x\xff:y\0vault:z\0";
    let channels = parse_register_channels(data);
    assert_eq!(
        channels,
        vec!["worldedit:cui", "bungeecord:main", "minecraft:brand", "plain", "vault:z"]
    );
    assert_eq!(
        plugins_from_register_channels(&channels),
        vec!["worldedit", "bungeecord", "vault"]
    );
    assert!(parse_register_channels(b"").is_empty());
    assert_eq!(parse_register_channels("é:a".as_bytes()), vec!["é:a"]);
    assert_eq!(plugin_from_channel("luckperms:update"), Some("luckperms".to_string()));
    assert_eq!(plugin_from_channel(" minecraft:x"), None);
    assert_eq!(plugin_from_channel(":x"), None);
    assert_eq!(plugin_from_channel("x"), None);
}
