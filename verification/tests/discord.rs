//! What the commands of the bot show.
use mc_logger::chatbridge::{
    build_bridge_status_embed, customize_embed, feed_removed, feed_reset, feed_set, feed_switched,
    set_first, test_reply, topic_reply, BridgeStatusRow, Panel, PanelAction, PanelPress,
};
use mc_logger::commands::{
    admins_only, board_metric, bot_status, build_help_embed, command_failed, commands_restricted, help,
    keyword, log_title, need_channel, nothing_to_search, pick_channel, plan_page, restriction,
    server_only, stored_restriction, watch_added, watch_list, watch_removed, watch_set, works_here,
    ChannelSort, HelpGroup, MessageLog,
};
use mc_logger::config::{
    BridgeConfig, BridgeStyle, Config, DiscordConfig, ServerConfig, TopicConfig,
};
use mc_logger::embeds::{build_event_embed, build_feed_batch_embed, feed_line, pack_feed};
use mc_logger::models::{
    ChatHistoryRow, ChatRow, EventKind, EventRoute, EventRow, LeaderMetric, PlayerHit, PlayerStats,
    TopicStats,
};
use mc_logger::queries::{
    ensure_event_routes, fetch_new_presence_as_chat, get_bridge_settings, get_event_routes, hits_on,
    latest_cursor, name_or_unknown, player_join_leave, player_stats, recent_events,
    search_player_names, search_players_across_servers, searched_servers, servers_with_player,
    EventSource, Looked, PresenceRow, SettingsRow,
};
use mc_logger::shared::{
    autocomplete_player, autocomplete_server, encode_player_ref, page_count_for, parse_player_ref,
    player_name_arg, resolve_server, resolve_server_checked, screens_for, BoardChoice, RangeChoice,
};
use mc_logger::stats::{
    chat_events, chosen_server, load_player_events, player_not_found, server_tabs, stats, tab_kind,
    which_server, windowed_player_stats, EventQuery, PlayerNeed, PlayerPages, ServerPages, StatsTarget,
};
use mc_logger::topic::{is_not_allowed, render_topic, ChannelTopic, TopicResult};
use mc_logger::ui::{
    board_select, choice_rows, nav_pager_rows, next_index, only_the_invoker, pager_rows, picked_choice,
    timeframe_select, NavPress, NavState, Row, TabState,
};

fn config() -> Config {
    let server = |key: &str, label: &str| ServerConfig {
        key: key.to_string(),
        label: label.to_string(),
        database_url: format!("postgres://{key}"),
        stream_addr: None,
    };
    Config {
        servers: vec![server("main", "Main"), server("second", "Second")],
        discord: DiscordConfig {
            token: "t".to_string(),
            client_id: 1,
            guild_id: None,
            bridge_channel_id: None,
        },
        bridge: BridgeConfig {
            kinds: Vec::new(),
            poll_ms: 2_000,
            embeds_per_message: 10,
            lines_per_message: 20,
            max_rows_per_poll: 50,
            start_from_latest: true,
            status_notices: true,
        },
        topic: TopicConfig { enabled: true, interval_ms: 600_000 },
        head_size: 64,
    }
}

fn hit(name: &str, key: &str) -> PlayerHit {
    PlayerHit {
        name: name.to_string(),
        server_key: key.to_string(),
        server_label: key.to_uppercase(),
    }
}

fn player(name: &str, messages: i64) -> PlayerStats {
    PlayerStats {
        name: name.to_string(),
        uuid: Some("u".to_string()),
        messages,
        deaths: 0,
        joins: 0,
        leaves: 0,
        kills: 0,
        advancements: 0,
        first_seen: None,
        last_seen: Some(9),
        last_message_at: Some(8),
        kill_rank: Some(3),
        chat_rank: None,
        playtime_ms: 0,
        session_count: 0,
    }
}

fn event(at: i64, name: &str) -> EventRow {
    EventRow { occurred_at: at, player_name: name.to_string(), detail: None }
}

#[test]
fn servers_are_found_by_key_or_by_player() {
    let config = config();
    assert_eq!(resolve_server(&config, Some("second"), None).key, "second");
    assert_eq!(resolve_server(&config, None, Some("second::Notch")).key, "second");
    assert_eq!(resolve_server(&config, None, Some("Notch")).key, "main");
    assert_eq!(
        resolve_server_checked(&config, Some("third"), None).err().as_deref(),
        Some("\"third\" isn't a configured server. Known: main, second.")
    );
    let reference = encode_player_ref("second", "Notch");
    assert_eq!(
        parse_player_ref(Some(&reference)),
        Some((Some("second".to_string()), "Notch".to_string()))
    );
    assert_eq!(player_name_arg(Some(&reference)).as_deref(), Some("Notch"));
    assert_eq!(player_name_arg(Some("  ")), None);
    assert_eq!(autocomplete_player(&vec![hit("Notch", "main")], true)[0].value, "main::Notch");
    assert_eq!(autocomplete_server(&config, "sec").len(), 1);
}

#[test]
fn pages_cover_everything_that_may_be_shown() {
    assert_eq!(page_count_for(0, 50), 1);
    assert_eq!(page_count_for(51, 50), 2);
    assert_eq!(page_count_for(1_000_000, 50), 25);
    assert_eq!(screens_for(50), 1);
    assert_eq!(screens_for(51), 2);
    let plan = plan_page(9, 70, 15);
    assert_eq!((plan.page, plan.pages, plan.offset, plan.limit), (4, 5, 60, 15));
}

#[test]
fn ranges_and_boards_keep_their_place() {
    for i in 0..5 {
        assert_eq!(RangeChoice::from_index(i).as_index(), i);
    }
    assert_eq!(RangeChoice::D30.previous(), Some((60, 30)));
    assert_eq!(RangeChoice::All.previous(), None);
    assert_eq!(BoardChoice::default().as_index(), 0);
    assert_eq!(board_metric(1), LeaderMetric::Kd);
    assert_eq!(board_metric(99), LeaderMetric::Playtime);
    assert_eq!(timeframe_select().options.len(), 5);
    assert_eq!(board_select().options.len(), 6);
}

#[test]
fn a_name_on_several_servers_is_asked_about() {
    let config = config();
    let here = &config.servers[0];
    let both = vec![hit("Notch", "main"), hit("Notch", "second")];
    assert!(matches!(stats(&config, here, false, &both), StatsTarget::Ask(c) if c.len() == 2));
    match stats(&config, here, true, &both) {
        StatsTarget::Show(s) => assert_eq!(s.key, "main"),
        _ => panic!("a named server is not asked about"),
    }
    match stats(&config, here, false, &vec![hit("Notch", "second")]) {
        StatsTarget::Show(s) => assert_eq!(s.key, "second"),
        _ => panic!("one server needs no question"),
    }
    assert_eq!(chosen_server(&config, "second").key, "second");
    assert_eq!(chosen_server(&config, "gone").key, "main");
    assert_eq!(which_server("Notch", 0).title.as_deref(), Some("Which server for Notch?"));
    assert_eq!(player_not_found(&Vec::new()), "No player by that name.");
    assert_eq!(player_not_found(&both), "No exact match. Did you mean `Notch`, `Notch`?");
}

#[test]
fn tabs_are_read_once() {
    assert_eq!(server_tabs().len(), 8);
    assert_eq!(tab_kind(5), Some(EventKind::Death));
    let mut pages = ServerPages::open();
    assert_eq!(pages.missing(0), None);
    assert_eq!(pages.missing(2), Some(EventKind::Chat));
    let rows: Vec<EventRow> = (0..60).map(|i| event(i, &format!("p{i}"))).collect();
    pages.cache.put((0, 2), rows);
    assert_eq!(pages.missing(2), None);
    assert_eq!(pages.screens(2), 2);
    assert_eq!(pages.screens(1), 1);
    let shown = pages.events(EventKind::Join, 2, 1, "Main", "all time", "0.10", &config(), 0);
    let body = shown.description.unwrap();
    let lines: Vec<String> = (50..60).map(|i| format!("<t:0:f> `p{i}` » joined")).collect();
    assert_eq!(body, lines.join("\n"));
    assert_eq!(
        shown.footer.unwrap().text,
        "Main  ·  all time  ·  Page 2/2  ·  Done in 0.10s"
    );
    pages.cache.put((0, 2), Vec::new());
    assert_eq!(pages.screens(2), 2);
    pages.cache.clear();
    assert_eq!(pages.missing(2), Some(EventKind::Chat));
}

#[test]
fn player_pages_ask_for_what_they_lack() {
    let mut pages = PlayerPages::open(&player("Notch", 4));
    assert_eq!(pages.need(0, RangeChoice::All), PlayerNeed::Online);
    assert_eq!(pages.need(0, RangeChoice::D30), PlayerNeed::Stats(30));
    let window = PlayerStats { uuid: None, last_message_at: Some(2), ..player("Notch", 1) };
    pages.count(RangeChoice::D30, window);
    assert_eq!(pages.need(0, RangeChoice::D30), PlayerNeed::Online);
    assert_eq!(pages.need(3, RangeChoice::D30), PlayerNeed::Events(EventKind::Join));
    pages.take_events(3, RangeChoice::D30, vec![event(5_000_000, "Notch")]);
    assert_eq!(pages.need(3, RangeChoice::D30), PlayerNeed::Nothing);
    assert_eq!(pages.need(3, RangeChoice::All), PlayerNeed::Events(EventKind::Join));
    let log = pages.log(3, RangeChoice::D30, "Main", "0.10", &config(), 0);
    assert_eq!(log.title.as_deref(), Some("Last 50 Joins by Notch"));
    assert_eq!(log.description.as_deref(), Some("<t:5:f> `Notch` » joined"));
    let overview = pages.overview(RangeChoice::D30, true, "Main", "0.10", &config(), 0);
    assert_eq!(overview.title.as_deref(), Some("Notch's stats"));
    let merged =
        windowed_player_stats(player("Notch", 1), &player("Notch", 4), RangeChoice::All);
    assert_eq!((merged.messages, merged.last_message_at), (1, Some(8)));
    assert!(matches!(load_player_events("Notch", EventKind::Death, None), EventQuery::Deaths));
    let chat = vec![ChatHistoryRow {
        received_at: 3,
        sender_name: None,
        plain_text: "hi".to_string(),
        server_host: None,
    }];
    assert_eq!(chat_events(&chat, "Notch")[0].player_name, "Notch");
}

#[test]
fn searches_go_round_the_servers() {
    let lists = vec![
        vec![hit("Ann", "main"), hit("Bob", "main"), hit("Cid", "main")],
        vec![hit("Ann", "second"), hit("ANN", "second")],
    ];
    let hits = search_players_across_servers(&lists, 4);
    let keys: Vec<String> = hits.iter().map(|h| format!("{}:{}", h.server_key, h.name)).collect();
    assert_eq!(keys, vec!["main:Ann", "second:Ann", "main:Bob", "main:Cid"]);
    assert_eq!(search_players_across_servers(&lists, 1).len(), 1);
    assert!(search_players_across_servers(&Vec::new(), 5).is_empty());
    let config = config();
    assert_eq!(searched_servers(&config, None), vec![0, 1]);
    assert_eq!(searched_servers(&config, Some("second")), vec![1]);
    assert_eq!(hits_on(&config, 1, &vec!["Ann".to_string()])[0].server_label, "Second");
    assert!(search_player_names(0, "x"));
    assert!(!search_player_names(0, ""));
    let known = servers_with_player(&config, &vec![None, Some("Ann".to_string())]);
    assert_eq!(known.len(), 1);
    assert_eq!(known[0].server_key, "second");
}

#[test]
fn stored_settings_have_their_defaults() {
    let usual = get_bridge_settings(None);
    assert!(usual.enabled && usual.channel_id.is_none() && usual.style == BridgeStyle::Rich);
    let stored = get_bridge_settings(Some(SettingsRow {
        channel_id: Some("5".to_string()),
        enabled: false,
        style: "compact".to_string(),
        rainbow: true,
    }));
    assert!(!stored.enabled && stored.rainbow && stored.style == BridgeStyle::Compact);
    let all_on = ensure_event_routes(&Vec::new());
    assert!(all_on.iter().all(|(_, on)| *on));
    let some = ensure_event_routes(&vec!["c".to_string(), "nonsense".to_string()]);
    assert_eq!(some.iter().filter(|(_, on)| *on).count(), 1);
    assert!(some[0] == ("chat", true));
    let routes = get_event_routes(&vec![EventRoute {
        kind: "death".to_string(),
        enabled: true,
        channel_id: Some("9".to_string()),
    }]);
    assert_eq!(routes.len(), 7);
    assert!(routes.iter().filter(|r| r.enabled).all(|r| r.kind == "death"));
}

#[test]
fn rows_of_the_database_become_lines() {
    let row = |kind: &str| PresenceRow {
        id: 4,
        occurred_at: 40,
        event_type: kind.to_string(),
        player_name: "Notch".to_string(),
        server_host: None,
    };
    let rows = fetch_new_presence_as_chat(&vec![row("j"), row("s"), row("l")]);
    assert_eq!(rows.iter().map(|r| r.kind.as_str()).collect::<Vec<_>>(), vec!["join", "leave"]);
    assert_eq!(name_or_unknown(None), "?");
    assert!(player_stats(player("Notch", 0)).is_none());
    assert!(player_stats(player("Notch", 1)).is_some());
    let next = recent_events;
    assert_eq!(next(EventKind::Join, Looked::Nowhere, 10), Some(EventSource::HotEvents));
    assert_eq!(next(EventKind::Chat, Looked::Hot(9), 10), Some(EventSource::AllChat));
    assert_eq!(next(EventKind::Chat, Looked::Hot(10), 10), None);
    assert_eq!(next(EventKind::Chat, Looked::Hot(0), -1), None);
    assert_eq!(next(EventKind::Leave, Looked::Hot(0), 1), Some(EventSource::AllEvents));
    assert_eq!(next(EventKind::Advancement, Looked::Archive, 200), None);
    assert_eq!(player_join_leave("j"), vec!["join", "j"]);
    assert_eq!(player_join_leave("x"), vec!["x"]);
    assert_eq!(latest_cursor(1), Some("30 days"));
    assert_eq!(latest_cursor(3), None);
}

#[test]
fn a_search_for_events_looks_twice_at_the_most() {
    let hot = [EventSource::HotChat, EventSource::HotEvents];
    for kind in [EventKind::Chat, EventKind::Join, EventKind::Advancement, EventKind::Kill] {
        for (found, wanted) in [(0, 2), (3, 2), (199, 2), (200, 1)] {
            let mut looked = Looked::Nowhere;
            let mut sources = Vec::new();
            while let Some(source) = recent_events(kind, looked, 200) {
                sources.push(source);
                assert!(sources.len() <= 2, "the search goes on");
                looked = Looked::after(source, found);
            }
            assert_eq!(sources.len(), wanted);
            assert!(hot.contains(&sources[0]));
            assert!(sources[1..].iter().all(|source| !hot.contains(source)));
        }
    }
}

#[test]
fn message_logs_say_what_they_show() {
    assert_eq!(log_title(None, None), "Messages");
    assert_eq!(log_title(Some("Notch"), None), "Notch's messages");
    assert_eq!(log_title(None, Some("a`b")), "Messages matching `ab`");
    assert_eq!(log_title(Some("Notch"), Some("hi")), "`hi` in Notch's messages");
    assert_eq!(keyword("  hi "), Some("hi".to_string()));
    assert_eq!(keyword("  "), None);
    assert_eq!(nothing_to_search(0).title.as_deref(), Some("Nothing to search for"));
    let log = MessageLog {
        player: None,
        search: Some("hi".to_string()),
        server_label: "Main".to_string(),
    };
    let plan = plan_page(1, 120, 50);
    let query = log.query(&plan, 120, RangeChoice::D7).unwrap();
    assert_eq!((query.limit, query.offset, query.since_days), (50, 50, Some(7)));
    assert!(log.query(&plan, 0, RangeChoice::D7).is_none());
    let rows = vec![ChatHistoryRow {
        received_at: 1_000_000,
        sender_name: None,
        plain_text: "oh hi".to_string(),
        server_host: None,
    }];
    let page = log.send_message_log(&rows, &plan, RangeChoice::D7, "0.10", &config(), 0);
    assert_eq!(page.title.as_deref(), Some("Messages matching `hi`"));
    assert_eq!(page.description.as_deref(), Some("<t:1:f> `?` » oh **hi**"));
}

#[test]
fn commands_answer_in_their_words() {
    assert_eq!(help(false).len(), 3);
    assert_eq!(help(true).last().map(|g| g.title), Some("Multiple servers"));
    let group = HelpGroup { title: "G", entries: vec![("/a", "b")] };
    assert_eq!(
        build_help_embed(&vec![group], 0).description.as_deref(),
        Some(
            "Commands read the logger database. Live feeds post into a channel.\n\
             Player and log replies use `<<` `<` `>` `>>` `X` and a timeframe menu.\n\n\
             **G**\n`/a:` **b**\n"
        )
    );
    assert_eq!(pick_channel(Some(4), None), Some(4));
    assert_eq!(pick_channel(None, Some((5, ChannelSort::News))), Some(5));
    assert_eq!(pick_channel(None, Some((5, ChannelSort::Other))), None);
    assert_eq!(need_channel(0).title.as_deref(), Some("Need a channel"));
    assert!(commands_restricted(7).starts_with("Commands are now restricted to <#7>."));
    assert_eq!(restriction(0), "No restriction — commands work in any channel.");
    assert_eq!(restriction(7), "Commands are restricted to <#7>.");
    assert!(works_here(0, 3, "stats"));
    assert!(works_here(7, 7, "stats"));
    assert!(!works_here(7, 3, "stats"));
    assert!(works_here(7, 3, "commandchannel"));
    assert_eq!(stored_restriction(&Some("7".to_string())), 7);
    assert_eq!(stored_restriction(&Some("general".to_string())), 0);
    assert_eq!(stored_restriction(&None), 0);
    assert_eq!(
        watch_set("Main", 7),
        "Watchlist embeds for **Main** go to <#7>. Add players with `/watchbridge add`."
    );
    assert_eq!(watch_added("Notch", "Main"), "Watching **Notch** on **Main**.");
    assert_eq!(
        watch_removed("Notch", "Main", false),
        "**Notch** wasn't on the watchlist for **Main**."
    );
    assert_eq!(
        watch_removed("Notch", "Main", true),
        "No longer watching **Notch** on **Main**."
    );
    let list = watch_list("Main", &None, &vec!["A".to_string(), "B".to_string()], 0);
    assert_eq!(
        list.description.as_deref(),
        Some("`Channel:` not set — run `/watchbridge set`\n`Players:` **A**, **B**")
    );
    assert_eq!(
        command_failed("stats", false, 0).description.as_deref(),
        Some(
            "`/stats` could not finish. The database may be unreachable — \
             try `/server status`."
        )
    );
    assert_eq!(
        command_failed("stats", true, 0).description.as_deref(),
        Some("`/stats` could not finish. Try `/server status`.")
    );
    assert_eq!(
        server_only("stats", 0).description.as_deref(),
        Some("`/stats` only works in a server.")
    );
    let admins = admins_only("x", 0);
    assert_eq!(admins.title.as_deref(), Some("Admins only"));
    assert_eq!(admins.description.as_deref(), Some("`/x` needs the Administrator permission."));
    assert_eq!(bot_status(&vec![3, 4]), "7 players · /help");
}

#[test]
fn a_pager_stays_among_its_pages() {
    let mut nav = NavState::start(0, 1, 5);
    nav.rendered(3);
    let rows = nav_pager_rows(nav.page, nav.page_count, &None, 0);
    let Row::Buttons(buttons) = &rows[0] else { unreachable!() };
    let shown: Vec<(&str, &str, bool)> =
        buttons.iter().map(|b| (b.custom_id.as_str(), b.label.as_str(), b.disabled)).collect();
    assert_eq!(
        shown,
        vec![
            ("page:first", "<<", true),
            ("page:prev", "<", true),
            ("page:next", ">", false),
            ("page:last", ">>", false),
            ("page:close", "X", false),
        ]
    );
    let mut pages = Vec::new();
    for id in ["next", "next", "next", "last", "prev", "first", "prev"] {
        assert!(!nav.press(&NavPress::Button(format!("page:{id}"))));
        pages.push(nav.page);
    }
    assert_eq!(pages, vec![1, 2, 2, 2, 1, 0, 0]);
    nav.press(&NavPress::Menu(Some("99".to_string())));
    assert_eq!(nav.select_idx, 1);
    nav.press(&NavPress::Button("page:next".to_string()));
    nav.press(&NavPress::Menu(Some("3".to_string())));
    assert_eq!((nav.select_idx, nav.page), (3, 0));
    assert!(nav.press(&NavPress::Button("page:close".to_string())));
    let mut tabs = TabState::start(0, 8);
    tabs.loaded(4);
    tabs.press("sub:last");
    assert_eq!((tabs.page, tabs.sub_page), (0, 3));
    let moved = tabs.press("page:5");
    assert_eq!((tabs.page, tabs.sub_page, moved.refresh, moved.reload), (5, 0, false, true));
    let again = tabs.press("page:refresh");
    assert_eq!((tabs.page, again.refresh, again.reload), (5, true, true));
    let rows = pager_rows(&server_tabs(), &None, &tabs, true);
    assert_eq!(rows.len(), 3);
    let ids = |rows: &Vec<Row>, at: usize| -> Vec<String> {
        match &rows[at] {
            Row::Buttons(buttons) => buttons.iter().map(|b| b.custom_id.clone()).collect(),
            Row::Menu(_) => Vec::new(),
        }
    };
    let mut ranged = TabState::start(0, 1).with_ranges(9, 2);
    assert_eq!((ranged.range_idx, ranged.range_count), (1, 2));
    let rows = pager_rows(&Vec::new(), &Some(vec!["Day", "Week"]), &ranged, true);
    assert_eq!(rows.len(), 1);
    assert_eq!(ids(&rows, 0), vec!["range:0", "range:1", "page:refresh"]);
    let five = Some(vec!["a", "b", "c", "d", "e"]);
    let rows = pager_rows(&Vec::new(), &five, &ranged, true);
    assert_eq!((ids(&rows, 0).len(), ids(&rows, 1)), (5, vec!["page:refresh".to_string()]));
    let chosen = ranged.press("range:0");
    assert_eq!((chosen.range, chosen.refresh, chosen.reload), (Some(0), true, true));
    assert_eq!(ranged.range_idx, 0);
    assert_eq!(ranged.press("range:0").range, None);
    assert_eq!(ranged.press("range:7").range, None);
    assert!(!TabState::start(0, 1).interactive(false, false, false));
    assert!(ranged.interactive(false, false, true));
    assert_eq!(NavState::start(4, 9, 3).page_count, 1);
    assert_eq!(next_index("x:next", 7, 8), 7);
    assert_eq!(next_index("x:3", 7, 8), 3);
    assert_eq!(next_index("x:8", 7, 8), 7);
    let picks = vec![("main".to_string(), "Main".to_string())];
    let rows = choice_rows(&picks);
    let Row::Buttons(buttons) = &rows[0] else { unreachable!() };
    assert_eq!(picked_choice(&buttons[0].custom_id), "main");
    assert_eq!(
        only_the_invoker(true, "Ann", "stats"),
        "Only Ann can pick on this one. Run `/stats` to get your own."
    );
    assert_eq!(
        only_the_invoker(false, "Ann", "stats"),
        "Only Ann can page this one. Run `/stats` to get your own."
    );
}

#[test]
fn a_panel_changes_what_is_pressed() {
    let mut panel = Panel::open(BridgeStyle::Rich, false);
    let routes = get_event_routes(&Vec::new());
    let rows = panel.rows("main", &routes);
    let rainbow = rows
        .iter()
        .filter_map(|r| match r {
            Row::Buttons(b) => b.iter().find(|b| b.custom_id.contains("rainbow")),
            Row::Menu(_) => None,
        })
        .next()
        .expect("there is a rainbow button")
        .custom_id
        .clone();
    let on = panel.press(&PanelPress::Button { id: rainbow.clone() });
    assert!(matches!(on[0], PanelAction::Rainbow(true)));
    let off = panel.press(&PanelPress::Button { id: rainbow });
    assert!(matches!(off[0], PanelAction::Rainbow(false)));
    assert!(panel.press(&PanelPress::Other).is_empty());
    let shown = customize_embed("Main", &routes, "5", BridgeStyle::Rich, false, 0);
    assert_eq!(shown.title.as_deref(), Some("Main event feed"));
    assert_eq!(
        shown.description.as_deref(),
        Some(
            "`Style:` **rich**\n`Rainbow:` ❌ **No**\n\n**Routing**\n\
             · **Chat** → hidden\n· **Joins** → hidden\n· **Leaves** → hidden\n\
             · **Deaths** → hidden\n· **Advancements** → hidden\n· **Server** → hidden\n\
             · **Whispers** → hidden\n\n\
             Use **Edit routing** below to change which events post and where each one goes."
        )
    );
}

#[test]
fn feed_commands_answer() {
    assert_eq!(
        set_first("Main", 0).description.as_deref(),
        Some(
            "Run `/chatbridge set` for **Main** so events have a default channel. \
             Then come back here to split joins, deaths, etc."
        )
    );
    assert_eq!(
        feed_set("Main", 5),
        "Feed for **Main** set to <#5>. Pause with `/chatbridge pause`."
    );
    assert_eq!(feed_switched("Main", true), "Feed for **Main** is now resumed.");
    assert_eq!(feed_switched("Main", false), "Feed for **Main** is now paused.");
    assert_eq!(test_reply(true), "Posted a test line.");
    assert_eq!(test_reply(false), "Could not post — is the feed channel set?");
    assert_eq!(topic_reply(TopicResult::Updated), "Topic updated.");
    assert_eq!(topic_reply(TopicResult::Unchanged), "Topic already up to date.");
    assert_eq!(topic_reply(TopicResult::NoChannel), "No feed channel set.");
    assert_eq!(topic_reply(TopicResult::Unsupported), "That channel type has no topic.");
    assert_eq!(topic_reply(TopicResult::Forbidden), "Missing Manage Channel permission.");
    assert_eq!(topic_reply(TopicResult::Failed), "Topic update failed.");
    assert_eq!(
        feed_reset("Main", &Some("5".to_string())),
        "Reset feed for **Main**: default event kinds, no per-kind channels, posting on. \
         Channel: <#5>."
    );
    assert!(feed_reset("Main", &None).ends_with("Channel: not set — run `/chatbridge set`."));
    assert_eq!(
        feed_removed("Main"),
        "Removed the feed for **Main**. Nothing will post until `/chatbridge set`."
    );
    let status = build_bridge_status_embed(
        &vec![BridgeStatusRow {
            label: "Main".to_string(),
            channel_id: Some("5".to_string()),
            enabled: true,
            error: None,
            behind: Some(3),
        }],
        0,
    );
    assert_eq!(status.fields.len(), 1);
    assert_eq!(status.fields[0].name, "Main");
    assert_eq!(status.fields[0].value, "**Active** in <#5>\n3 lines behind");
}

fn line(kind: &str, name: &str, said: &str) -> ChatRow {
    ChatRow {
        id: 1,
        received_at: 1_000_000,
        kind: kind.to_string(),
        sender_name: if kind == "chat" { Some(name.to_string()) } else { None },
        sender_label: None,
        subject_name: Some(name.to_string()),
        killer_name: None,
        plain_text: said.to_string(),
        server_host: None,
    }
}

#[test]
fn packed_lines_keep_their_rows() {
    let rows: Vec<ChatRow> = (0..45).map(|i| line("chat", "Notch", &format!("n{i}"))).collect();
    let groups = pack_feed(&rows, 20);
    assert_eq!(groups.iter().map(|g| g.len()).collect::<Vec<_>>(), vec![20, 20, 5]);
    assert_eq!(feed_line(&rows[3]), "<t:1:t> **Notch**  n3");
    let batch = build_feed_batch_embed(&groups[2], "Main", None, 0);
    let lines: Vec<String> = (40..45).map(|i| format!("<t:1:t> **Notch**  n{i}")).collect();
    assert_eq!(batch.description.unwrap(), lines.join("\n"));
    assert_eq!(batch.footer.unwrap().text, "Main  ·  5 lines");
    let death = build_event_embed(&line("death", "Notch", ""), None, Some(7));
    assert_eq!(death.colour, 7);
    assert_eq!(death.description.as_deref(), Some("**Notch** died"));
}

#[test]
fn topics_say_how_things_stand() {
    let stats = TopicStats {
        host: None,
        online: 12,
        peak_today: 30,
        players_24h: 40,
        chat_1h: 5,
        joins_1h: 0,
        deaths_24h: 2,
        logger_live: true,
        last_message_at: Some(0),
    };
    let topic = render_topic("Main", &stats, 60_000_000);
    assert_eq!(
        topic,
        "Main · 12 online · peak 30 today · 40 players in 24h · 5 chat/h · 2 deaths in 24h · \
         updated 00:01 UTC"
    );
    let mut t = ChannelTopic::new(100_000_000);
    assert!(t.due(true, 1_000, 100_000_000));
    assert!(!t.due(false, 1_000, 100_000_000));
    assert_eq!(t.channel(&None, 100_000_000).err(), Some(TopicResult::NoChannel));
    assert_eq!(t.channel(&Some("5".to_string()), 100_000_000).ok(), Some(5));
    assert!(t.differs("x"));
    assert_eq!(t.updated("x".to_string()), TopicResult::Updated);
    assert!(!t.differs("x"));
    assert!(is_not_allowed("Missing Permissions"));
    let (result, complain) = t.refused(5, "Missing Permissions");
    assert_eq!((result, complain), (TopicResult::Forbidden, true));
    assert!(!t.refused(5, "Missing Permissions").1);
}
