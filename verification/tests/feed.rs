//! The live feed of a server.
use mc_logger::bridge::{presence_dup_key, render, route_channel, route_rows, unique_presence, PostStyle};
use mc_logger::config::{
    BridgeConfig, BridgeStyle, Config, DiscordConfig, ServerConfig, TopicConfig,
};
use mc_logger::feed::{
    accept_stream_event, batch_cap, discord_429_wait, is_permanent_discord_error, link_detail,
    merge_rows, parse_retry_after_secs, polling_detail, send_embeds, start, start_all, stream_rows,
    watch_feed_link, Bridge, BridgeSet, Cursor, Cursors, FeedLink, FeedPlan, LinkNotice, LinkWatch,
    StartAsk, StartPlan, StartReply,
};
use mc_logger::models::{BridgeSettings, ChatRow, EventRoute};
use mc_logger::stream::{ChatEvent, PlayerEvent, StreamEvent};

fn config() -> Config {
    Config {
        servers: vec![
            ServerConfig {
                key: "main".to_string(),
                label: "Main".to_string(),
                database_url: "postgres://main".to_string(),
                stream_addr: Some("127.0.0.1:9700".to_string()),
            },
            ServerConfig {
                key: "second".to_string(),
                label: "Second".to_string(),
                database_url: "postgres://second".to_string(),
                stream_addr: None,
            },
        ],
        discord: DiscordConfig {
            token: "t".to_string(),
            client_id: 1,
            guild_id: None,
            bridge_channel_id: Some("77".to_string()),
        },
        bridge: BridgeConfig {
            kinds: vec!["chat".to_string(), "join".to_string(), "leave".to_string()],
            poll_ms: 2_000,
            embeds_per_message: 2,
            lines_per_message: 20,
            max_rows_per_poll: 50,
            start_from_latest: true,
            status_notices: true,
        },
        topic: TopicConfig { enabled: true, interval_ms: 600_000 },
        head_size: 64,
    }
}

fn row(id: i64, at: i64, kind: &str, name: &str) -> ChatRow {
    let speaks = kind == "chat";
    ChatRow {
        id,
        received_at: at,
        kind: kind.to_string(),
        sender_name: if speaks { Some(name.to_string()) } else { None },
        sender_label: None,
        subject_name: if speaks { None } else { Some(name.to_string()) },
        killer_name: None,
        plain_text: if speaks { "hello".to_string() } else { String::new() },
        server_host: Some("host".to_string()),
    }
}

fn route(kind: &str, enabled: bool, channel: Option<&str>) -> EventRoute {
    EventRoute {
        kind: kind.to_string(),
        enabled,
        channel_id: channel.map(|c| c.to_string()),
    }
}

fn settings(channel: Option<&str>, enabled: bool) -> BridgeSettings {
    BridgeSettings {
        channel_id: channel.map(|c| c.to_string()),
        enabled,
        style: BridgeStyle::Rich,
        rainbow: false,
    }
}

#[test]
fn lines_go_where_their_route_says() {
    let kinds = config().bridge.kinds;
    let routes = vec![route("chat", true, Some("9")), route("join", false, None)];
    let chat = row(1, 1, "c", "Notch");
    assert_eq!(route_channel(&chat, "5", &routes, &kinds).as_deref(), Some("9"));
    let join = row(1, 1, "join", "Notch");
    assert_eq!(route_channel(&join, "5", &routes, &kinds), None);
    let leave = row(1, 1, "l", "Notch");
    assert_eq!(route_channel(&leave, "5", &routes, &kinds).as_deref(), Some("5"));
    let death = row(1, 1, "death", "Notch");
    assert_eq!(route_channel(&death, "5", &routes, &kinds), None);
    assert_eq!(route_channel(&row(1, 1, "?", "Notch"), "5", &routes, &kinds), None);
}

#[test]
fn every_channel_gets_its_lines_in_order() {
    let routes = vec![route("chat", true, Some("9")), route("join", true, None)];
    let rows = vec![
        row(1, 1, "chat", "A"),
        row(2, 2, "join", "B"),
        row(3, 3, "chat", "C"),
    ];
    let by_channel = route_rows(&rows, "5", &routes, &Vec::new());
    assert_eq!(by_channel.len(), 2);
    assert_eq!(by_channel[0].channel_id, "9");
    let ids: Vec<i64> = by_channel[0].rows.iter().map(|r| r.id).collect();
    assert_eq!(ids, vec![1, 3]);
    assert_eq!(by_channel[1].channel_id, "5");
}

#[test]
fn joins_are_not_posted_twice() {
    let join = row(1, 1, "join", " Notch ");
    assert_eq!(presence_dup_key(&join).as_deref(), Some("join:host:notch"));
    assert_eq!(presence_dup_key(&row(1, 1, "chat", "Notch")), None);
    let mut recent = Vec::new();
    assert!(unique_presence(&mut recent, &join, 1_000));
    assert!(!unique_presence(&mut recent, &join, 21_000));
    assert!(unique_presence(&mut recent, &row(1, 1, "leave", "Notch"), 21_000));
    assert!(unique_presence(&mut recent, &join, 21_001));
    assert!(unique_presence(&mut recent, &row(1, 1, "chat", "Notch"), 21_001));
    assert!(unique_presence(&mut recent, &row(1, 1, "chat", "Notch"), 21_001));
}

#[test]
fn posts_hold_as_many_embeds_as_they_may() {
    let config = config();
    let rows: Vec<ChatRow> = (0..5).map(|i| row(i, i, "chat", "Notch")).collect();
    let rich = PostStyle {
        style: BridgeStyle::Rich,
        server_label: "Main",
        colours: None,
        now_us: 0,
    };
    let posts = render(&rows, &rich, &config);
    assert_eq!(posts.iter().map(|p| p.len()).collect::<Vec<_>>(), vec![2, 2, 1]);
    let compact = PostStyle {
        style: BridgeStyle::Compact,
        server_label: "Main",
        colours: Some(vec![1, 2, 3, 4, 5]),
        now_us: 0,
    };
    let packed = render(&rows, &compact, &config);
    assert_eq!(packed.len(), 1);
    assert_eq!(packed[0].len(), 1);
}

fn chat_event(seq: Option<u64>, id: Option<i64>, ts: i64) -> StreamEvent {
    StreamEvent::Chat(ChatEvent {
        seq,
        id,
        ts,
        kind: "chat".to_string(),
        sender_name: Some("Notch".to_string()),
        sender_label: None,
        subject_name: None,
        killer_name: None,
        content: None,
        plain_text: "hi".to_string(),
        ansi: None,
        server_host: None,
    })
}

fn player_event(kind: &str) -> StreamEvent {
    StreamEvent::PlayerEvent(PlayerEvent {
        seq: None,
        ts: 8,
        event_type: kind.to_string(),
        source: "tab".to_string(),
        player_name: "Alex".to_string(),
        ansi: None,
        server_host: None,
    })
}

#[test]
fn replayed_events_are_dropped() {
    let mut last = 0;
    assert!(accept_stream_event(&mut last, &chat_event(Some(4), None, 1)));
    assert!(!accept_stream_event(&mut last, &chat_event(Some(4), None, 1)));
    assert!(!accept_stream_event(&mut last, &chat_event(Some(3), None, 1)));
    assert!(accept_stream_event(&mut last, &chat_event(None, None, 1)));
    assert_eq!(last, 4);
}

#[test]
fn events_become_lines() {
    let events = vec![
        chat_event(Some(1), Some(7), 70),
        player_event("join"),
        player_event("snapshot"),
        chat_event(Some(2), Some(5), 50),
        chat_event(Some(3), None, 90),
    ];
    let (rows, newest) = stream_rows(&events);
    assert_eq!(rows.len(), 4);
    assert_eq!(rows[1].kind, "join");
    assert_eq!(rows[1].subject_name.as_deref(), Some("Alex"));
    assert_eq!(rows[3].id, 0);
    assert_eq!(newest, Some((7, 70)));
}

#[test]
fn rows_are_merged_by_time() {
    let chat = vec![row(1, 10, "chat", "A"), row(2, 30, "chat", "B")];
    let presence = vec![row(8, 10, "join", "C"), row(9, 20, "leave", "D")];
    let merged = merge_rows(&chat, &presence);
    let ids: Vec<i64> = merged.iter().map(|r| r.id).collect();
    assert_eq!(ids, vec![1, 8, 9, 2]);
}

fn cursor(id: i64) -> Cursor {
    Cursor { id, at: Some(id * 10) }
}

fn run_start(plan: &StartPlan, stored: i64, latest: i64, has_channel: bool) -> (Cursors, Vec<i64>, bool) {
    let zero = Cursor { id: 0, at: None };
    let mut cursors = Cursors { chat: zero, event: zero, presence: zero };
    let mut ask = StartAsk::EnsureState;
    let mut written = Vec::new();
    let mut seeded = false;
    for _ in 0..12 {
        let reply = match &ask {
            StartAsk::ChatCursor | StartAsk::EventCursor | StartAsk::PresenceCursor => {
                StartReply::Read(cursor(stored))
            }
            StartAsk::LatestChat | StartAsk::LatestEvent | StartAsk::LatestPresence => {
                StartReply::Read(cursor(latest))
            }
            StartAsk::StoreChat(c) | StartAsk::StoreEvent(c) | StartAsk::StorePresence(c) => {
                written.push(c.id);
                StartReply::Done
            }
            StartAsk::Settings => StartReply::Settings { has_channel, enabled: true },
            StartAsk::StoreChannel(_) => {
                seeded = true;
                StartReply::Done
            }
            _ => StartReply::Done,
        };
        ask = start(&mut cursors, ask, reply, plan);
    }
    assert!(matches!(ask, StartAsk::Run));
    (cursors, written, seeded)
}

#[test]
fn feeds_go_on_where_they_stopped() {
    let plan = StartPlan { from_latest: true, seed: Some("77".to_string()) };
    let (cursors, written, seeded) = run_start(&plan, 5, 9, false);
    assert_eq!(cursors.chat, cursor(5));
    assert_eq!(written, vec![5, 5]);
    assert!(seeded);
    let (fresh, written, seeded) = run_start(&plan, 0, 9, true);
    assert_eq!(fresh.chat, cursor(9));
    assert_eq!(fresh.presence, cursor(9));
    assert_eq!(written, vec![9, 9, 9]);
    assert!(!seeded);
    let all = StartPlan { from_latest: false, seed: None };
    let (whole, _, _) = run_start(&all, 0, 9, true);
    assert_eq!(whole.chat, Cursor { id: 0, at: None });
    assert_eq!(whole.event, cursor(9));
}

#[test]
fn a_feed_is_planned_from_its_configuration() {
    let config = config();
    let first = Bridge::new(&config.servers[0]);
    let second = Bridge::new(&config.servers[1]);
    assert_eq!(first.plan(&config), FeedPlan::Stream { watch: true });
    assert_eq!(second.plan(&config), FeedPlan::Poll { notice: true });
    assert_eq!(first.start_plan(&config).seed.as_deref(), Some("77"));
    assert_eq!(second.start_plan(&config).seed, None);
    assert!(first.uses_stream());
    assert_eq!(first.key(), "main");
    assert_eq!(first.current_cursor(), 0);
    assert_eq!(batch_cap(&config), 20);
    let all = BridgeSet::new(&config);
    assert_eq!(all.get(&"second".to_string()).unwrap().label, "Second");
    assert!(all.get(&"third".to_string()).is_none());
}

#[test]
fn short_outages_say_nothing() {
    let mut w = LinkWatch::Starting;
    let s = watch_feed_link(w, false, 14_999, false);
    assert_eq!((s.watch, s.notice, s.wait_ms), (LinkWatch::Starting, None, 500));
    let s = watch_feed_link(w, true, 100, false);
    assert_eq!(s.notice, Some(LinkNotice::Connected));
    w = s.watch;
    for link in [false, false, true] {
        let s = watch_feed_link(w, link, 20_000, false);
        assert_eq!(s.notice, None);
        w = s.watch;
    }
    let mut notices = Vec::new();
    for link in [false, false, false, false, true] {
        let s = watch_feed_link(w, link, 20_000, false);
        notices.extend(s.notice);
        w = s.watch;
    }
    assert_eq!(notices, vec![LinkNotice::Lost, LinkNotice::Back]);
    assert_eq!(watch_feed_link(w, true, 0, true).watch, LinkWatch::Stopped);
    let late = watch_feed_link(LinkWatch::Starting, false, 15_000, false);
    assert_eq!(late.notice, Some(LinkNotice::Unreachable));
}

#[test]
fn notices_name_the_server_and_not_the_gateway() {
    let (link, detail) = link_detail(LinkNotice::Connected, "Main");
    assert_eq!(link, FeedLink::Streaming);
    assert_eq!(detail, "Connected to the event gateway for **Main**.");
    assert_eq!(link_detail(LinkNotice::Back, "Main").0, FeedLink::Recovered);
    assert_eq!(link_detail(LinkNotice::Lost, "Main").0, FeedLink::GatewayDown);
    let mut b = Bridge::new(&config().servers[0]);
    let (channel, embed) =
        b.post_feed_notice(&settings(Some("5"), true), link, &detail, 3).unwrap();
    assert_eq!(channel, "5");
    assert_eq!(embed.title.as_deref(), Some("Live feed connected"));
    assert_eq!(embed.footer.unwrap().text, "Main · event gateway");
    assert!(b.post_feed_notice(&settings(Some("5"), false), link, &detail, 3).is_none());
    assert!(b.post_feed_notice(&settings(None, true), link, &detail, 3).is_none());
    assert_eq!(
        b.announce_bot_reconnect(&config(), "2.0").as_deref(),
        Some("Back online. This feed reads the database every 2.0s.")
    );
    b.link = Some(false);
    assert_eq!(
        b.announce_bot_reconnect(&config(), "2.0").as_deref(),
        Some(
            "Back online, but the event gateway at `127.0.0.1:9700` is not reachable — retrying. \
             Check `mc-tail --status`."
        )
    );
    b.stop();
    assert!(b.announce_bot_reconnect(&config(), "2.0").is_none());
    assert_eq!(
        polling_detail("2.0"),
        "No event gateway configured for this server, so the feed reads new rows from the \
         database every 2.0s. Set `EVENT_STREAM_ADDR` to stream instead."
    );
}

#[test]
fn lines_are_spoken_only_over_a_live_link() {
    let mut b = Bridge::new(&config().servers[0]);
    assert_eq!(
        b.say(),
        Err("this server has no event gateway, so there is no way back into the game")
    );
    b.link = Some(false);
    assert_eq!(
        b.say(),
        Err("the gateway link is down right now — try again once the feed reconnects")
    );
    b.link = Some(true);
    assert!(b.say().is_ok());
    assert_eq!(b.gateway_up(), Some(true));
    assert!(Bridge::said(true).is_ok());
    assert_eq!(Bridge::said(false), Err("the gateway connection is gone"));
}

#[test]
fn delivered_rows_move_the_cursors() {
    let mut b = Bridge::new(&config().servers[0]);
    let kinds = config().bridge.kinds;
    let rows = vec![row(3, 30, "chat", "A"), row(4, 40, "join", "B"), row(4, 40, "join", "B")];
    let none = b.deliver_routed_rows(&rows, &settings(Some("5"), false), &Vec::new(), &kinds, 0, 9);
    assert!(none.is_empty());
    assert_eq!(b.last_post_at, None);
    let posts = b.deliver_routed_rows(&rows, &settings(Some("5"), true), &Vec::new(), &kinds, 0, 9);
    assert_eq!(posts.len(), 1);
    assert_eq!(posts[0].rows.len(), 2);
    assert_eq!(b.last_post_at, Some(9));
    assert!(b.on_stream_events(Some((7, 70))));
    assert!(!b.on_stream_events(Some((6, 60))));
    assert!(!b.on_stream_events(None));
    assert_eq!(b.current_cursor(), 7);
    assert_eq!(b.catch_up(cursor(5), cursor(8)), (false, true));
    assert_eq!(b.cursors.presence, cursor(8));
    assert_eq!(b.deliver_feed(&vec![row(9, 90, "chat", "A")], &Vec::new()), (true, false));
    assert_eq!(b.cursors.chat, cursor(9));
    let on = settings(Some("5"), true);
    assert!(!b.deliver_rows(&Vec::new(), &on, 5));
    assert_eq!(b.last_post_at, Some(9));
    assert!(!b.deliver_rows(&vec![row(11, 110, "chat", "A")], &settings(Some("5"), false), 5));
    assert!(!b.deliver_rows(&vec![row(11, 110, "chat", "A")], &settings(None, true), 5));
    assert_eq!((b.last_post_at, b.current_cursor()), (Some(9), 9));
    assert!(b.deliver_rows(&vec![row(11, 110, "chat", "A")], &on, 5));
    assert!(!b.deliver_rows(&vec![row(0, 110, "chat", "A")], &on, 6));
    assert_eq!((b.last_post_at, b.current_cursor()), (Some(6), 11));
    b.skip_to_latest(cursor(2), cursor(3));
    assert_eq!(b.current_cursor(), 2);
}

#[test]
fn watched_players_are_read_page_by_page() {
    let mut b = Bridge::new(&config().servers[0]);
    let page: Vec<ChatRow> = (1..=200).map(|i| row(i, i * 10, "join", "A")).collect();
    assert_eq!(b.deliver_watchbridge(&page, 0).len(), 1);
    assert!(b.advance_event_cursor(&page, cursor(900)));
    assert_eq!(b.cursors.event, cursor(200));
    assert!(b.advance_event_cursor(&Vec::new(), cursor(900)));
    assert_eq!(b.cursors.event, cursor(900));
    assert!(!b.advance_event_cursor(&Vec::new(), cursor(900)));
}

#[test]
fn a_test_line_shows_the_style() {
    let b = Bridge::new(&config().servers[0]);
    let (channel, embed) = b.post_test_line(&settings(Some("5"), false), None, 1).unwrap();
    assert_eq!(channel, "5");
    assert_eq!(
        embed.description.as_deref(),
        Some("Feed test from Main — this is what a line looks like.")
    );
    assert!(b.post_test_line(&settings(None, true), None, 1).is_none());
}

#[test]
fn refused_posts_are_tried_again() {
    assert!(is_permanent_discord_error("403: Missing Access"));
    assert!(!is_permanent_discord_error("500"));
    assert_eq!(send_embeds(0, "Missing Permissions", None), None);
    assert_eq!(send_embeds(0, "500", None), Some(2_000));
    assert_eq!(send_embeds(3, "500", None), Some(8_000));
    assert_eq!(send_embeds(0, "500", Some(60_000)), Some(15_000));
    assert_eq!(send_embeds(6, "500", None), Some(14_000));
    assert_eq!(send_embeds(7, "500", None), None);
}

#[test]
fn waits_are_read_from_the_refusal() {
    assert_eq!(parse_retry_after_secs("You are limited. Retry after 1.5 s (v10.0)"), vec!["1.5", "10.0"]);
    assert_eq!(parse_retry_after_secs("wait 3 s or 0.25"), vec!["0.25"]);
    assert!(parse_retry_after_secs("Could not decode json: 1.5").is_empty());
    assert_eq!(discord_429_wait(Some(429), "retry 2.5"), vec!["2.5"]);
    assert!(discord_429_wait(Some(500), "retry 2.5").is_empty());
    assert!(discord_429_wait(None, "retry 2.5").is_empty());
}

#[test]
fn feeds_that_failed_are_started_again() {
    let keys = vec!["a".to_string(), "b".to_string(), "c".to_string()];
    assert_eq!(start_all(&keys, &vec![true, false, false]), vec!["b", "c"]);
}
