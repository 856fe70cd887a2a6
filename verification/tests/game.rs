//! The logger in the game.
use mc_logger::classify::{ChatPatterns, Classifier, Kind};
use mc_logger::deaths::{matchers_from, CustomTemplate};
use mc_logger::game::{Action, Logger, LoggerSettings, Moment, ShownText};
use mc_logger::logger::{
    handle_chat, relay_line, relay_wait, text_to_store, title_in_brackets, ChatContext, ChatPacket,
    PacketSource, Relay,
};
use mc_logger::portal::{
    is_lobby_portal, is_sinking, looks_like_main_world, portal_search_secs, walk_step, Move, Sight,
    Walk,
};
use mc_logger::presence::{is_own_bot, Presence, PresenceContext, TabEntry, TabPacket};
use mc_logger::queue::QueuePattern;

fn classifier() -> Classifier {
    let custom: Vec<CustomTemplate> = Vec::new();
    let table = vec![
        "%1$s was slain by %2$s".to_string(),
        "%1$s fell from a high place".to_string(),
    ];
    Classifier {
        patterns: ChatPatterns::new().expect("the patterns compile"),
        deaths: matchers_from(&custom, &table),
    }
}

fn context() -> ChatContext {
    ChatContext {
        session_id: 5,
        now_us: 1_000,
        restart_offline_secs: 1,
        tablist_joins: false,
        bot_username: Some("LogBot".to_string()),
    }
}

fn packet(source: PacketSource, line: &str) -> ChatPacket {
    ChatPacket {
        source,
        plain_text: line.to_string(),
        ansi: line.to_string(),
        is_whisper: false,
        sender: None,
        sender_uuid: None,
        content: line.to_string(),
    }
}

#[test]
fn a_line_is_chat_or_an_event() {
    let c = classifier();
    let said = handle_chat(&c, &context(), &packet(PacketSource::System, "<Notch> hello"));
    let row = said.chat.expect("chat is stored");
    assert_eq!(row.sender_name.as_deref(), Some("Notch"));
    assert_eq!(row.plain_text, "hello");
    assert!(said.event.is_none());
    let died = handle_chat(&c, &context(), &packet(PacketSource::System, "Notch was slain by Alex"));
    let row = died.chat.expect("deaths are stored");
    assert_eq!(row.subject_name.as_deref(), Some("Notch"));
    assert_eq!(row.killer_name.as_deref(), Some("Alex"));
    let joined = handle_chat(&c, &context(), &packet(PacketSource::System, "Notch joined the game"));
    let event = joined.event.expect("joins are events");
    assert_eq!(event.player_name, "Notch");
}

#[test]
fn players_cannot_announce_a_restart() {
    let c = classifier();
    let line = "Server restarts in 1s";
    assert!(handle_chat(&c, &context(), &packet(PacketSource::System, line)).restart);
    assert!(!handle_chat(&c, &context(), &packet(PacketSource::Player, line)).restart);
    assert!(!handle_chat(&c, &context(), &packet(PacketSource::System, "Server restarts in 9s")).restart);
}

#[test]
fn stored_lines_keep_what_cannot_be_rebuilt() {
    assert_eq!(title_in_brackets("Notch has made the advancement [Eye Spy]"), "[Eye Spy]");
    assert_eq!(text_to_store(Kind::Death, &None, "Notch fell from a high place"), "");
    assert_eq!(text_to_store(Kind::Chat, &Some("hi".to_string()), "<Notch> hi"), "hi");
}

#[test]
fn lines_from_discord_are_guarded() {
    let who = Some("Steve".to_string());
    let line = match relay_line(" hi\n§cthere ", &who, "[D] ", false) {
        Relay::Speak(line) => line,
        _ => panic!("a plain line is spoken"),
    };
    assert_eq!(line, "[D] Steve: hithere");
    let sly = Some("/op §cme\n".to_string());
    assert!(matches!(relay_line("hi", &sly, "", false), Relay::Refused));
    match relay_line("hi", &sly, "[D] ", false) {
        Relay::Speak(line) => assert_eq!(line, "[D] /op me: hi"),
        _ => panic!("behind a prefix it is no command"),
    }
    assert!(matches!(relay_line("hi", &who, "/say ", false), Relay::Refused));
    assert!(matches!(relay_line("§a§b", &who, "", false), Relay::Empty));
    for (said, spoken) in [("a§ b", "discord: a b"), ("§§cx§", "discord: x"), ("§zx", "discord: zx")] {
        match relay_line(said, &None, "", false) {
            Relay::Speak(line) => assert_eq!(line, spoken),
            _ => panic!("a plain line is spoken"),
        }
    }
    assert!(matches!(relay_line("/op me", &who, "", false), Relay::Refused));
    assert!(matches!(relay_line("/op me", &who, "", true), Relay::Speak(_)));
    assert!(matches!(relay_line(" \n ", &who, "", true), Relay::Empty));
    let long = "x".repeat(400);
    match relay_line(&long, &None, "", false) {
        Relay::Speak(line) => assert_eq!(line.chars().count(), 256),
        _ => panic!("a long line is cut"),
    }
    assert_eq!(relay_wait(1_500, Some(1_000)), 500);
    assert_eq!(relay_wait(1_500, Some(2_000)), 0);
    assert_eq!(relay_wait(1_500, None), 0);
}

fn tab_context(now_ms: i64) -> PresenceContext {
    PresenceContext {
        suppressed: false,
        bot_username: Some("LogBot".to_string()),
        tablist_joins: true,
        login_at_ms: 1,
        now_ms,
    }
}

#[test]
fn a_leave_undoes_a_join() {
    let mut p = Presence::new();
    let c = tab_context(100_000);
    assert!(p.presence_note_join(&c, 7, "Notch").is_some());
    assert!(p.presence_note_join(&c, 7, "Notch").is_none());
    assert_eq!(p.online_players(&c.bot_username), vec!["Notch"]);
    let left = p.presence_note_leave(&c, 7).unwrap();
    assert_eq!(left.name, "Notch");
    assert!(p.presence_note_leave(&c, 7).is_none());
    assert!(p.online_players(&c.bot_username).is_empty());
    assert!(is_own_bot(&Some("LogBot".to_string()), "logbot"));
}

#[test]
fn the_tab_list_tells_who_is_there() {
    let mut p = Presence::new();
    let c = tab_context(100_000);
    let add = TabPacket::Update {
        update_listed: true,
        add_player: true,
        entries: vec![
            TabEntry { uuid: 1, name: "Notch".to_string(), listed: true },
            TabEntry { uuid: 2, name: "Ghost".to_string(), listed: false },
        ],
    };
    let events = p.handle_tab_presence_packet(&c, &add);
    assert_eq!(events.len(), 1);
    assert_eq!(events[0].name, "Notch");
    let gone = p.handle_tab_presence_packet(&c, &TabPacket::Remove(vec![1, 2]));
    assert_eq!(gone.len(), 1);
    let quiet = PresenceContext { suppressed: true, ..tab_context(100_000) };
    assert!(p.handle_tab_presence_packet(&quiet, &add).is_empty());
    p.clear_tab_presence();
    assert_eq!(p.retire_all(), 0);
    assert!(p.maybe_reconcile_tab_presence(&c, &None).events.is_empty());
}

#[test]
fn walks_into_the_portal_end() {
    assert!(is_sinking(Some(10)));
    assert!(!is_sinking(None));
    assert!(is_lobby_portal(150));
    assert!(!is_lobby_portal(200));
    assert!(looks_like_main_world(Some(64), false));
    assert!(!looks_like_main_world(Some(64), true));
    assert!(portal_search_secs(Some(10)) >= portal_search_secs(Some(100)));
    let mut walk = Walk::Begin;
    let sight = Sight { height: Some(100), portal_near: true, left: false };
    let mut steps = 0;
    loop {
        let step = walk_step(walk, sight);
        walk = step.walk;
        steps += 1;
        if let Walk::Over { left } = walk {
            assert!(!left);
            assert_eq!(step.next, Move::StepAway);
            break;
        }
        assert!(steps < 100_000);
    }
    let out = Sight { height: Some(64), portal_near: false, left: true };
    let step = walk_step(Walk::Waiting { attempt: 1, waited: 1 }, out);
    assert!(matches!(step.walk, Walk::Over { left: true }));
}

fn settings() -> LoggerSettings {
    LoggerSettings {
        enter_portal: false,
        anti_afk: None,
        queue_probe: false,
        queue_leave_at: 10,
        connection_msgs: false,
        tablist_joins: true,
        startup_commands: Vec::new(),
        lobby_only: false,
        say_enabled: false,
        say_allow_commands: false,
        say_prefix: String::new(),
        plugin_probe_chat: false,
        restart_offline_secs: 1,
    }
}

fn now(ms: i64) -> Moment {
    Moment { ms, us: ms * 1_000, steady_ms: ms as u64 }
}

#[test]
fn the_queue_pauses_the_feed() {
    let p = QueuePattern::new().unwrap();
    let c = classifier();
    let mut logger = Logger::new(settings(), 5);
    logger.on_login(now(1_000));
    logger.on_spawn("LogBot", now(1_000));
    let said = packet(PacketSource::System, "<Notch> hello");
    let logged = logger.log_chat(&c, &said, now(2_000));
    assert!(logged.iter().any(|a| matches!(a, Action::Chat(_))));
    let queued = logger.on_chat(&p, "Position in queue: 40");
    assert!(queued.iter().any(|a| matches!(a, Action::CloseSession { .. })));
    assert!(logger.log_chat(&c, &said, now(3_000)).iter().all(|a| !matches!(a, Action::Chat(_))));
    let back = logger.on_chat(&p, "Connected to the server.");
    assert!(back.iter().any(|a| matches!(a, Action::OpenSession)));
    logger.session_opened(6);
    assert!(logger.log_chat(&c, &said, now(4_000)).iter().any(|a| matches!(a, Action::Chat(_))));
    let over = logger.on_disconnect(&Some("kicked".to_string()));
    assert!(over.iter().any(|a| matches!(a, Action::CloseSession { session_id: 6, .. })));
}

#[test]
fn counts_on_the_tab_list_are_reported() {
    let p = QueuePattern::new().unwrap();
    let mut logger = Logger::new(settings(), 5);
    logger.on_login(now(1_000));
    let shown = ShownText::TabList("Online players: 504".to_string());
    let actions = logger.on_shown_text(&p, &shown, now(2_000));
    assert!(actions.iter().any(|a| matches!(a, Action::ReportOnline(504))));
    let again = logger.on_shown_text(&p, &shown, now(3_000));
    assert!(again.iter().all(|a| !matches!(a, Action::ReportOnline(_))));
}

#[test]
fn a_walk_is_started_once() {
    let mut logger = Logger::new(LoggerSettings { enter_portal: true, ..settings() }, 5);
    logger.on_login(now(1_000));
    let walks = |actions: &Vec<Action>| {
        actions.iter().filter(|a| matches!(a, Action::WalkIntoPortal)).count()
    };
    let first = logger.on_spawn("LogBot", now(1_000));
    assert_eq!(walks(&first), 1);
    let second = logger.on_spawn("LogBot", now(2_000));
    assert_eq!(walks(&second), 0);
    logger.portal_walk_over(true);
    assert!(logger.place.in_main_world);
}
