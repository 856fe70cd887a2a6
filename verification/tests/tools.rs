//! Settings, and the tools beside the logger and the bot.
use mc_logger::backfill::{backfill_prefixes, pad, report, scan, tally, BareRow, StoredRow};
use mc_logger::boards::{
    build_database_embed, build_leaderboard_embed, build_stats_overview_embed, build_top_boards_embed,
    highlight_clip, BoardInfo, TrendSizes,
};
use mc_logger::classify::{ChatPatterns, Classifier};
use mc_logger::config::{Config, ConfigError};
use mc_logger::deaths::{
    custom_death_templates, matchers_from, reads_like_a_death, vocabulary_in, CustomTemplate,
};
use mc_logger::discover::{
    add_templates, addable, assess, collect, database_url_in, find_name, is_env_file, write_review,
    AddError, Candidate, Seen,
};
use mc_logger::models::{DatabaseStats, LeaderMetric, LeaderRow, WindowStats};
use mc_logger::scrape::{
    describe_channel, describe_http_error, is_user_token, next_backoff, parse_args, write_messages,
    ArgError, Asked, ChannelKind, ExportedAttachment, ExportedAuthor, ExportedMessage, Fetch,
    PageRequest,
};
use mc_logger::settings::{
    env_file_key, instance_key, logger_settings, run_settings, stream_target, MissingSetting,
};
use mc_logger::table::Table;
use mc_logger::vars;

fn strings(all: &[&str]) -> Vec<String> {
    all.iter().map(|s| s.to_string()).collect()
}

fn env(pairs: &[(&str, &str)]) -> Table<String> {
    let mut t = Table::new();
    for (name, value) in pairs {
        t.insert(name.to_string(), value.to_string());
    }
    t
}

fn templates() -> Vec<String> {
    strings(&["%1$s was slain by %2$s", "%1$s fell from a high place", "%1$s drowned"])
}

fn classifier() -> Classifier {
    let custom: Vec<CustomTemplate> = Vec::new();
    Classifier {
        patterns: ChatPatterns::new().expect("the patterns compile"),
        deaths: matchers_from(&custom, &templates()),
    }
}

#[test]
fn a_bot_is_configured_from_its_environment() {
    let full = [
        ("DISCORD_TOKEN", "t"),
        ("DISCORD_CLIENT_ID", "12"),
        ("DATABASE_URL", "postgres://x"),
        ("BRIDGE_POLL_MS", "5"),
        ("BRIDGE_KINDS", "Chat, death,,"),
    ];
    let config = Config::load(&env(&full)).ok().expect("nothing is missing");
    assert_eq!(config.bridge.poll_ms, 1_000);
    assert_eq!(config.bridge.kinds, vec!["chat", "death"]);
    assert_eq!(config.servers.len(), 1);
    assert!(!config.multi_server());
    assert!(matches!(
        Config::load(&env(&full[1..])),
        Err(ConfigError::Missing { name }) if name == "DISCORD_TOKEN"
    ));
    let mut bad_id = full;
    bad_id[1] = ("DISCORD_CLIENT_ID", "me");
    assert!(matches!(
        Config::load(&env(&bad_id)),
        Err(ConfigError::NotAnId { name }) if name == "DISCORD_CLIENT_ID"
    ));
    let mut bad_number = full;
    bad_number[3] = ("BRIDGE_POLL_MS", "often");
    assert!(matches!(
        Config::load(&env(&bad_number)),
        Err(ConfigError::NotANumber { name, raw }) if name == "BRIDGE_POLL_MS" && raw == "often"
    ));
    let no_database = [
        ("DISCORD_TOKEN", "t"),
        ("DISCORD_CLIENT_ID", "12"),
        ("SERVERS", "main"),
    ];
    match Config::load(&env(&no_database)) {
        Err(e @ ConfigError::NoDatabase { .. }) => assert!(e.describe().contains("main")),
        _ => panic!("a listed server needs a database"),
    }
}

#[test]
fn a_logger_is_configured_from_its_environment() {
    let file = Some(".env.sixbsixt".to_string());
    assert_eq!(env_file_key(&file).as_deref(), Some("sixbsixt"));
    assert_eq!(env_file_key(&None), None);
    assert_eq!(instance_key(&env(&[]), &file), "sixbsixt");
    let streaming = env(&[("EVENT_STREAM_ADDR", "127.0.0.1:9700")]);
    assert_eq!(
        stream_target(&streaming, &file),
        Some(("127.0.0.1:9700".to_string(), "sixbsixt".to_string()))
    );
    let full = env(&[("MC_EMAIL", "a@b.c"), ("DATABASE_URL", "postgres://x")]);
    let run = run_settings(&full, &file).ok().expect("nothing is missing");
    assert_eq!((run.takeover_secs, run.heartbeat_secs, run.reconcile_secs), (45, 15, 300));
    assert_eq!(run.database_url, "postgres://x");
    let missing = run_settings(&env(&[]), &file).err().expect("nothing is set");
    assert_eq!(missing, MissingSetting::Email);
    assert_eq!(missing.describe(), "Set MC_EMAIL to the Microsoft account to sign in as.");
    let half = run_settings(&env(&[("MC_EMAIL", "a@b.c")]), &file).err();
    assert_eq!(half, Some(MissingSetting::DatabaseUrl));
    let settings = logger_settings(&env(&[]), "example.org");
    assert_eq!(settings.restart_offline_secs, 1);
    let raised = env(&[("RESTART_OFFLINE_SECS", " 10 ")]);
    assert_eq!(logger_settings(&raised, "example.org").restart_offline_secs, 10);
    assert_eq!(vars::get_number(&env(&[("N", "7")]), "N", 1), 7);
    assert_eq!(vars::get_number(&env(&[("N", " 7 ")]), "N", 1), 1);
    assert_eq!(vars::get_or(&env(&[]), "N", "x"), "x");
    assert_eq!(vars::list("a, b,,c"), vec!["a", "b", "c"]);
}

#[test]
fn unknown_deaths_become_templates() {
    let words = vocabulary_in(&templates());
    assert!(reads_like_a_death("Notch was slain by Alex", &words));
    let players = strings(&["Notch", "Alex"]);
    assert_eq!(find_name("oh Notch fell", "Notch"), Some(3));
    assert_eq!(find_name("NotchFan fell", "Notch"), None);
    let one = assess("Notch was slain badly", 3, &players, &words).expect("it is a candidate");
    assert_eq!(one.template, "%1$s was slain badly");
    assert_eq!(one.blocked, None);
    let two = assess("Notch was slain near Alex", 1, &players, &words).expect("it is a candidate");
    assert_eq!(two.template, "%1$s was slain near %2$s");
    assert_eq!(
        two.blocked,
        Some("names two players — could be a kill in either direction")
    );
    let seen = vec![
        Seen { line: "Notch was slain badly".to_string(), count: 3 },
        Seen { line: "Alex was slain badly".to_string(), count: 2 },
        Seen { line: "Notch drowned".to_string(), count: 9 },
    ];
    let found = collect(&classifier(), &seen, &players, &words);
    assert_eq!(found.len(), 1);
    assert_eq!(found[0].count, 5);
    assert_eq!(addable(&found), vec!["%1$s was slain badly"]);
}

#[test]
fn a_name_inside_another_is_no_second_player() {
    let words = vocabulary_in(&templates());
    let players = strings(&["Bob", "Bobby"]);
    let two = assess("Bobby was slain by Bob", 1, &players, &words).expect("it is a candidate");
    assert_eq!(two.template, "%1$s was slain by %2$s");
    assert_eq!(
        two.blocked,
        Some("names two players — could be a kill in either direction")
    );
    let one = assess("Bobby was slain badly", 1, &players, &words).expect("it is a candidate");
    assert_eq!((one.template.as_str(), one.blocked), ("%1$s was slain badly", None));
    let dotted = strings(&["Bob", "A.Bob"]);
    let own = assess("A.Bob was slain by A.Bob", 1, &dotted, &words).expect("it is a candidate");
    assert_eq!((own.template.as_str(), own.blocked), ("%1$s was slain by %1$s", None));
    let both = assess("A.Bob was slain by Bob", 1, &dotted, &words).expect("it is a candidate");
    assert!(both.blocked.is_some());
}

#[test]
fn templates_are_added_to_their_group() {
    let new = strings(&["%1$s \"fell\"", "%1$s sank"]);
    let raw = r#"{"z": [1, -2.5, null], "discovered": ["%1$s old"], "_a": {"k": true}}"#;
    let text = add_templates(raw, &new).expect("the group is a list");
    assert_eq!(
        text,
        r#"{
  "_a": {
    "k": true
  },
  "discovered": [
    "%1$s old",
    "%1$s \"fell\"",
    "%1$s sank"
  ],
  "z": [
    1,
    -2.5,
    null
  ]
}"#
    );
    let read: Vec<String> =
        custom_death_templates(&text).into_iter().map(|t| t.template).collect();
    assert_eq!(read, vec!["%1$s old", "%1$s \"fell\"", "%1$s sank"]);
    let text = add_templates("{}", &strings(&["x"])).expect("the group is added");
    assert_eq!(text, "{\n  \"discovered\": [\n    \"x\"\n  ]\n}");
    assert_eq!(add_templates("{", &new), Err(AddError::InvalidJson));
    assert_eq!(add_templates("[]", &new), Err(AddError::NotAnObject));
    assert_eq!(add_templates(r#"{"discovered": "x"}"#, &new), Err(AddError::GroupNotAList));
}

#[test]
fn candidates_wait_for_a_decision() {
    let c = Candidate {
        template: "%1$s beat %2$s".to_string(),
        example: "A beat B".to_string(),
        count: 3,
        blocked: Some("why not"),
    };
    let text = write_review(Some(r#"{".env": 1, "other": 2}"#), ".env", &vec![&c]);
    assert_eq!(
        text,
        r#"{
  ".env": [
    {
      "example": "A beat B",
      "seen": 3,
      "template": "%1$s beat %2$s",
      "why": "why not"
    }
  ],
  "_readme": [
    "Death messages discover found but would not add by itself.",
    "Check the direction, then move the template into custom_deaths.json.",
    "A line naming two players is usually a kill: if the killer comes",
    "first, use {\"template\": ..., \"killer\": 1, \"victim\": 2}.",
    "Entries here are rewritten every pass; deleting one is harmless."
  ],
  "other": 2
}"#
    );
    let free = Candidate { blocked: None, count: -1, ..c };
    let text = write_review(Some("[]"), "x", &vec![&free]);
    assert!(text.contains("\"seen\": -1") && text.contains("\"why\": null"));
    assert_eq!(text, write_review(None, "x", &vec![&free]));
}

#[test]
fn instances_are_found_by_their_files() {
    assert!(is_env_file(".env"));
    assert!(is_env_file(".env.sixbsixt"));
    assert!(!is_env_file(".env.sixbsixt.disabled"));
    assert!(!is_env_file(".env.pid"));
    assert_eq!(
        database_url_in("A=1\n DATABASE_URL=\"postgres://x\" \n").as_deref(),
        Some("postgres://x")
    );
    assert_eq!(database_url_in("A=1"), None);
}

fn stored(id: i64, kind: &str, line: &str) -> StoredRow {
    StoredRow {
        id,
        source: "s".to_string(),
        kind: kind.to_string(),
        subject_name: None,
        killer_name: None,
        plain_text: line.to_string(),
    }
}

#[test]
fn stored_lines_are_sorted_anew() {
    let rows = vec![
        stored(1, "server", "Notch was slain by Alex"),
        stored(2, "server", "The end is near"),
        stored(3, "server", "<Notch> hello"),
        stored(4, "death", "Notch drowned"),
        stored(5, "death", "The end is near"),
    ];
    let found = scan(&classifier(), &rows);
    assert_eq!((found.scanned, found.unchanged, found.not_a_death), (5, 0, 1));
    assert_eq!(found.downgrades, vec!["The end is near"]);
    let kinds: Vec<(i64, &str)> = found.changes.iter().map(|c| (c.id, c.kind.as_str())).collect();
    assert_eq!(kinds, vec![(1, "death"), (3, "chat"), (4, "death")]);
    let death = &found.changes[0];
    assert!(death.is_rescue());
    assert_eq!(death.subject.as_deref(), Some("Notch"));
    assert_eq!(death.killer.as_deref(), Some("Alex"));
    let chat = &found.changes[1];
    assert_eq!(chat.sender.as_deref(), Some("Notch"));
    assert_eq!(chat.content.as_deref(), Some("hello"));
    assert!(!found.changes[2].is_rescue());
    let expected = vec![
        "\nscanned 5 row(s): 1 unrecognised death(s), 1 unrecognised chat message(s), \
         1 death(s) with the wrong names, 0 already correct, 1 unclassified",
        "\n1 row(s) stored as deaths no longer match any template — left alone:",
        "  The end is near",
        "\nDeaths now recognised:",
        "  [server] Notch was slain by Alex  ->  victim Notch, killer Alex",
        "\nChat now recognised (was filed as a server notice):",
        "  <Notch> hello  ->  Notch said \"hello\"",
        "\nDeaths whose victim or killer was wrong:",
        "  Notch drowned\n    victim - -> Notch, killer - -> -",
        "\nPvP kills these corrections add to the leaderboard:",
        "    1  Alex",
        "\n1 death(s) will be added to victims' stats.",
    ];
    assert_eq!(report(&found, &strings(&["alex"])), expected);
    let unknown = report(&found, &strings(&[]));
    assert_eq!(
        unknown.last().map(String::as_str),
        Some(
            "1 corrected killer(s) are not in `players` — mobs, or players the bot never saw \
             in the tab list. Those stay out of the leaderboard by design."
        )
    );
}

#[test]
fn corrections_settle() {
    let before = vec![stored(1, "server", "Notch was slain by Alex")];
    let change = &scan(&classifier(), &before).changes[0];
    let after = vec![StoredRow {
        kind: change.kind.clone(),
        subject_name: change.subject.clone(),
        killer_name: change.killer.clone(),
        ..stored(1, "server", "Notch was slain by Alex")
    }];
    let again = scan(&classifier(), &after);
    assert_eq!((again.scanned, again.changes.len(), again.unchanged), (1, 0, 1));
}

#[test]
fn tallies_and_prefixes_are_exact() {
    assert_eq!(pad(7, 3), "  7");
    assert_eq!(pad(1234, 3), "1234");
    assert_eq!(
        tally(&strings(&["a", "b", "a"])),
        vec![(2, "a".to_string()), (1, "b".to_string())]
    );
    let bare = vec![
        BareRow { id: 4, plain_text: "[VIP] <Notch> hello".to_string() },
        BareRow { id: 5, plain_text: "The end is near".to_string() },
    ];
    assert_eq!(
        backfill_prefixes(&classifier(), &bare),
        vec![(4, "[VIP] <Notch>".to_string())]
    );
}

#[test]
fn an_export_is_asked_for_in_full() {
    let args = strings(&["--channel=123", "--limit", "5", "--format", "text"]);
    match parse_args(&args, None, Some("tok".to_string())) {
        Ok(Asked::Export(a)) => {
            assert_eq!((a.channel_id, a.limit), (123, Some(5)));
            assert_eq!(a.token, "tok");
            assert_eq!(a.out.as_deref(), Some("channel-123.jsonl"));
        }
        _ => panic!("the arguments are complete"),
    }
    for (raw, out) in [
        (&["--channel", "42", "--format", "text"], Some("channel-42.jsonl")),
        (&["--channel", "42", "--format", "jsonl"], Some("channel-42.jsonl")),
        (&["--channel", "42", "--out", "x.txt"], Some("x.txt")),
        (&["--channel", "42", "--out", "-"], None),
    ] {
        match parse_args(&strings(raw), None, Some("t".to_string())) {
            Ok(Asked::Export(a)) => assert_eq!(a.out.as_deref(), out),
            _ => panic!("the arguments are complete"),
        }
    }
    assert!(matches!(parse_args(&strings(&["--help"]), None, None), Ok(Asked::Help)));
    let error = |raw: &[&str]| {
        parse_args(&strings(raw), None, Some("tok".to_string())).err().expect("it is refused")
    };
    assert!(matches!(error(&["--limit"]), ArgError::NeedsValue { .. }));
    assert!(matches!(error(&["--after=x", "--channel=1"]), ArgError::NotSnowflake { .. }));
    assert!(matches!(error(&["--after=0", "--channel=1"]), ArgError::ZeroSnowflake { .. }));
    assert!(matches!(error(&["--limit=x", "--channel=1"]), ArgError::NotPositive { .. }));
    assert!(matches!(error(&["--limit=0", "--channel=1"]), ArgError::Zero { .. }));
    assert!(matches!(error(&["--format=xml", "--channel=1"]), ArgError::BadFormat { .. }));
    assert!(matches!(error(&["--nope", "--channel=1"]), ArgError::UnknownFlag { .. }));
    assert!(matches!(error(&["1", "2"]), ArgError::Unexpected { .. }));
    assert!(matches!(error(&[]), ArgError::NoChannel));
    assert!(matches!(
        error(&["--channel=1", "--after=9", "--before=9"]),
        ArgError::AfterNotBelowBefore
    ));
    assert!(matches!(
        parse_args(&strings(&["--channel=1"]), None, None),
        Err(ArgError::NoToken)
    ));
    assert_eq!(
        error(&[]).describe(),
        "missing --channel CHANNEL_ID (or env CHANNEL_ID). Use --help."
    );
    assert_eq!(
        error(&["--format=xml", "--channel=1"]).describe(),
        "--format must be jsonl or text, got \"xml\""
    );
    assert!(!is_user_token("Bot abc"));
    assert!(is_user_token(" Bearer abc"));
}

fn message(id: u64) -> ExportedMessage {
    ExportedMessage {
        id,
        timestamp: "2024-01-01T00:00:00Z".to_string(),
        author: ExportedAuthor { id: 1, name: "Ann".to_string(), bot: false },
        content: format!("m{id}"),
        attachments: vec![ExportedAttachment {
            url: "https://x/y".to_string(),
            filename: "y".to_string(),
        }],
    }
}

#[test]
fn an_export_goes_on_until_it_has_enough() {
    let mut fetch = Fetch::new(Some(3), Some(10), None);
    assert_eq!(
        fetch.next_request(),
        Some(PageRequest { take: 3, after: Some(10), before: None })
    );
    fetch.take_page(vec![message(13), message(12), message(11)]);
    assert_eq!(fetch.next_request(), None);
    let all = fetch.finish();
    let ids: Vec<u64> = all.iter().map(|m| m.id).collect();
    assert_eq!(ids, vec![11, 12, 13]);
    assert_eq!(
        write_messages(&all[..1].iter().map(|m| message(m.id)).collect()),
        "[2024-01-01T00:00:00Z] Ann: m11\n  attachment: https://x/y (y)\n"
    );
    let mut back = Fetch::new(Some(2), Some(10), Some(14));
    assert_eq!(
        back.next_request(),
        Some(PageRequest { take: 2, after: Some(10), before: None })
    );
    back.take_page(vec![message(14), message(13)]);
    assert_eq!(back.finish().len(), 1);
    assert_eq!(next_backoff(2), 4);
    assert_eq!(next_backoff(45), 60);
}

#[test]
fn refusals_of_discord_are_explained() {
    assert_eq!(
        describe_http_error(401, 0, "x"),
        "unauthorized (401): invalid or missing bot token. Check DISCORD_TOKEN."
    );
    assert_eq!(describe_http_error(429, 0, " slow "), "rate limited (429): slow. Wait and retry.");
    assert_eq!(describe_http_error(500, 7, "x"), "Discord HTTP 500 (code 7): x");
    assert_eq!(
        describe_http_error(404, 10_003, "x"),
        "unknown channel (HTTP 404, Discord 10003): wrong ID, or the bot is not in that server. x"
    );
    assert_eq!(describe_channel(&ChannelKind::Private), Err("refusing to export a DM channel"));
    let guild = ChannelKind::Guild {
        direct: false,
        name: "general".to_string(),
        id: 5,
        kind_name: "Text".to_string(),
    };
    assert_eq!(describe_channel(&guild), Ok("#general (5) [Text]".to_string()));
    assert_eq!(
        describe_channel(&ChannelKind::Other),
        Err("unknown channel type — not exporting")
    );
}

fn leader(name: &str, value: i64) -> LeaderRow {
    LeaderRow {
        name: name.to_string(),
        value_milli: value * 1_000,
        kills: Some(value),
        deaths: Some(1),
        ratio: "2.00".to_string(),
    }
}

#[test]
fn boards_rank_from_their_page() {
    let config = Config::load(&env(&[
        ("DISCORD_TOKEN", "t"),
        ("DISCORD_CLIENT_ID", "12"),
        ("DATABASE_URL", "postgres://x"),
    ]))
    .ok()
    .expect("nothing is missing");
    let info = BoardInfo {
        page: 1,
        page_count: 2,
        per_page: 15,
        server_label: "Main",
        total: "20",
        elapsed: "0.10",
    };
    let rows = vec![leader("Notch", 9), leader("Alex", 8)];
    let board = build_leaderboard_embed(LeaderMetric::Kills, &rows, &info, &config, 0);
    assert_eq!(board.title.as_deref(), Some("PvP kills"));
    let body = board.description.unwrap();
    assert_eq!(
        body,
        "`#16` **Notch** — **9** · 1 deaths\n`#17` **Alex** — **8** · 1 deaths"
    );
    assert_eq!(
        board.footer.unwrap().text,
        "Main  ·  20 ranked · player-versus-player only  ·  Page 2/2  ·  Done in 0.10s"
    );
    let ratios = build_leaderboard_embed(LeaderMetric::Kd, &rows, &info, &config, 0);
    assert_eq!(
        ratios.description.as_deref(),
        Some("`#16` **Notch** — **2.00** · 9 / 1\n`#17` **Alex** — **2.00** · 8 / 1")
    );
    let top = build_top_boards_embed("Main", &rows, &Vec::new(), &rows, &rows, 0);
    assert_eq!(top.fields.len(), 4);
    assert_eq!(
        top.fields[0].value,
        "```\n#  PLAYER  LINES\n1  Notch       9\n2  Alex        8\n```"
    );
    assert_eq!(top.fields[1].value, "*Nothing here yet.*");
    let now = WindowStats { chat: 1_200, ..WindowStats::default() };
    let sizes = || "5".to_string();
    let trends = TrendSizes {
        chat: sizes(),
        joins: sizes(),
        leaves: sizes(),
        deaths: sizes(),
        kills: sizes(),
    };
    let before = WindowStats::default();
    let overview =
        build_stats_overview_embed("Main", "last 7 days", &now, Some((&before, &trends)), 3, None, 0);
    assert_eq!(
        overview.description.as_deref(),
        Some(
            "`Online:` **3**\n`Players:` **0**\n\n`Messages:` **1,200** · ▲ 5\n\
             `Joins:` **0** · • same\n`Leaves:` **0** · • same\n`Advancements:` **0**\n\n\
             `Deaths:` **0** · • same\n`PvP kills:` **0** · • same"
        )
    );
    let stored = DatabaseStats {
        database: "mc".to_string(),
        size: "5 MB".to_string(),
        bytes: 5,
        oldest: None,
        newest: Some(1_000_000),
        chat: 1,
        joins: 2,
        leaves: 3,
        deaths: 4,
        kills: 5,
        players: 6,
        sessions: 7,
        goals: 8,
    };
    let shown = build_database_embed(&stored, "Main", "0.10", 0);
    assert_eq!(
        shown.description.as_deref(),
        Some(
            "`Database:` **mc**\n`On disk:` **5 MB**\n`Players:` **6**\n`Messages:` **1**\n\
             `Joins:` **2**\n`Leaves:` **3**\n`Deaths:` **4**\n`PvP kills:` **5**\n\
             `Advancements:` **8**\n`Sessions:` **7**\n`Newest:` **<t:1:f>**"
        )
    );
    assert_eq!(highlight_clip("say hello", Some("HELLO")), "say **hello**");
    assert_eq!(highlight_clip("say *hello*", Some("hello")), "say *hello*");
}
