//! Rows on their way into the database.
use mc_logger::batch::{
    code, dict_key, name_based_player_uuid, normalize_mc_name, rank_prefix, session_id, wanted_names,
    write_restarts, Flusher,
};
use mc_logger::players::sightings;
use mc_logger::rows::{
    heartbeat_sample, narrow_session, packed_char, queue_sample, rollup, ChatRow, Heartbeat,
    PlayerEventRow, Write, Writer,
};

#[test]
fn extracts_chat_prefixes() {
    assert_eq!(
        rank_prefix("[Prime] TheGroupProject", "TheGroupProject").as_deref(),
        Some("[Prime]")
    );
    assert_eq!(
        rank_prefix("[8] [MVP] DesBob [slime]", "DesBob").as_deref(),
        Some("[8] [MVP]")
    );
    assert_eq!(
        rank_prefix("<[M] SawgerGG>", "SawgerGG").as_deref(),
        Some("[M]")
    );
    assert_eq!(rank_prefix("❄ santiahre", "santiahre").as_deref(), Some("❄"));
    assert_eq!(rank_prefix("jointedx21", "jointedx21"), None);
}

fn line(sender: &str, label: Option<&str>) -> Write {
    Write::Chat(ChatRow {
        session_id: 4,
        received_at: 10,
        source: "s".to_string(),
        kind: "c".to_string(),
        sender_name: Some(sender.to_string()),
        sender_uuid: None,
        subject_name: None,
        killer_name: None,
        sender_label: label.map(|l| l.to_string()),
        plain_text: "hello".to_string(),
        ansi: None,
    })
}

fn event(kind: &str, source: &str, name: &str) -> Write {
    Write::Event(PlayerEventRow {
        session_id: 4,
        occurred_at: 11,
        event_type: kind.to_string(),
        source: source.to_string(),
        player_name: name.to_string(),
        player_uuid: None,
        ansi: None,
    })
}

#[test]
fn offline_uuids_come_from_the_name() {
    let notch = name_based_player_uuid("Notch");
    assert_eq!(notch, 0xb9b95fe83ce656fa90dcce1f73996764);
    assert_eq!(notch, name_based_player_uuid("NOTCH"));
    assert_ne!(notch, name_based_player_uuid("Alex"));
    // The fifth version, in the usual variant.
    assert_eq!((notch >> 76) & 0xf, 5);
    assert_eq!((notch >> 62) & 0x3, 2);
}

#[test]
fn names_are_checked_before_they_are_stored() {
    assert_eq!(normalize_mc_name("Notch").as_deref(), Some("Notch"));
    assert_eq!(normalize_mc_name(".Bedrock").as_deref(), Some(".Bedrock"));
    assert_eq!(normalize_mc_name("has space"), None);
    assert_eq!(normalize_mc_name(""), None);
    assert_eq!(normalize_mc_name("seventeen_letters"), None);
    assert_eq!(dict_key(" Wither Skeleton ").as_deref(), Some("Wither Skeleton"));
    assert_eq!(dict_key(&"x".repeat(65)), None);
    assert_eq!(session_id(1 << 40), None);
    assert_eq!(session_id(7), Some(7));
    assert_eq!(narrow_session(9), 9);
    assert_eq!(code("join"), "j");
    assert_eq!(packed_char("death"), 'd');
}

#[test]
fn a_batch_is_written_with_the_ids_of_its_names() {
    let batch = vec![line("Notch", Some("[VIP] Notch")), event("join", "tab", "Alex")];
    let mut flusher = Flusher::new();
    let names = wanted_names(&batch);
    let missing = flusher.missing_names(&names);
    assert_eq!(missing.len(), 2);
    for (i, name) in missing.iter().enumerate() {
        flusher.learn_name(name.to_lowercase(), i as i32 + 1);
    }
    assert!(flusher.missing_names(&names).is_empty());
    let chat = flusher.write_chat(&batch);
    assert_eq!(chat.len(), 1);
    assert_eq!(chat[0].sender, flusher.name_id(&Some("notch".to_string())));
    assert!(matches!(chat[0].sender, Some(1) | Some(2)));
    let events = flusher.write_events(&batch);
    assert_eq!(events.log.len(), 1);
    assert_eq!(events.log[0].event_type, "j");
    assert_eq!(events.presence.len(), 1);
    assert!(events.presence[0].present);
    let ranks = flusher.write_ranks(&batch);
    assert_eq!(ranks.len(), 1);
    assert_eq!(ranks[0].rank, "[VIP]");
    flusher.file_rank(&ranks[0]);
    assert!(flusher.write_ranks(&batch).is_empty());
}

#[test]
fn a_player_is_filed_once() {
    let batch = vec![line("Notch", None), line("NOTCH", None), event("leave", "tab", "Alex")];
    let seen = sightings(&batch);
    assert_eq!(seen.len(), 2);
    let mut flusher = Flusher::new();
    let fresh = flusher.touch_players(&seen);
    assert_eq!(fresh.len(), 2);
    assert!(fresh.iter().all(|f| !f.is_real));
    flusher.file_players(&fresh);
    assert!(flusher.touch_players(&seen).is_empty());
}

#[test]
fn restarts_and_rejoins_keep_their_sessions() {
    let batch = vec![
        Write::ServerRestart { session_id: 4, at: 20 },
        Write::ReconcileOnline { session_id: 4, at: 21, players: vec!["Notch".to_string()] },
    ];
    let restarts = write_restarts(&batch);
    assert_eq!((restarts[0].session, restarts[0].at), (4, 20));
    let mut flusher = Flusher::new();
    flusher.learn_name("notch".to_string(), 8);
    let rejoins = flusher.write_rejoins(&batch);
    assert_eq!(rejoins[0].players, vec![8]);
}

#[test]
fn only_an_active_logger_writes() {
    let quiet = Writer { active: false, streaming: true, server_host: "h".to_string() };
    assert!(!quiet.logging());
    assert!(quiet.server_restart(4, 5).is_none());
    let busy = Writer { active: true, streaming: true, server_host: "h".to_string() };
    let Write::Chat(row) = line("Notch", None) else { unreachable!() };
    let written = busy.chat(row);
    assert!(written.write.is_some());
    assert!(written.publish.is_some());
    assert!(busy.reconcile_online(4, 5, vec!["Notch".to_string()]).is_some());
    assert!(busy.reconcile_online(4, 5, Vec::new()).is_none());
}

#[test]
fn samples_are_kept_where_something_changed() {
    let beat = |online: Option<i32>| Heartbeat {
        role: "primary".to_string(),
        server_host: "h".to_string(),
        session_id: Some(4),
        bot_username: None,
        connected: true,
        writing: true,
        reported_online: online,
    };
    assert!(heartbeat_sample(&None, &beat(Some(3))).is_some());
    assert!(heartbeat_sample(&Some(beat(Some(3))), &beat(Some(3))).is_none());
    assert!(queue_sample(None, Some(5), true));
    assert!(!queue_sample(Some((Some(5), true)), Some(5), true));
    assert!(queue_sample(Some((Some(5), true)), Some(4), true));
}

#[test]
fn yesterday_is_closed_once() {
    let first = rollup(None, 100);
    assert_eq!(first.to, 100);
    let next = rollup(Some(100), 101);
    assert_eq!((next.from, next.to), (100, 101));
    assert!(next.partitions);
    let same = rollup(Some(101), 101);
    assert_eq!((same.from, same.to), (101, 101));
    assert!(!same.partitions);
}
