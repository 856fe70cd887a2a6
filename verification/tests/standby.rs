//! Which of two loggers writes.
use mc_logger::standby::{describe_change, step, waits, Change, PrimaryCheck, Role};

#[test]
fn role_parsing_accepts_the_words_people_use() {
    assert!(Role::from_env("standby").is_standby());
    assert!(Role::from_env("Backup").is_standby());
    assert!(Role::from_env(" fallback ").is_standby());
    assert!(!Role::from_env("primary").is_standby());
    assert!(!Role::from_env("").is_standby());
}

#[test]
fn a_standby_takes_over_and_stands_down() {
    let alone = step(Role::Standby, true, false, PrimaryCheck::Answer(None));
    assert!(alone.writing);
    assert!(matches!(alone.change, Some(Change::TakingOver)));
    let back = step(
        Role::Standby,
        true,
        true,
        PrimaryCheck::Answer(Some("main".to_string())),
    );
    assert!(!back.writing);
    assert!(matches!(&back.change, Some(Change::StandingDown(who)) if who == "main"));
    let said = describe_change(&back.change.unwrap(), 90, &None);
    assert_eq!(said, "standby standing down: primary \"main\" is logging again");
    assert_eq!(
        describe_change(&Change::TakingOver, 45, &Some("Bob".to_string())),
        "standby taking over: no primary heartbeat for 45s — logging as Bob"
    );
    assert_eq!(describe_change(&Change::Offline, 45, &None), "standby offline — not logging");
    assert!(step(Role::Standby, true, true, PrimaryCheck::Failed).writing);
    assert!(!step(Role::Standby, true, false, PrimaryCheck::Failed).writing);
}

#[test]
fn heartbeats_come_more_often_than_takeovers() {
    let (takeover, heartbeat) = waits(Some(20), Some(600));
    assert!(heartbeat < takeover);
    let (default_takeover, default_heartbeat) = waits(None, None);
    assert!(default_heartbeat < default_takeover);
}
