//! The text around the tab list and the queue in front of a server.
use mc_logger::queue::{
    apply_queue_probe, looks_like_queue_limbo, note_queue_limbo, parse_online_count,
    parse_queue_position, should_write_count, suppress_public_feed, LimboStep, ProbeStep,
    QueuePattern,
};

#[test]
fn reads_6b6t_style_header() {
    assert_eq!(
        parse_online_count("Ping: 97   Rank: [Prime]\nOnline players: 504\n"),
        Some(504)
    );
}

#[test]
fn reads_2b2t_style_header() {
    assert_eq!(
        parse_online_count("18.61 tps — 587 players online — 88 ping"),
        Some(587)
    );
}

#[test]
fn ignores_unrelated_digits() {
    assert_eq!(parse_online_count("Ping: 97   Rank: [Prime]"), None);
}

#[test]
fn handles_no_count_present() {
    assert_eq!(parse_online_count("welcome to the server"), None);
}

#[test]
fn strips_thousands_separator() {
    assert_eq!(parse_online_count("Online players: 3,921\n"), Some(3921));
    assert_eq!(
        parse_online_count("18.61 tps — 12,587 players online — 88 ping"),
        Some(12587)
    );
}

#[test]
fn positions_are_read_in_every_wording() {
    let p = QueuePattern::new().unwrap();
    assert_eq!(parse_queue_position(&p, "Position in queue: 328"), Some(328));
    assert_eq!(parse_queue_position(&p, "QUEUE POSITION = #12"), Some(12));
    assert_eq!(parse_queue_position(&p, "Position in queue: soon"), None);
    assert_eq!(parse_queue_position(&p, "Position in queue: 99999999999"), None);
    assert!(looks_like_queue_limbo(&p, "2b2t is FULL"));
    assert!(!looks_like_queue_limbo(&p, "hello"));
}

#[test]
fn a_probe_leaves_once() {
    let p = QueuePattern::new().unwrap();
    let mut leaving = false;
    let far = apply_queue_probe(&p, "Position in queue: 50", 10, &mut leaving);
    assert_eq!(far, ProbeStep::Position { position: 50, leave: false });
    let near = apply_queue_probe(&p, "Position in queue: 9", 10, &mut leaving);
    assert_eq!(near, ProbeStep::Position { position: 9, leave: true });
    let again = apply_queue_probe(&p, "Position in queue: 8", 10, &mut leaving);
    assert_eq!(again, ProbeStep::Position { position: 8, leave: false });
    assert_eq!(
        apply_queue_probe(&p, "Connected to the server.", 10, &mut leaving),
        ProbeStep::Nothing
    );
    let mut fresh = false;
    assert_eq!(
        apply_queue_probe(&p, "Connected to the server.", 10, &mut fresh),
        ProbeStep::Reached
    );
}

#[test]
fn sessions_open_and_close_in_turn() {
    let p = QueuePattern::new().unwrap();
    let mut limbo = false;
    assert_eq!(note_queue_limbo(&p, "Position in queue: 3", &mut limbo), LimboStep::Enter);
    assert_eq!(note_queue_limbo(&p, "Position in queue: 2", &mut limbo), LimboStep::Nothing);
    assert_eq!(note_queue_limbo(&p, "Connected to the server.", &mut limbo), LimboStep::Leave);
    assert_eq!(note_queue_limbo(&p, "Connected to the server.", &mut limbo), LimboStep::Nothing);
    assert!(suppress_public_feed(false, true, false, true));
    assert!(suppress_public_feed(false, false, true, false));
    assert!(!suppress_public_feed(false, false, true, true));
}

#[test]
fn counts_are_written_on_change_or_when_stale() {
    assert!(should_write_count(5, 6, Some(0)));
    assert!(!should_write_count(6, 6, Some(19_999)));
    assert!(should_write_count(6, 6, Some(20_000)));
    assert!(should_write_count(6, 6, None));
}
