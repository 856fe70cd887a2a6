//! Rows of the database and what they are called.
use mc_logger::config::{body_url_for_name, head_url_for_name};
use mc_logger::formatting::{
    clamp, duration_hm, escape_md, fmt, footer, join_lines, one_line, table, time_ago, Column,
    Limits,
};
use mc_logger::heads::looks_like_username;
use mc_logger::models::{canonical_route_kind, presence_kind, EventKind, LeaderMetric, RouteKind};
use mc_logger::pattern::escape;

#[test]
fn route_kinds_accept_compact_and_long_database_values() {
    assert_eq!(canonical_route_kind("c"), Some("chat"));
    assert_eq!(canonical_route_kind("whisper"), Some("whisper"));
    assert_eq!(canonical_route_kind(" J "), Some("join"));
    assert_eq!(canonical_route_kind("unknown"), None);
}

#[test]
fn event_filters_are_normalized_and_deduplicated() {
    assert_eq!(
        EventKind::filter_codes(&vec![
            "chat".into(),
            "c".into(),
            "ADVANCEMENT".into(),
            "goals".into(),
        ]),
        vec!["a", "c"]
    );
}

#[test]
fn presence_only_accepts_join_and_leave_events() {
    assert_eq!(presence_kind("join"), Some("join"));
    assert_eq!(presence_kind("l"), Some("leave"));
    assert_eq!(presence_kind("snapshot"), None);
}

#[test]
fn only_real_username_shapes_are_worth_a_lookup() {
    assert!(looks_like_username("Notch"));
    assert!(looks_like_username("a_long_name_16ch"));
    assert!(!looks_like_username(""));
    assert!(!looks_like_username("this_name_is_far_too_long"));
    // Bedrock prefixes and decorated labels cannot resolve to a player row.
    assert!(!looks_like_username(".BedrockGuy"));
    assert!(!looks_like_username("[APE] 6Builders6Tools"));
}

#[test]
fn renders_are_addressed_by_name_in_each_services_own_format() {
    assert_eq!(
        head_url_for_name("Notch", 64),
        "https://crafthead.net/helm/Notch/64"
    );
    assert_eq!(
        body_url_for_name("Notch"),
        "https://mc-heads.net/body/Notch"
    );
}

#[test]
fn duration_hm_drops_leading_zero_units() {
    assert_eq!(duration_hm(0), "0m");
    assert_eq!(duration_hm(20_000), "0m");
    assert_eq!(duration_hm(90_000), "2m");
    assert_eq!(duration_hm(3_600_000), "1h 0m");
    assert_eq!(duration_hm(3_660_000), "1h 1m");
    assert_eq!(duration_hm(90_000_000), "1d 1h 0m");
}

#[test]
fn kinds_and_metrics_read_back() {
    for i in 0..7 {
        let name = RouteKind::at(i).as_str();
        assert_eq!(canonical_route_kind(name), Some(name));
    }
    for name in ["kills", "deaths", "messages", "joins", "playtime", "kd"] {
        assert_eq!(LeaderMetric::parse(name).as_str(), name);
    }
    assert_eq!(EventKind::parse("d"), EventKind::Death);
    assert_eq!(EventKind::parse("kill").as_str(), "kill");
}

#[test]
fn numbers_and_texts_are_put_in_shape() {
    assert_eq!(fmt(1_234_567), "1,234,567");
    assert_eq!(fmt(-1_000), "-1,000");
    assert_eq!(fmt(999), "999");
    assert_eq!(clamp("short", 10), "short");
    assert_eq!(clamp("a long text", 6).chars().count(), 6);
    assert_eq!(escape_md("a*b_c"), "a\\*b\\_c");
    assert_eq!(time_ago(1_500_000), "<t:1:R>");
    assert_eq!(footer("Server", &vec![String::new(), "x".to_string()]), "Server  ·  x");
}

#[test]
fn lines_that_do_not_fit_are_counted() {
    let many: Vec<String> = (0..1000).map(|i| format!("line number {i}")).collect();
    let joined = join_lines(&many, Limits::DESCRIPTION);
    let shown = joined.lines().count() - 1;
    assert!(joined.ends_with(&format!("…and {} more", 1000 - shown)));
    assert!(joined.starts_with("line number 0\n"));
    let few = vec!["a".to_string(), "b".to_string()];
    assert_eq!(join_lines(&few, Limits::DESCRIPTION), "a\nb");
}

#[test]
fn tables_line_up() {
    let columns = vec![Column::new("#").right(), Column::new("player")];
    let rows = vec![
        vec!["1".to_string(), "Notch".to_string()],
        vec!["10".to_string(), "Al".to_string()],
    ];
    let shown = table(&columns, &rows, Limits::FIELD);
    assert_eq!(shown, "```\n #  PLAYER\n 1  Notch\n10  Al\n```");
}

#[test]
fn texts_are_put_on_one_line() {
    for (raw, line) in [
        ("  a \t b\n\nc ", "a b c"),
        ("one", "one"),
        ("\u{a0}x\u{3000}y", "x y"),
        (" \n ", ""),
        ("", ""),
    ] {
        let once = one_line(raw);
        assert_eq!(once, line);
        assert_eq!(one_line(&once), once);
        assert!(raw.split_whitespace().eq(once.split_whitespace()));
    }
}

#[test]
fn texts_match_themselves_as_patterns() {
    let raw = r"a.b+c*d?e(f)g|h[i]j{k}l^m$n#o&p-q~r\s é_%";
    assert_eq!(escape(raw), regex::escape(raw));
    assert_eq!(escape("1.5$"), r"1\.5\$");
}
