//! What the gateway and its clients say to each other.
use mc_logger::stream::{
    encode_line, producer_step, retry_delay_secs, status_reply, token_from_env, ChatEvent,
    ConsumerStep, Frame, GatewayStatus, Hello, PlayerEvent, ProducerStep, ProtocolError, Role, Say,
    ServerStatus, StatusError, StreamEvent, StreamSubscriber, SubscribeOptions,
};

fn chat(seq: u64) -> StreamEvent {
    StreamEvent::Chat(ChatEvent {
        seq: Some(seq),
        id: None,
        ts: 0,
        kind: "chat".into(),
        sender_name: Some("Notch".into()),
        sender_label: None,
        subject_name: None,
        killer_name: None,
        content: Some("hi".into()),
        plain_text: "<Notch> hi".into(),
        ansi: None,
        server_host: None,
    })
}

#[test]
fn names_covers_killer_for_player_filters() {
    let event = StreamEvent::Chat(ChatEvent {
        killer_name: Some("Herobrine".into()),
        ..match chat(1) {
            StreamEvent::Chat(c) => c,
            _ => unreachable!(),
        }
    });
    assert!(event.names().contains(&"Herobrine"));
    assert!(event.names().contains(&"Notch"));
}

#[test]
fn health_reads_the_common_failure_first() {
    let mut s = ServerStatus {
        said: 0,
        clients: Vec::new(),
        server: "ninebninet".into(),
        producers: 0,
        consumers: 1,
        buffered: 0,
        events_in: 0,
        events_out: 0,
        dropped: 0,
        ring_evicted: 0,
        malformed: 0,
        last_seq: 0,
        last_event_secs: Some(3),
        allowed: true,
    };
    assert_eq!(s.health(), "no logger");
    s.producers = 1;
    s.consumers = 0;
    assert_eq!(s.health(), "no reader");
    s.consumers = 1;
    assert_eq!(s.health(), "live");
    s.last_event_secs = Some(4_000);
    assert_eq!(s.health(), "quiet");
}

fn options() -> SubscribeOptions {
    SubscribeOptions { replay: 50, since: None, token: None, client: None }
}

#[test]
fn a_consumer_resumes_where_it_left_off() {
    let mut s = StreamSubscriber::new(&options());
    assert_eq!(s.hello("k", None, &options()).since_seq, None);
    assert!(matches!(s.take(0, Frame::from(chat(7))), ConsumerStep::Deliver(_)));
    assert!(s.connected);
    s.lost();
    assert!(!s.connected);
    let hello = s.hello("k", Some("t".to_string()), &options());
    assert_eq!(hello.since_seq, Some(7));
    assert_eq!(hello.role, Role::Consumer);
    assert_eq!(hello.token.as_deref(), Some("t"));
    // A gateway that is behind is another one.
    let ready = mc_logger::stream::Ready {
        v: 2,
        role: Role::Consumer,
        server: "k".to_string(),
        buffered: 0,
        last_seq: 3,
        gateway: "g".to_string(),
    };
    assert!(matches!(s.take(7, Frame::Ready(ready)), ConsumerStep::Accepted(_)));
    assert_eq!(s.last_seq, 0);
}

#[test]
fn rejections_wait_longer() {
    let refused = ProtocolError::new("unauthorized", "no".to_string());
    assert!(refused.is_fatal());
    assert!(!ProtocolError::new("too_many_connections", String::new()).is_fatal());
    assert!(matches!(producer_step(Frame::Error(refused)), ProducerStep::Rejected(_)));
    assert!(retry_delay_secs(true) > retry_delay_secs(false));
    let say = Say::new("hello".to_string(), None);
    assert!(matches!(producer_step(Frame::Say(say)), ProducerStep::Say(_)));
}

#[test]
fn frames_carry_their_events() {
    let event = Frame::from(chat(3)).into_event().unwrap();
    assert_eq!(event.seq(), Some(3));
    assert_eq!(event.text(), "<Notch> hi");
    assert!(Frame::Unknown.into_event().is_none());
    let mut join = StreamEvent::PlayerEvent(PlayerEvent {
        seq: None,
        ts: 5,
        event_type: "join".to_string(),
        source: "chat".to_string(),
        player_name: "Alex".to_string(),
        ansi: None,
        server_host: None,
    });
    join.set_seq(9);
    assert_eq!(join.seq(), Some(9));
    assert_eq!(join.player(), Some("Alex"));
    assert_eq!(join.ts(), 5);
}

#[test]
fn lines_end_in_a_newline() {
    assert_eq!(encode_line(b"{}".to_vec()), b"{}\n".to_vec());
}

#[test]
fn blank_tokens_are_none() {
    assert_eq!(token_from_env(&Some("  ".to_string())), None);
    assert_eq!(token_from_env(&Some(" abc ".to_string())).as_deref(), Some("abc"));
    assert_eq!(token_from_env(&None), None);
}

#[test]
fn status_answers_are_told_apart() {
    let status = GatewayStatus {
        gateway: "g".to_string(),
        listen: "l".to_string(),
        uptime_secs: 1,
        auth: false,
        buffer_cap: 10,
        connections: 0,
        allowed_keys: Vec::new(),
        servers: Vec::new(),
    };
    assert!(status_reply(Frame::Status(status)).is_ok());
    let refused = Frame::Error(ProtocolError::new("unauthorized", String::new()));
    assert!(matches!(status_reply(refused), Err(StatusError::Rejected(_))));
    assert!(matches!(status_reply(Frame::Unknown), Err(StatusError::Unexpected)));
    assert_eq!(Hello::status(None).role, Role::Status);
}
