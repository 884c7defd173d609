use confer::topics::{topic_stats, topic_status, BoardRow, TopicMsg};

fn msg(id: &str, topic: Option<&str>, ts: &str) -> TopicMsg {
    TopicMsg { id: id.into(), topic: topic.map(String::from), ts: ts.into() }
}

#[test]
fn topics_aggregate_messages_and_requests() {
    let ms = vec![
        msg("1", Some("release"), "2024-01-02"),
        msg("2", Some("api"), "2024-01-01"),
        msg("3", Some("release"), "2024-01-01"),
        msg("4", None, "2024-01-05"),
        msg("5", Some("release"), "2024-01-03"),
    ];
    let rows = vec![
        BoardRow { id: "1".into(), open: true, stale: false },
        BoardRow { id: "3".into(), open: false, stale: true },
        BoardRow { id: "4".into(), open: true, stale: true },
        BoardRow { id: "9".into(), open: true, stale: true },
    ];
    let out = topic_stats(&ms, &rows);
    assert_eq!(out.len(), 2);
    assert_eq!(out[0].0, "api");
    assert_eq!(out[0].1.messages, 1);
    assert_eq!(out[0].1.requests, 0);
    assert_eq!(topic_status(&out[0].1), "discussion");
    assert_eq!(out[1].0, "release");
    assert_eq!(out[1].1.messages, 3);
    assert_eq!(out[1].1.last_ts, "2024-01-03");
    assert_eq!(out[1].1.requests, 2);
    assert_eq!(out[1].1.open, 1);
    assert!(out[1].1.stale);
    assert_eq!(topic_status(&out[1].1), "open");
}

#[test]
fn closed_topic_and_last_message_wins_for_an_id() {
    let ms = vec![msg("1", Some("a"), "t1"), msg("1", Some("b"), "t2")];
    let rows = vec![BoardRow { id: "1".into(), open: false, stale: false }];
    let out = topic_stats(&ms, &rows);
    assert_eq!(out[0].1.requests, 0);
    assert_eq!(out[1].1.requests, 1);
    assert_eq!(topic_status(&out[1].1), "closed");
}
