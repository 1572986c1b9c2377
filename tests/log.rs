use sluice::log::{settle_batch, MessageLog, PublishAck, PublishCmd};
use sluice::publish::WriterError;

fn cmd(topic: &str, id: &str, payload: &[u8]) -> PublishCmd {
    PublishCmd {
        topic: topic.to_string(),
        message_id: id.to_string(),
        payload: if payload.is_empty() {
            None
        } else {
            Some(payload.to_vec())
        },
        attributes: None,
    }
}

#[test]
fn test_publish_creates_topic_automatically() {
    let mut log = MessageLog::new();
    let first = log.publish(cmd("brand-new-topic", "m1", b"first message"), 10);
    assert_eq!(first.sequence, 1, "new topic should start at sequence 1");
    let second = log.publish(cmd("brand-new-topic", "m2", b"second message"), 11);
    assert_eq!(second.sequence, 2, "second message should be sequence 2");
    assert_eq!(first.topic_id, second.topic_id);
}

#[test]
fn test_publish_sequence_increments() {
    let mut log = MessageLog::new();
    let a = log.publish(cmd("seq-topic", "1", b"msg1"), 1);
    let b = log.publish(cmd("seq-topic", "2", b"msg2"), 2);
    let c = log.publish(cmd("seq-topic", "3", b"msg3"), 3);
    assert_eq!(a.sequence, 1);
    assert_eq!(b.sequence, 2);
    assert_eq!(c.sequence, 3);
    assert!(a.sequence < b.sequence);
    assert!(b.sequence < c.sequence);
}

#[test]
fn test_separate_topics_have_independent_sequences() {
    let mut log = MessageLog::new();
    let a1 = log.publish(cmd("topic-a", "a1", b"x"), 1);
    let b1 = log.publish(cmd("topic-b", "b1", b"x"), 1);
    let a2 = log.publish(cmd("topic-a", "a2", b"x"), 1);
    assert_eq!(a1.sequence, 1);
    assert_eq!(b1.sequence, 1);
    assert_eq!(a2.sequence, 2);
    assert_ne!(a1.topic_id, b1.topic_id);
}

#[test]
fn test_list_topics_returns_sorted_topics() {
    let mut log = MessageLog::new();
    log.publish(cmd("b-topic", "1", b"x"), 100);
    log.publish(cmd("a-topic", "2", b"x"), 200);
    let topics = log.list_topics();
    let names: Vec<&str> = topics.iter().map(|t| t.0.as_str()).collect();
    assert_eq!(names, vec!["a-topic", "b-topic"]);
    assert_eq!(topics[0].1, 200);
    assert_eq!(topics[1].1, 100);
}

#[test]
fn list_topics_orders_by_bytes() {
    let mut log = MessageLog::new();
    for (i, name) in ["b", "a.b", "A", "a", "ab", "a-b", "_"].iter().enumerate() {
        log.publish(cmd(name, &i.to_string(), b"x"), i as i64);
    }
    let names: Vec<String> = log.list_topics().into_iter().map(|t| t.0).collect();
    assert_eq!(names, vec!["A", "_", "a", "a-b", "a.b", "ab", "b"]);
}

#[test]
fn batch_commit_assigns_in_order_and_notifies_once_per_topic() {
    let mut log = MessageLog::new();
    log.publish(cmd("x", "x0", b"0"), 1);
    let batch = vec![
        cmd("x", "x1", b"1"),
        cmd("y", "y1", b"1"),
        cmd("x", "x2", b"2"),
        cmd("y", "y2", b"2"),
        cmd("x", "x3", b"3"),
    ];
    assert!(log.has_room_for(batch.len()));
    let out = log.publish_batch(&batch, 50);
    let seqs: Vec<(i64, i64)> = out.acks.iter().map(|a| (a.topic_id, a.sequence)).collect();
    assert_eq!(seqs, vec![(1, 2), (2, 1), (1, 3), (2, 2), (1, 4)]);
    assert!(out.acks.iter().all(|a| a.timestamp == 50));
    assert_eq!(out.acks[2].message_id, "x2");
    let notes: Vec<(i64, i64)> = out
        .notifications
        .iter()
        .map(|n| (n.topic_id, n.max_seq))
        .collect();
    assert_eq!(notes, vec![(1, 4), (2, 2)]);
}

#[test]
fn fetch_range_returns_consecutive_sequences() {
    let mut log = MessageLog::new();
    for i in 0..10 {
        log.publish(cmd("t", &format!("m{}", i), &[i as u8 + 1]), i);
    }
    let tid = log.topic_id_of(&"t".to_string()).unwrap();
    assert_eq!(log.max_seq(tid), 10);
    let rows = log.fetch_range(tid, 3, 4);
    let seqs: Vec<i64> = rows.iter().map(|m| m.sequence).collect();
    assert_eq!(seqs, vec![4, 5, 6, 7]);
    assert_eq!(rows[0].message_id, "m3");
    assert_eq!(rows[0].payload, Some(vec![4]));
    assert_eq!(log.fetch_range(tid, 8, 64).len(), 2);
    assert_eq!(log.fetch_range(tid, 10, 64).len(), 0);
    assert_eq!(log.fetch_range(tid, -5, 2)[0].sequence, 1);
    assert!(log.fetch_range(tid + 1, 0, 10).is_empty());
    assert_eq!(log.max_seq(tid + 1), 0);
    assert_eq!(log.topic_id_of(&"nope".to_string()), None);
}

#[test]
fn sequences_are_dense_after_many_publishes() {
    let mut log = MessageLog::new();
    for i in 0..100 {
        let topic = if i % 3 == 0 { "p" } else { "q" };
        log.publish(cmd(topic, &format!("{}", i), b"z"), i);
    }
    for name in ["p", "q"] {
        let tid = log.topic_id_of(&name.to_string()).unwrap();
        let rows = log.fetch_range(tid, 0, 1000);
        assert_eq!(rows.len() as i64, log.max_seq(tid));
        for (i, row) in rows.iter().enumerate() {
            assert_eq!(row.sequence, i as i64 + 1);
            assert_eq!(row.topic_id, tid);
        }
    }
}

#[test]
fn test_publish_returns_valid_response() {
    let mut log = MessageLog::new();
    let mut ids = sluice::MessageIdGenerator::new();
    let id = sluice::generate_message_id(&mut ids);
    let ack = log.publish(cmd("test-topic", &id, b"hello world"), sluice::now_millis());
    let response = sluice::publish::publish_response(ack);
    assert!(!response.message_id.is_empty(), "message_id should not be empty");
    assert_eq!(response.message_id.len(), 36, "message_id should be valid UUID");
    assert_eq!(response.sequence, 1, "first message should have sequence 1");
    assert!(
        response.timestamp > 1704067200000,
        "timestamp should be after 2024: {}",
        response.timestamp
    );
}

#[test]
fn failed_commit_fails_every_producer() {
    let acks = vec![
        PublishAck { topic_id: 1, message_id: "a".to_string(), sequence: 1, timestamp: 5 },
        PublishAck { topic_id: 1, message_id: "b".to_string(), sequence: 2, timestamp: 5 },
    ];
    let failed = settle_batch(acks.clone(), Err("disk I/O error".to_string()));
    assert!(failed.roll_back);
    assert_eq!(failed.replies.len(), 2);
    for r in &failed.replies {
        assert!(matches!(r, Err(WriterError::Database(m)) if m == "disk I/O error"));
    }
    let ok = settle_batch(acks, Ok(()));
    assert!(!ok.roll_back);
    assert_eq!(ok.replies[1].as_ref().unwrap().sequence, 2);
}

#[test]
fn rollback_forgets_a_failed_batch() {
    let mut log = MessageLog::new();
    log.publish(cmd("t", "m1", b"x"), 1);
    let mark = log.mark();
    let batch = vec![cmd("t", "m2", b"y"), cmd("new", "n1", b"z")];
    log.publish_batch(&batch, 2);
    assert_eq!(log.topic_count(), 2);
    log.rollback(&mark);
    assert_eq!(log.topic_count(), 1);
    assert_eq!(log.max_seq(1), 1);
    let again = log.publish(cmd("t", "m2", b"y"), 3);
    assert_eq!(again.sequence, 2);
    assert_eq!(log.topic_id_of(&"new".to_string()), None);
}
