use sluice::{generate_message_id, MessageIdGenerator};
use sluice::log::{MessageLog, PublishCmd, StoredMessage, TopicRecord};
use sluice::recovery::RecoveryError;

fn cmd(topic: &str, id: String) -> PublishCmd {
    PublishCmd {
        topic: topic.to_string(),
        message_id: id,
        payload: Some(b"p".to_vec()),
        attributes: Some("{\"k\":\"v\"}".to_string()),
    }
}

fn row(topic_id: i64, sequence: i64) -> StoredMessage {
    StoredMessage {
        topic_id,
        sequence,
        message_id: format!("{}-{}", topic_id, sequence),
        payload: None,
        attributes: None,
        timestamp: 0,
    }
}

fn topic(id: i64, name: &str) -> TopicRecord {
    TopicRecord {
        id,
        name: name.to_string(),
        created_at: 5,
    }
}

#[test]
fn crash_recovery_returns_all_messages_unchanged() {
    let mut log = MessageLog::new();
    let mut acks = Vec::new();
    let mut ids = MessageIdGenerator::new();
    for i in 0..100 {
        acks.push(log.publish(cmd("t", generate_message_id(&mut ids)), 1_000 + i));
    }
    let (topics, rows) = log.snapshot();
    // The process dies here; only the persisted state survives.
    drop(log);
    let restored = MessageLog::restore(topics, rows).unwrap();
    let tid = restored.topic_id_of(&"t".to_string()).unwrap();
    let back = restored.fetch_range(tid, 0, 1_000);
    assert_eq!(back.len(), 100);
    for (ack, msg) in acks.iter().zip(back.iter()) {
        assert_eq!(ack.message_id, msg.message_id);
        assert_eq!(ack.sequence, msg.sequence);
        assert_eq!(ack.timestamp, msg.timestamp);
    }
}

#[test]
fn restore_keeps_topics_and_interleaved_rows() {
    let mut log = MessageLog::new();
    log.publish(cmd("b", "1".to_string()), 1);
    log.publish(cmd("a", "2".to_string()), 2);
    log.publish(cmd("b", "3".to_string()), 3);
    let (topics, rows) = log.snapshot();
    assert_eq!(topics.len(), 2);
    assert_eq!(rows.len(), 3);
    // Rows may come back in any order that keeps each topic's own order.
    let mixed = vec![rows[2].clone(), rows[0].clone(), rows[1].clone()];
    let restored = MessageLog::restore(topics, mixed).unwrap();
    assert_eq!(restored.max_seq(1), 2);
    assert_eq!(restored.max_seq(2), 1);
    let names: Vec<String> = restored.list_topics().into_iter().map(|t| t.0).collect();
    assert_eq!(names, vec!["a", "b"]);
}

#[test]
fn restore_refuses_broken_state() {
    assert_eq!(
        MessageLog::restore(vec![topic(2, "a")], vec![]).err(),
        Some(RecoveryError::TopicOutOfPlace { index: 0 })
    );
    assert_eq!(
        MessageLog::restore(vec![topic(1, "a/b")], vec![]).err(),
        Some(RecoveryError::InvalidTopicName { index: 0 })
    );
    assert_eq!(
        MessageLog::restore(vec![topic(1, "a"), topic(2, "a")], vec![]).err(),
        Some(RecoveryError::DuplicateTopic { index: 1 })
    );
    assert_eq!(
        MessageLog::restore(vec![topic(1, "a")], vec![row(2, 1)]).err(),
        Some(RecoveryError::UnknownTopic { row: 0 })
    );
    assert_eq!(
        MessageLog::restore(vec![topic(1, "a")], vec![row(1, 1), row(1, 3)]).err(),
        Some(RecoveryError::SequenceGap { row: 1 })
    );
    assert!(MessageLog::restore(vec![topic(1, "a")], vec![row(1, 1), row(1, 2)]).is_ok());
}

#[test]
fn publishing_after_restore_continues_the_sequence() {
    let mut log = MessageLog::restore(vec![topic(1, "a")], vec![row(1, 1), row(1, 2)]).unwrap();
    let ack = log.publish(cmd("a", "next".to_string()), 9);
    assert_eq!(ack.sequence, 3);
    let new_topic = log.publish(cmd("z", "first".to_string()), 9);
    assert_eq!((new_topic.topic_id, new_topic.sequence), (2, 1));
}
