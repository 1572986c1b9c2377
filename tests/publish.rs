use std::collections::BTreeMap;

use sluice::log::{MessageLog, PublishAck, PublishCmd};
use sluice::{generate_message_id, now_millis, MessageIdGenerator};
use sluice::publish::publish_response;

use sluice::publish::{
    contains_bytes, map_writer_error, prepare_publish, validate_topic, PublishError,
    PublishRequest, StatusCode, WriterError, MAX_PAYLOAD_SIZE,
};

fn request(topic: &str, payload: Vec<u8>) -> PublishRequest {
    PublishRequest {
        topic: topic.to_string(),
        payload,
        attributes: BTreeMap::new(),
    }
}

#[test]
fn test_publish_empty_topic_fails() {
    let err = prepare_publish(request("", b"message".to_vec())).unwrap_err();
    assert_eq!(err, PublishError::EmptyTopic);
    assert_eq!(err.code(), StatusCode::InvalidArgument);
}

#[test]
fn test_publish_topic_too_long_fails() {
    let topic = "a".repeat(256);
    let err = prepare_publish(request(&topic, b"message".to_vec())).unwrap_err();
    assert_eq!(err, PublishError::TopicTooLong);
    assert_eq!(err.code(), StatusCode::InvalidArgument);
}

#[test]
fn test_publish_topic_invalid_chars_fails() {
    for topic in ["topic/name", "topic:name", "topic name", "topic@name"] {
        let err = prepare_publish(request(topic, b"message".to_vec())).unwrap_err();
        assert_eq!(err, PublishError::InvalidTopicChars, "topic '{}'", topic);
        assert_eq!(err.code(), StatusCode::InvalidArgument, "topic '{}'", topic);
    }
}

#[test]
fn test_publish_topic_valid_chars_accepted() {
    for topic in [
        "simple",
        "with-dashes",
        "with_underscores",
        "with.dots",
        "Mixed-Case_123.topic",
        "numbers123",
    ] {
        assert!(
            prepare_publish(request(topic, b"message".to_vec())).is_ok(),
            "topic '{}' should be accepted",
            topic
        );
    }
}

#[test]
fn validation_scenario_from_the_design() {
    assert_eq!(validate_topic(""), Err(PublishError::EmptyTopic));
    assert_eq!(validate_topic(&"t".repeat(256)), Err(PublishError::TopicTooLong));
    assert_eq!(validate_topic(&"t".repeat(255)), Ok(()));
    assert_eq!(validate_topic("a/b"), Err(PublishError::InvalidTopicChars));
    let err = prepare_publish(request("t", vec![0u8; MAX_PAYLOAD_SIZE + 1])).unwrap_err();
    assert_eq!(
        err,
        PublishError::PayloadTooLarge {
            size: MAX_PAYLOAD_SIZE + 1
        }
    );
    assert_eq!(err.code(), StatusCode::ResourceExhausted);
    assert!(prepare_publish(request("t", vec![0u8; MAX_PAYLOAD_SIZE])).is_ok());
}

#[test]
fn validation_checks_topic_before_payload() {
    let err = prepare_publish(request("a/b", vec![0u8; MAX_PAYLOAD_SIZE + 1])).unwrap_err();
    assert_eq!(err, PublishError::InvalidTopicChars);
}

#[test]
fn test_publish_with_attributes() {
    let mut attributes = BTreeMap::new();
    attributes.insert(
        "traceparent".to_string(),
        "00-0af7651916cd43dd8448eb211c80319c-b7ad6b7169203331-01".to_string(),
    );
    attributes.insert("custom-header".to_string(), "custom-value".to_string());
    let prepared = prepare_publish(PublishRequest {
        topic: "attributed-topic".to_string(),
        payload: b"message with attributes".to_vec(),
        attributes,
    })
    .unwrap();
    assert_eq!(prepared.topic, "attributed-topic");
    assert_eq!(prepared.payload, Some(b"message with attributes".to_vec()));
    assert_eq!(
        prepared.attributes,
        Some(
            "{\"custom-header\":\"custom-value\",\"traceparent\":\"00-0af7651916cd43dd8448eb211c80319c-b7ad6b7169203331-01\"}"
                .to_string()
        )
    );
    let mut ids = MessageIdGenerator::new();
    let mut log = MessageLog::new();
    let ack = log.publish(
        PublishCmd {
            topic: prepared.topic,
            message_id: generate_message_id(&mut ids),
            payload: prepared.payload,
            attributes: prepared.attributes,
        },
        now_millis(),
    );
    let response = publish_response(ack);
    assert!(!response.message_id.is_empty());
    assert_eq!(response.sequence, 1);
}

#[test]
fn empty_payload_and_attributes_are_absent() {
    let prepared = prepare_publish(request("t", Vec::new())).unwrap();
    assert_eq!(prepared.payload, None);
    assert_eq!(prepared.attributes, None);
}

#[test]
fn writer_errors_map_to_statuses() {
    assert_eq!(
        map_writer_error(WriterError::ChannelClosed),
        PublishError::ShuttingDown
    );
    assert_eq!(
        map_writer_error(WriterError::ThreadPanic).code(),
        StatusCode::Internal
    );
    let full = map_writer_error(WriterError::Database("database or disk is full".to_string()));
    assert_eq!(
        full,
        PublishError::Storage("database or disk is full".to_string())
    );
    assert_eq!(full.code(), StatusCode::Unavailable);
    let other = map_writer_error(WriterError::Database("constraint failed".to_string()));
    assert_eq!(
        other,
        PublishError::Database("constraint failed".to_string())
    );
    assert_eq!(other.code(), StatusCode::Internal);
}

#[test]
fn byte_search_finds_substrings() {
    assert!(contains_bytes(b"no disk left", b"disk"));
    assert!(contains_bytes(b"full", b"full"));
    assert!(!contains_bytes(b"ful", b"full"));
    assert!(contains_bytes(b"abc", b""));
    assert!(!contains_bytes(b"dis k", b"disk"));
}

#[test]
fn response_carries_the_ack() {
    let r = publish_response(PublishAck {
        topic_id: 3,
        message_id: "id-1".to_string(),
        sequence: 42,
        timestamp: 1_704_067_200_001,
    });
    assert_eq!(r.message_id, "id-1");
    assert_eq!(r.sequence, 42u64);
    assert_eq!(r.timestamp, 1_704_067_200_001);
}
