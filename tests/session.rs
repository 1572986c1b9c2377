use sluice::cursor::CursorStore;
use sluice::log::{MessageLog, PublishCmd, StoredMessage};
use sluice::notify::NewDataNotification;
use sluice::publish::StatusCode;
use sluice::registry::{ConnectionRegistry, ConsumerGroupKey};
use sluice::session::{
    expect_init, FrameOutcome, UpstreamFrame, start_position, AckDecision, CloseReason, InitialPosition, SessionState, SubscribeError,
    SubscriptionInit, SubscriptionSession, FETCH_BATCH_LIMIT,
};

fn publish(log: &mut MessageLog, topic: &str, id: &str, payload: &[u8]) -> i64 {
    log.publish(
        PublishCmd {
            topic: topic.to_string(),
            message_id: id.to_string(),
            payload: Some(payload.to_vec()),
            attributes: None,
        },
        0,
    )
    .sequence
}

fn init(topic: &str, group: &str, position: InitialPosition) -> SubscriptionInit {
    SubscriptionInit {
        topic: topic.to_string(),
        consumer_group: group.to_string(),
        consumer_id: String::new(),
        initial_position: position,
    }
}

fn open(
    log: &MessageLog,
    cursors: &CursorStore,
    topic: &str,
    group: &str,
    position: InitialPosition,
) -> SubscriptionSession {
    let tid = log.topic_id_of(&topic.to_string());
    let stored = tid.and_then(|t| cursors.load(t, &group.to_string()));
    let max = tid.map(|t| log.max_seq(t)).unwrap_or(0);
    SubscriptionSession::open(init(topic, group, position), tid, stored, max).unwrap()
}

/// Runs delivery rounds until the session has nothing more to send.
fn drain(session: &mut SubscriptionSession, log: &MessageLog) -> Vec<StoredMessage> {
    let mut out = Vec::new();
    loop {
        let max = log.max_seq(session.topic_id());
        let Some(f) = session.plan_fetch(max) else {
            break;
        };
        let rows = log.fetch_range(session.topic_id(), f.after_seq, f.limit as usize);
        let n = rows.len();
        session.complete_fetch(&rows, n);
        out.extend(rows);
    }
    out
}

#[test]
fn basic_publish_subscribe_delivers_in_order() {
    let mut log = MessageLog::new();
    let cursors = CursorStore::new();
    publish(&mut log, "t", "seed", b"");
    let mut s = open(&log, &cursors, "t", "g", InitialPosition::Earliest);
    s.grant(10).unwrap();
    let _ = drain(&mut s, &log);
    let before = s.delivery_cursor();
    publish(&mut log, "t", "m1", b"a");
    publish(&mut log, "t", "m2", b"b");
    publish(&mut log, "t", "m3", b"c");
    let got = drain(&mut s, &log);
    let seqs: Vec<i64> = got.iter().map(|m| m.sequence).collect();
    let payloads: Vec<Vec<u8>> = got.iter().map(|m| m.payload.clone().unwrap()).collect();
    assert_eq!(seqs, vec![before + 1, before + 2, before + 3]);
    assert_eq!(payloads, vec![b"a".to_vec(), b"b".to_vec(), b"c".to_vec()]);
}

#[test]
fn fresh_topic_scenario_sequences_one_to_three() {
    let mut log = MessageLog::new();
    let cursors = CursorStore::new();
    assert_eq!(publish(&mut log, "t", "m1", b"a"), 1);
    assert_eq!(publish(&mut log, "t", "m2", b"b"), 2);
    assert_eq!(publish(&mut log, "t", "m3", b"c"), 3);
    let mut s = open(&log, &cursors, "t", "g", InitialPosition::Earliest);
    assert_eq!(s.grant(10), Ok(10));
    let got = drain(&mut s, &log);
    let seqs: Vec<i64> = got.iter().map(|m| m.sequence).collect();
    assert_eq!(seqs, vec![1, 2, 3]);
    assert_eq!(got[2].payload, Some(b"c".to_vec()));
    assert_eq!(s.available_credits(), 7);
}

#[test]
fn credit_gating_holds_back_until_granted() {
    let mut log = MessageLog::new();
    let cursors = CursorStore::new();
    for i in 0..5 {
        publish(&mut log, "t", &format!("m{}", i), b"x");
    }
    let mut s = open(&log, &cursors, "t", "g", InitialPosition::Earliest);
    s.grant(2).unwrap();
    let first = drain(&mut s, &log);
    assert_eq!(first.iter().map(|m| m.sequence).collect::<Vec<_>>(), vec![1, 2]);
    // No credits: nothing is planned, so the log is not read.
    assert_eq!(s.plan_fetch(log.max_seq(s.topic_id())), None);
    s.grant(3).unwrap();
    let rest = drain(&mut s, &log);
    assert_eq!(rest.iter().map(|m| m.sequence).collect::<Vec<_>>(), vec![3, 4, 5]);
}

#[test]
fn takeover_aborts_the_prior_stream() {
    let mut log = MessageLog::new();
    let cursors = CursorStore::new();
    publish(&mut log, "t", "m1", b"x");
    let tid = log.topic_id_of(&"t".to_string()).unwrap();
    let mut registry = ConnectionRegistry::new();
    let key = ConsumerGroupKey {
        topic_id: tid,
        consumer_group: "g".to_string(),
    };
    let mut s1 = open(&log, &cursors, "t", "g", InitialPosition::Earliest);
    let mut reg1 = registry.register(key.clone());
    let mut s2 = open(&log, &cursors, "t", "g", InitialPosition::Earliest);
    let reg2 = registry.register(key.clone());
    assert_eq!(reg2.displaced, Some(reg1.token));
    assert!(reg1.cancelled.try_recv().is_ok());
    s1.terminate(CloseReason::Takeover);
    assert_eq!(s1.state(), SessionState::Terminated);
    assert_eq!(s1.close_reason().unwrap().status(), Some(StatusCode::Aborted));
    s2.grant(5).unwrap();
    assert_eq!(drain(&mut s2, &log).len(), 1);
    // The stale holder cannot remove the new one.
    assert!(!registry.unregister(&key, reg1.token));
    assert_eq!(registry.active_count(), 1);
    assert!(registry.unregister(&key, reg2.token));
    assert_eq!(registry.active_count(), 0);
}

#[test]
fn unacked_delivery_is_redelivered_after_restart() {
    let mut log = MessageLog::new();
    let mut cursors = CursorStore::new();
    for i in 0..3 {
        publish(&mut log, "t", &format!("m{}", i), b"x");
    }
    let tid = log.topic_id_of(&"t".to_string()).unwrap();
    let mut s = open(&log, &cursors, "t", "g", InitialPosition::Earliest);
    s.grant(10).unwrap();
    let got = drain(&mut s, &log);
    assert_eq!(got.len(), 3);
    // Only the first is acknowledged; the others' acks are lost.
    match s.on_ack(&got[0].message_id) {
        AckDecision::Advance(seq) => cursors.advance(tid, "g".to_string(), seq),
        other => panic!("unexpected {:?}", other),
    }
    s.terminate(CloseReason::ClientClose);
    let mut again = open(&log, &cursors, "t", "g", InitialPosition::Earliest);
    again.grant(10).unwrap();
    let redelivered: Vec<i64> = drain(&mut again, &log).iter().map(|m| m.sequence).collect();
    assert_eq!(redelivered, vec![2, 3]);
}

#[test]
fn latest_starts_after_current_messages() {
    let mut log = MessageLog::new();
    let cursors = CursorStore::new();
    publish(&mut log, "t", "old", b"x");
    let mut s = open(&log, &cursors, "t", "g", InitialPosition::Latest);
    s.grant(10).unwrap();
    assert!(drain(&mut s, &log).is_empty());
    publish(&mut log, "t", "new", b"y");
    let got = drain(&mut s, &log);
    assert_eq!(got.len(), 1);
    assert_eq!(got[0].message_id, "new");
    assert_eq!(start_position(None, InitialPosition::Latest, 7), 7);
    assert_eq!(start_position(None, InitialPosition::Earliest, 7), 0);
    assert_eq!(start_position(Some(4), InitialPosition::Latest, 7), 4);
}

#[test]
fn open_rejects_unknown_topic_and_bad_init() {
    let err = SubscriptionSession::open(init("t", "g", InitialPosition::Earliest), None, None, 0)
        .err()
        .unwrap();
    assert_eq!(err, SubscribeError::TopicNotFound);
    assert_eq!(err.code(), StatusCode::NotFound);
    let err = SubscriptionSession::open(init("", "g", InitialPosition::Earliest), Some(1), None, 0)
        .err()
        .unwrap();
    assert_eq!(err, SubscribeError::InvalidInit);
    assert_eq!(err.code(), StatusCode::InvalidArgument);
}

#[test]
fn credit_overflow_terminates() {
    let log = {
        let mut l = MessageLog::new();
        publish(&mut l, "t", "m", b"x");
        l
    };
    let cursors = CursorStore::new();
    let mut s = open(&log, &cursors, "t", "g", InitialPosition::Earliest);
    assert_eq!(s.grant(u32::MAX - 1), Ok(u32::MAX - 1));
    assert_eq!(s.grant(2), Err(SubscribeError::CreditOverflow));
    assert_eq!(s.state(), SessionState::Terminated);
    assert_eq!(s.close_reason(), Some(CloseReason::CreditOverflow));
}

#[test]
fn failed_send_returns_unspent_credits_and_ends() {
    let mut log = MessageLog::new();
    let cursors = CursorStore::new();
    for i in 0..4 {
        publish(&mut log, "t", &format!("m{}", i), b"x");
    }
    let mut s = open(&log, &cursors, "t", "g", InitialPosition::Earliest);
    s.grant(100).unwrap();
    let f = s.plan_fetch(4).unwrap();
    assert_eq!(f.after_seq, 0);
    assert_eq!(f.limit, FETCH_BATCH_LIMIT);
    assert_eq!(s.available_credits(), 36);
    let rows = log.fetch_range(s.topic_id(), f.after_seq, f.limit as usize);
    assert!(!s.complete_fetch(&rows, 2));
    assert_eq!(s.delivery_cursor(), 2);
    assert_eq!(s.available_credits(), 98);
    assert_eq!(s.state(), SessionState::Terminated);
    assert_eq!(s.close_reason(), Some(CloseReason::ClientClose));
}

#[test]
fn acks_only_move_forward() {
    let mut log = MessageLog::new();
    let cursors = CursorStore::new();
    for i in 0..3 {
        publish(&mut log, "t", &format!("m{}", i), b"x");
    }
    let mut s = open(&log, &cursors, "t", "g", InitialPosition::Earliest);
    s.grant(10).unwrap();
    drain(&mut s, &log);
    assert_eq!(s.on_ack(&"m1".to_string()), AckDecision::Advance(2));
    assert_eq!(s.last_ack(), 2);
    assert_eq!(s.on_ack(&"m0".to_string()), AckDecision::Unknown);
    assert_eq!(s.ack_sequence(1), AckDecision::Ignore);
    assert_eq!(s.ack_sequence(9), AckDecision::Ignore);
    assert_eq!(s.ack_sequence(3), AckDecision::Advance(3));
    assert_eq!(s.last_ack(), 3);
}

#[test]
fn draining_stops_new_rounds() {
    let mut log = MessageLog::new();
    let cursors = CursorStore::new();
    publish(&mut log, "t", "m", b"x");
    let mut s = open(&log, &cursors, "t", "g", InitialPosition::Earliest);
    s.grant(5).unwrap();
    s.half_close();
    assert_eq!(s.state(), SessionState::Draining);
    assert_eq!(s.plan_fetch(1), None);
}

#[test]
fn session_wants_only_its_topic_beyond_cursor() {
    let mut log = MessageLog::new();
    let cursors = CursorStore::new();
    publish(&mut log, "t", "m", b"x");
    let s = open(&log, &cursors, "t", "g", InitialPosition::Latest);
    let tid = s.topic_id();
    assert!(s.wants(&NewDataNotification { topic_id: tid, max_seq: 2 }));
    assert!(!s.wants(&NewDataNotification { topic_id: tid, max_seq: 1 }));
    assert!(!s.wants(&NewDataNotification { topic_id: tid + 1, max_seq: 9 }));
}

#[test]
fn cursor_store_never_moves_back() {
    let mut cursors = CursorStore::new();
    assert_eq!(cursors.load(1, &"g".to_string()), None);
    cursors.advance(1, "g".to_string(), 5);
    cursors.advance(1, "g".to_string(), 3);
    cursors.advance(2, "g".to_string(), 1);
    assert_eq!(cursors.load(1, &"g".to_string()), Some(5));
    assert_eq!(cursors.load(2, &"g".to_string()), Some(1));
    assert_eq!(cursors.load(1, &"h".to_string()), None);
}

#[test]
fn frames_after_init_are_dispatched() {
    assert!(expect_init(Some(UpstreamFrame::Credit(1))).is_err());
    assert!(expect_init(None).is_err());
    let first = expect_init(Some(UpstreamFrame::Init(init("t", "g", InitialPosition::Earliest))));
    let first = first.unwrap();
    assert_eq!(first.topic, "t");
    let mut log = MessageLog::new();
    publish(&mut log, "t", "m0", b"x");
    let cursors = CursorStore::new();
    let mut s = open(&log, &cursors, "t", "g", InitialPosition::Earliest);
    assert_eq!(s.on_frame(UpstreamFrame::Credit(4)), FrameOutcome::Credited(4));
    drain(&mut s, &log);
    assert_eq!(
        s.on_frame(UpstreamFrame::Ack("m0".to_string())),
        FrameOutcome::Acked(AckDecision::Advance(1))
    );
    assert_eq!(
        s.on_frame(UpstreamFrame::Init(init("t", "g", InitialPosition::Latest))),
        FrameOutcome::Failed(SubscribeError::InvalidInit)
    );
    assert_eq!(s.state(), SessionState::Terminated);
    assert_eq!(
        s.close_reason().unwrap().status(),
        Some(StatusCode::InvalidArgument)
    );
}
