use mqtt_broker::ack::{ack_step, qos1_start, qos2_start, AckAction, AckEvent, AckPacket, AckState, AckType};
use mqtt_broker::exclusive::{
    check_packet_size, delivery_outcome, exclusive_commit, exclusive_group_id, properties_for, DeliveryError,
};
use mqtt_broker::model::{build_publish, min_qos, Message, MqttProtocol, Publish, QoS, RetainForwardRule, Subscriber};
use mqtt_broker::pkid::PkidLedger;
use mqtt_broker::share_leader::{calc_record_num, DeliveryOutcome, Pick, RecordFate, ShareCursor};
use mqtt_broker::storage::TopicLog;

fn message(client_id: &str, payload: &str, qos: QoS) -> Message {
    Message {
        client_id: client_id.to_string(),
        payload: payload.as_bytes().to_vec(),
        retain: false,
        qos,
        format_indicator: None,
        expiry_interval: None,
        response_topic: None,
        correlation_data: None,
        user_properties: Vec::new(),
        content_type: None,
    }
}

fn subscriber(client_id: &str, path: &str, qos: QoS) -> Subscriber {
    Subscriber {
        protocol: MqttProtocol::Mqtt5,
        client_id: client_id.to_string(),
        sub_path: path.to_string(),
        topic_id: path.to_string(),
        topic_name: path.to_string(),
        group_name: None,
        qos,
        nolocal: false,
        preserve_retain: false,
        retain_forward_rule: RetainForwardRule::Never,
        subscription_identifier: None,
    }
}

#[test]
fn min_qos_picks_lower_level() {
    assert_eq!(min_qos(QoS::ExactlyOnce, QoS::AtLeastOnce), QoS::AtLeastOnce);
    assert_eq!(min_qos(QoS::AtMostOnce, QoS::ExactlyOnce), QoS::AtMostOnce);
    assert_eq!(min_qos(QoS::ExactlyOnce, QoS::ExactlyOnce), QoS::ExactlyOnce);
}

#[test]
fn build_publish_caps_qos_by_cluster_subscription_and_message() {
    let sub = subscriber("c1", "t/a", QoS::ExactlyOnce);
    let msg = message("p", "x", QoS::ExactlyOnce);
    let (p, _) = build_publish(QoS::AtLeastOnce, sub, "t/a".to_string(), msg).unwrap();
    assert_eq!(p.qos, QoS::AtLeastOnce);

    let sub = subscriber("c1", "t/a", QoS::AtMostOnce);
    let msg = message("p", "x", QoS::ExactlyOnce);
    let (p, _) = build_publish(QoS::ExactlyOnce, sub, "t/a".to_string(), msg).unwrap();
    assert_eq!(p.qos, QoS::AtMostOnce);

    let sub = subscriber("c1", "t/a", QoS::ExactlyOnce);
    let msg = message("p", "x", QoS::AtLeastOnce);
    let (p, _) = build_publish(QoS::ExactlyOnce, sub, "t/a".to_string(), msg).unwrap();
    assert_eq!(p.qos, QoS::AtLeastOnce);
}

#[test]
fn build_publish_drops_own_message_under_nolocal() {
    let mut sub = subscriber("c1", "t/a", QoS::AtLeastOnce);
    sub.nolocal = true;
    assert!(build_publish(QoS::ExactlyOnce, sub.clone(), "t/a".to_string(), message("c1", "x", QoS::AtLeastOnce)).is_none());
    assert!(build_publish(QoS::ExactlyOnce, sub, "t/a".to_string(), message("c2", "x", QoS::AtLeastOnce)).is_some());
}

#[test]
fn build_publish_retain_and_identifiers() {
    let mut sub = subscriber("c1", "t/a", QoS::AtLeastOnce);
    sub.subscription_identifier = Some(7);
    let mut msg = message("p", "x", QoS::AtLeastOnce);
    msg.retain = true;
    msg.content_type = Some("text/plain".to_string());
    let (p, props) = build_publish(QoS::ExactlyOnce, sub.clone(), "t/a".to_string(), msg.clone()).unwrap();
    assert!(!p.retain);
    assert_eq!(props.subscription_identifiers, vec![7]);
    assert_eq!(props.content_type, Some("text/plain".to_string()));
    assert_eq!(props.topic_alias, None);
    sub.preserve_retain = true;
    let (p, _) = build_publish(QoS::ExactlyOnce, sub, "t/a".to_string(), msg).unwrap();
    assert!(p.retain);
    assert_eq!(p.pkid, 0);
    assert!(!p.dup);
}

#[test]
fn qos0_exclusive_delivery_commits_offset() {
    let mut log = TopicLog::new();
    let offset = log.append(b"hi".to_vec());
    assert_eq!(offset, 1);
    let group = exclusive_group_id(&"C1".to_string(), &"t/a".to_string());
    assert_eq!(group, "exclusive_C1_t/a");
    let records = log.read(&group, 5);
    assert_eq!(records.len(), 1);
    assert_eq!(records[0].offset, 1);
    let msg = message("publisher", "hi", QoS::AtMostOnce);
    let sub = subscriber("C1", "t/a", QoS::AtMostOnce);
    let (p, _) = build_publish(QoS::ExactlyOnce, sub, "t/a".to_string(), msg).unwrap();
    assert_eq!(
        p,
        Publish { dup: false, qos: QoS::AtMostOnce, pkid: 0, retain: false, topic: "t/a".to_string(), payload: b"hi".to_vec() }
    );
    let commit = exclusive_commit(DeliveryOutcome::Delivered, records[0].offset).unwrap();
    log.commit_group_offset(group.clone(), commit);
    assert_eq!(log.committed_offset(&group), 1);
    assert!(log.read(&group, 5).is_empty());
}

#[test]
fn qos1_timeout_fails_without_commit_and_frees_pkid() {
    let mut log = TopicLog::new();
    log.append(b"m".to_vec());
    let group = "exclusive_C1_t".to_string();
    let mut ledger = PkidLedger::new();
    let pkid = ledger.allocate(100).unwrap();
    assert_eq!(pkid, 1);
    let state = qos1_start(pkid);
    let (state, action) = ack_step(state, AckEvent::Timeout, 0);
    assert_eq!(state, AckState::Finished);
    assert_eq!(action, AckAction::Failed);
    let outcome = delivery_outcome(action).unwrap();
    assert_eq!(outcome, DeliveryOutcome::Failed);
    assert_eq!(exclusive_commit(outcome, 1), None);
    assert!(ledger.release(pkid));
    assert_eq!(ledger.in_flight_count(), 0);
    assert_eq!(log.committed_offset(&group), 0);
}

#[test]
fn qos1_resends_then_acknowledged() {
    let state = qos1_start(9);
    let (state, action) = ack_step(state, AckEvent::Timeout, 2);
    assert_eq!(action, AckAction::ResendPublish);
    assert_eq!(state, AckState::AwaitPubAck { pkid: 9, resends: 1 });
    let (state, action) = ack_step(state, AckEvent::Ack(AckPacket { ack_type: AckType::PubAck, pkid: 8 }), 2);
    assert_eq!(action, AckAction::Wait);
    let (state, action) = ack_step(state, AckEvent::Ack(AckPacket { ack_type: AckType::PubAck, pkid: 9 }), 2);
    assert_eq!(action, AckAction::Delivered);
    assert_eq!(state, AckState::Finished);
}

#[test]
fn qos2_commits_on_pubrec_and_completes_on_pubcomp() {
    let state = qos2_start(4);
    let (state, action) = ack_step(state, AckEvent::Ack(AckPacket { ack_type: AckType::PubRec, pkid: 4 }), 1);
    assert_eq!(action, AckAction::CommitAndSendPubRel);
    assert_eq!(delivery_outcome(action), Some(DeliveryOutcome::Delivered));
    let (state, action) = ack_step(state, AckEvent::Timeout, 1);
    assert_eq!(action, AckAction::ResendPubRel);
    let (state2, action2) = ack_step(state, AckEvent::Timeout, 1);
    assert_eq!((state2, action2), (AckState::Finished, AckAction::Abandoned));
    let (state, action) = ack_step(state, AckEvent::Ack(AckPacket { ack_type: AckType::PubComp, pkid: 4 }), 1);
    assert_eq!((state, action), (AckState::Finished, AckAction::Completed));
    assert_eq!(delivery_outcome(action), None);
}

#[test]
fn qos2_missing_pubrec_fails() {
    let (state, action) = ack_step(qos2_start(3), AckEvent::Timeout, 5);
    assert_eq!((state, action), (AckState::Finished, AckAction::Failed));
    let (_, action) = ack_step(qos2_start(3), AckEvent::Stop, 5);
    assert_eq!(action, AckAction::Failed);
}

#[test]
fn pkid_allocation_wraps_and_skips_in_flight() {
    let mut ledger = PkidLedger::new();
    assert_eq!(ledger.allocate(0), Some(1));
    assert_eq!(ledger.allocate(0), Some(2));
    assert!(ledger.contains(1));
    assert!(ledger.release(1));
    assert!(!ledger.release(1));
    assert_eq!(ledger.allocate(0), Some(3));
    let mut full = PkidLedger::new();
    for expected in 1..=65535u32 {
        assert_eq!(full.allocate(0), Some(expected as u16));
    }
    assert_eq!(full.in_flight_count(), 65535);
    assert_eq!(full.allocate(0), None);
    assert!(full.release(5));
    assert_eq!(full.allocate(0), Some(5));
    assert!(full.release(2));
    assert!(full.release(9));
    assert_eq!(full.allocate(0), Some(9));
}

#[test]
fn packet_size_and_properties() {
    let p = Publish { dup: false, qos: QoS::AtMostOnce, pkid: 0, retain: false, topic: "t".to_string(), payload: vec![0; 10] };
    assert_eq!(check_packet_size(&p, 10), Ok(()));
    assert_eq!(check_packet_size(&p, 9), Err(DeliveryError::PacketLengthExceeded(10)));
    let sub = subscriber("c", "t", QoS::AtMostOnce);
    let (_, props) = build_publish(QoS::AtMostOnce, sub, "t".to_string(), message("d", "x", QoS::AtMostOnce)).unwrap();
    assert!(properties_for(MqttProtocol::Mqtt4, props.clone()).is_none());
    assert_eq!(properties_for(MqttProtocol::Mqtt5, props.clone()), Some(props));
}

#[test]
fn record_batch_size() {
    assert_eq!(calc_record_num(0), 100);
    assert_eq!(calc_record_num(1), 100);
    assert_eq!(calc_record_num(30), 150);
    assert_eq!(calc_record_num(200), 1000);
    assert_eq!(calc_record_num(300), 1000);
}

/// Runs one record through the round-robin machine; `fails` says which
/// member indexes always fail. Returns the member that got it, if any.
fn dispatch(cursor: &mut ShareCursor, members: usize, fails: &[usize]) -> Option<usize> {
    loop {
        match cursor.pick(members) {
            Pick::Wait | Pick::Refresh => continue,
            Pick::GiveUp => return None,
            Pick::Deliver(i) => {
                let outcome = if fails.contains(&i) { DeliveryOutcome::Failed } else { DeliveryOutcome::Delivered };
                if cursor.on_delivery(outcome) == RecordFate::Commit {
                    return Some(i);
                }
            }
        }
    }
}

#[test]
fn shared_leader_round_robin_is_fair() {
    let mut log = TopicLog::new();
    for _ in 0..6 {
        log.append(b"r".to_vec());
    }
    let group = "system_sub_g_t".to_string();
    let mut cursor = ShareCursor::new();
    let mut got = Vec::new();
    for r in log.read(&group, calc_record_num(3)) {
        got.push(dispatch(&mut cursor, 3, &[]).unwrap());
        log.commit_group_offset(group.clone(), r.offset);
    }
    assert_eq!(got, vec![0, 1, 2, 0, 1, 2]);
    assert_eq!(log.committed_offset(&group), 6);
}

#[test]
fn shared_leader_counts_differ_by_at_most_one() {
    let mut cursor = ShareCursor::new();
    let mut counts = [0usize; 3];
    for _ in 0..7 {
        counts[dispatch(&mut cursor, 3, &[]).unwrap()] += 1;
    }
    assert_eq!(counts, [3, 2, 2]);
    let mut cursor = ShareCursor { cursor: 2, attempts: 0 };
    let mut counts = [0usize; 4];
    for _ in 0..10 {
        counts[dispatch(&mut cursor, 4, &[]).unwrap()] += 1;
    }
    assert_eq!(counts, [2, 2, 3, 3]);
}

#[test]
fn shared_leader_failover_to_next_member() {
    let mut log = TopicLog::new();
    log.append(b"a".to_vec());
    log.append(b"b".to_vec());
    let group = "system_sub_g_t".to_string();
    let mut cursor = ShareCursor::new();
    let mut got = Vec::new();
    for r in log.read(&group, calc_record_num(2)) {
        got.push(dispatch(&mut cursor, 2, &[0]).unwrap());
        log.commit_group_offset(group.clone(), r.offset);
    }
    assert_eq!(got, vec![1, 1]);
    assert_eq!(log.committed_offset(&group), 2);
}

#[test]
fn shared_leader_gives_up_when_all_fail() {
    let mut cursor = ShareCursor::new();
    assert_eq!(dispatch(&mut cursor, 2, &[0, 1]), None);
    assert_eq!(cursor.attempts, 0);
    assert_eq!(cursor.pick(0), Pick::Wait);
}
