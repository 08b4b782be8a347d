use dashmap::DashMap;
use mqtt_broker::auth::{authentication_login, password_matches, Login, Plaintext, User};
use mqtt_broker::config::{
    default_addr, default_cluster_name, default_data_path, default_grpc_port, default_heartbeat_check_time_ms,
    default_heartbeat_timeout_ms, default_http_port, default_log, default_max_open_files, default_node_id,
    default_nodes, default_rocksdb, default_runtime_work_threads,
};
use mqtt_broker::keep_alive::{
    heartbeat_expired, sweep_shard, ConnectionLiveTime, DisconnectReasonCode, HeartbeatManager, KeepAliveRunInfo,
};
use mqtt_broker::lifecycle::{exclusive_pumps_to_start, exclusive_pumps_to_stop, share_pumps_to_start, share_pumps_to_stop};
use mqtt_broker::model::{MqttProtocol, QoS, RetainForwardRule, Subscriber, Message};
use mqtt_broker::retain::{build_retain_publish, should_forward_retained, RetainStore};
use mqtt_broker::subscribe::{build_share_leader_sub_list, share_leader_key, sub_key, Filter, SubscribeError, SubscribeManager};
use mqtt_broker::topic::{is_topic_match, parse_filter, FilterKind};
use mqtt_broker::user_storage::{storage_key_mqtt_user, KvEngine, MQTTUserStorage};

fn subscriber(client_id: &str, path: &str) -> Subscriber {
    Subscriber {
        protocol: MqttProtocol::Mqtt5,
        client_id: client_id.to_string(),
        sub_path: path.to_string(),
        topic_id: path.to_string(),
        topic_name: path.to_string(),
        group_name: None,
        qos: QoS::AtLeastOnce,
        nolocal: false,
        preserve_retain: false,
        retain_forward_rule: RetainForwardRule::Never,
        subscription_identifier: None,
    }
}

#[test]
fn defaults() {
    assert_eq!(default_cluster_name(), "placement-center");
    assert_eq!(default_node_id(), 1);
    assert_eq!(default_addr(), "127.0.0.1");
    assert_eq!(default_grpc_port(), 1228);
    assert_eq!(default_http_port(), 1227);
    assert_eq!(default_runtime_work_threads(), 100);
    assert_eq!(default_data_path(), "/tmp/robust/placement-center/data");
    let log = default_log();
    assert_eq!(log.log_path, "./logs/placement-center");
    assert_eq!(log.log_config, "./config/log4rs.yaml");
    assert_eq!(default_max_open_files(), Some(10000));
    assert_eq!(default_rocksdb().max_open_files, Some(10000));
    assert_eq!(default_heartbeat_timeout_ms(), 30000);
    assert_eq!(default_heartbeat_check_time_ms(), 1000);
}

#[test]
fn default_nodes_table() {
    let nodes = default_nodes();
    assert_eq!(nodes.len(), 1);
    assert_eq!(nodes.get("1").and_then(|v| v.as_str()), Some("127.0.0.1:1228"));
}

#[test]
fn keep_alive_reaps_stale_connection() {
    let now = 1_000u64;
    let mut hb = HeartbeatManager::new(4);
    hb.report_heartbeat(7, MqttProtocol::Mqtt5, 10, now - 25);
    hb.report_heartbeat(8, MqttProtocol::Mqtt5, 10, now - 5);
    hb.report_heartbeat(9, MqttProtocol::Mqtt4, 10, now - 21);
    let out = hb.sweep(now);
    assert_eq!(out.len(), 2);
    let d5 = out.iter().find(|d| d.connection_id == 7).unwrap();
    assert_eq!(d5.reason_code, DisconnectReasonCode::AdministrativeAction);
    assert_eq!(d5.protocol, MqttProtocol::Mqtt5);
    let props = d5.properties.as_ref().unwrap();
    assert_eq!(props.user_properties, vec![("heartbeat_close".to_string(), "true".to_string())]);
    let d4 = out.iter().find(|d| d.connection_id == 9).unwrap();
    assert!(d4.properties.is_none());
}

#[test]
fn heartbeat_expiry_boundary() {
    let e = ConnectionLiveTime { connection_id: 1, protocol: MqttProtocol::Mqtt4, keep_live: 10, heartbeat: 100 };
    assert!(!heartbeat_expired(&e, 120));
    assert!(heartbeat_expired(&e, 121));
    assert!(!heartbeat_expired(&e, 50));
    assert_eq!(sweep_shard(&vec![e], 121).len(), 1);
    assert!(sweep_shard(&vec![e], 120).is_empty());
}

#[test]
fn heartbeat_never_moves_backwards() {
    let mut hb = HeartbeatManager::new(2);
    hb.report_heartbeat(3, MqttProtocol::Mqtt4, 30, 500);
    hb.report_heartbeat(3, MqttProtocol::Mqtt4, 30, 400);
    assert_eq!(hb.get_heartbeat(3).unwrap().heartbeat, 500);
    hb.report_heartbeat(3, MqttProtocol::Mqtt4, 30, 600);
    assert_eq!(hb.get_heartbeat(3).unwrap().heartbeat, 600);
    assert!(hb.get_heartbeat(4).is_none());
    assert_eq!(hb.shard_num(), 2);
    hb.report_heartbeat(5, MqttProtocol::Mqtt5, 30, 600);
    hb.remove_connection(3);
    assert!(hb.get_heartbeat(3).is_none());
    assert_eq!(hb.get_heartbeat(5).unwrap().heartbeat, 600);
    hb.remove_connection(3);
    assert!(hb.sweep(10_000).len() == 1);
}

#[test]
fn run_info_duration() {
    let info = KeepAliveRunInfo::new(10, 35);
    assert_eq!(info.use_time, 25);
    assert_eq!(KeepAliveRunInfo::default().use_time, 0);
}

#[test]
fn plaintext_authentication() {
    let users: DashMap<String, User> = DashMap::new();
    users.insert("u".to_string(), User { username: "u".to_string(), password: "pw".to_string(), is_superuser: false });
    let ok = Plaintext::new(Login { username: "u".to_string(), password: "pw".to_string() }, &users);
    assert_eq!(ok.apply(), Ok(true));
    let bad = Plaintext::new(Login { username: "u".to_string(), password: "no".to_string() }, &users);
    assert_eq!(bad.apply(), Ok(false));
    let unknown = Plaintext::new(Login { username: "x".to_string(), password: "pw".to_string() }, &users);
    assert_eq!(unknown.apply(), Ok(false));
    let blank = Login { username: String::new(), password: String::new() };
    assert_eq!(authentication_login(blank.clone(), &users, true), Ok(true));
    assert_eq!(authentication_login(blank, &users, false), Ok(false));
    assert!(password_matches(&Some("a".to_string()), &"a".to_string()));
    assert!(!password_matches(&None, &"a".to_string()));
}

fn user_json(name: &str, password: &str) -> Vec<u8> {
    format!("{{\"username\":\"{}\",\"password\":\"{}\",\"is_superuser\":true}}", name, password).into_bytes()
}

#[test]
fn user_storage_test() {
    let mut user_storage = MQTTUserStorage::new(KvEngine::new());
    let cluster_name = "test_cluster".to_string();
    let username = "loboxu".to_string();
    user_storage.save(&cluster_name, &username, user_json(&username, "pwd123"));

    let username = "lobo1".to_string();
    user_storage.save(&cluster_name, &username, user_json(&username, "pwd1231"));

    let res = user_storage.list(&cluster_name);
    assert_eq!(res.len(), 2);

    let res = user_storage.get(&cluster_name, &"lobo1".to_string());
    assert!(res.is_some());

    let name = "lobo1".to_string();
    user_storage.delete(&cluster_name, &name);

    let res = user_storage.get(&cluster_name, &"lobo1".to_string());
    assert!(res.is_none());
}

#[test]
fn user_storage_lists_one_cluster() {
    let mut user_storage = MQTTUserStorage::new(KvEngine::new());
    let cluster_name = "test_cluster".to_string();
    let username = "lobo1".to_string();
    user_storage.save(&cluster_name, &username, user_json(&username, "pwd1231"));
    user_storage.save(&"other".to_string(), &username, user_json(&username, "x"));
    user_storage.save(&"test".to_string(), &username, user_json(&username, "y"));
    assert_eq!(user_storage.list(&cluster_name).len(), 1);
    let raw = user_storage.get(&cluster_name, &username).unwrap();
    let user: serde_json::Value = serde_json::from_slice(&raw).unwrap();
    assert_eq!(user["password"], "pwd1231");
    user_storage.save(&cluster_name, &username, user_json(&username, "new"));
    assert_eq!(user_storage.list(&cluster_name).len(), 1);
    user_storage.delete(&cluster_name, &username);
    assert!(user_storage.list(&cluster_name).is_empty());
    assert_eq!(user_storage.list(&"other".to_string()).len(), 1);
}

#[test]
fn user_storage_key_layout() {
    assert_eq!(storage_key_mqtt_user(&"c".to_string(), &"u".to_string()), "/cluster/c/mqtt/user/u");
}

#[test]
fn topic_filter_matching() {
    let m = |f: &str, t: &str| is_topic_match(&f.to_string(), &t.to_string());
    assert!(m("a/b", "a/b"));
    assert!(!m("a/b", "a/c"));
    assert!(m("a/+/c", "a/b/c"));
    assert!(!m("a/+/c", "a/b/d/c"));
    assert!(m("a/#", "a"));
    assert!(m("a/#", "a/b/c"));
    assert!(m("#", "x/y"));
    assert!(!m("+", "a/b"));
    assert!(m("+/b", "/b"));
    assert!(!m("a", "a/b"));
}

#[test]
fn share_filter_parsing() {
    assert_eq!(
        parse_filter(&"$share/g/t/a".to_string()),
        FilterKind::Shared { group: "g".to_string(), path: "t/a".to_string() }
    );
    assert_eq!(
        parse_filter(&"$queue/t".to_string()),
        FilterKind::Shared { group: "default".to_string(), path: "t".to_string() }
    );
    assert_eq!(parse_filter(&"$share/g".to_string()), FilterKind::Invalid);
    assert_eq!(parse_filter(&"$share//t".to_string()), FilterKind::Invalid);
    assert_eq!(parse_filter(&"t/a".to_string()), FilterKind::Exclusive);
}

#[test]
fn shared_group_members_in_join_order() {
    let mut m = SubscribeManager::new();
    for c in ["M1", "M2", "M3"] {
        m.add_share_leader("g".to_string(), "t1".to_string(), "t/a".to_string(), subscriber(c, "t/a"));
    }
    let key = share_leader_key(&"g".to_string(), &"t1".to_string());
    assert_eq!(key, "g_t1");
    let list = build_share_leader_sub_list(&m, &key);
    assert_eq!(list.iter().map(|s| s.client_id.as_str()).collect::<Vec<_>>(), vec!["M1", "M2", "M3"]);
    m.remove_subscribe(&"M2".to_string(), &"t/a".to_string());
    let list = build_share_leader_sub_list(&m, &key);
    assert_eq!(list.iter().map(|s| s.client_id.as_str()).collect::<Vec<_>>(), vec!["M1", "M3"]);
    assert!(build_share_leader_sub_list(&m, &"none".to_string()).is_empty());
    assert!(m.remove_empty_share_groups().is_empty());
    m.remove_subscribe(&"M1".to_string(), &"t/a".to_string());
    m.remove_subscribe(&"M3".to_string(), &"t/a".to_string());
    assert_eq!(m.share_leader_subscribe.len(), 1);
    assert_eq!(m.remove_empty_share_groups(), vec!["g_t1".to_string()]);
    assert_eq!(m.share_leader_subscribe.len(), 0);
    assert_eq!(share_pumps_to_stop(&m, &vec![key.clone()]), vec![key]);
}

#[test]
fn pump_lifecycle_plans() {
    let mut m = SubscribeManager::new();
    m.add_exclusive("t1".to_string(), subscriber("c1", "t/a"));
    m.add_share_leader("g".to_string(), "t1".to_string(), "t/a".to_string(), subscriber("c2", "t/a"));
    m.add_share_follower(subscriber("c3", "t/b"));
    let k1 = sub_key(&"c1".to_string(), &"t/a".to_string());
    assert_eq!(k1, "c1_t/a");

    let running = vec!["g_t1".to_string(), "gone".to_string()];
    assert_eq!(share_pumps_to_stop(&m, &running), vec!["gone".to_string()]);
    assert!(share_pumps_to_start(&m, &running).is_empty());
    assert_eq!(share_pumps_to_start(&m, &Vec::new()), vec!["g_t1".to_string()]);

    let running = vec![("t1".to_string(), k1.clone()), ("t2".to_string(), "x".to_string())];
    assert_eq!(exclusive_pumps_to_stop(&m, &running), vec![("t2".to_string(), "x".to_string())]);
    assert!(exclusive_pumps_to_start(&m, &running).is_empty());
    assert_eq!(exclusive_pumps_to_start(&m, &Vec::new()), vec![("t1".to_string(), k1.clone())]);

    m.remove_subscribe(&"c1".to_string(), &"t/a".to_string());
    assert_eq!(exclusive_pumps_to_stop(&m, &running).len(), 2);
    assert_eq!(m.topic_subscribe.len(), 1);
    assert_eq!(m.remove_empty_topics(), vec!["t1".to_string()]);
    assert_eq!(m.topic_subscribe.len(), 0);
    assert!(m.remove_empty_topics().is_empty());
}

#[test]
fn retained_replay_on_new_subscription() {
    let mut store = RetainStore::new();
    let msg = Message {
        client_id: "p".to_string(),
        payload: b"R".to_vec(),
        retain: true,
        qos: QoS::AtLeastOnce,
        format_indicator: None,
        expiry_interval: None,
        response_topic: None,
        correlation_data: None,
        user_properties: Vec::new(),
        content_type: None,
    };
    store.save("t/r".to_string(), msg);
    store.save("t/s".to_string(), Message { payload: b"S".to_vec(), ..store.get(&"t/r".to_string()).unwrap().clone() });
    let mut sub = subscriber("c", "t/r");
    sub.preserve_retain = true;
    sub.retain_forward_rule = RetainForwardRule::OnNewSubscribe;
    assert!(should_forward_retained(sub.retain_forward_rule, true));
    assert!(!should_forward_retained(sub.retain_forward_rule, false));
    assert!(!should_forward_retained(RetainForwardRule::Never, true));
    let hits = store.matching(&"t/r".to_string());
    assert_eq!(hits, vec![0]);
    let (p, _) = build_retain_publish(QoS::ExactlyOnce, sub, store.topic_at(0).clone(), store.message_at(0).clone()).unwrap();
    assert!(p.retain);
    assert_eq!(p.payload, b"R".to_vec());
    assert_eq!(p.topic, "t/r");
    assert_eq!(store.matching(&"t/#".to_string()), vec![0, 1]);
    store.save("t/r".to_string(), Message { payload: Vec::new(), ..store.message_at(0).clone() });
    assert!(store.get(&"t/r".to_string()).is_none());
}

#[test]
fn subscribe_classifies_and_matches_filters() {
    let mut m = SubscribeManager::new();
    let filter = |path: &str| Filter {
        path: path.to_string(),
        qos: QoS::AtLeastOnce,
        nolocal: false,
        preserve_retain: true,
        retain_forward_rule: RetainForwardRule::OnNewSubscribe,
    };
    let c = "c1".to_string();
    let (tid, tname) = ("t1".to_string(), "t/a".to_string());
    assert!(!m.contains_subscription(&c, &"t/+".to_string()));
    assert_eq!(m.subscribe_topic(MqttProtocol::Mqtt5, &c, &filter("t/+"), Some(3), &tid, &tname, true), Ok(true));
    assert!(m.contains_subscription(&c, &"t/+".to_string()));
    assert_eq!(m.subscribe_topic(MqttProtocol::Mqtt5, &c, &filter("x/#"), None, &tid, &tname, true), Ok(false));
    assert_eq!(m.subscribe_topic(MqttProtocol::Mqtt5, &c, &filter("$share/g/t/#"), None, &tid, &tname, true), Ok(true));
    assert_eq!(m.subscribe_topic(MqttProtocol::Mqtt4, &"c2".to_string(), &filter("$queue/t/a"), None, &tid, &tname, false), Ok(true));
    assert_eq!(
        m.subscribe_topic(MqttProtocol::Mqtt5, &c, &filter("$share/g"), None, &tid, &tname, true),
        Err(SubscribeError::InvalidFilter)
    );
    let running: Vec<(String, String)> = Vec::new();
    assert_eq!(exclusive_pumps_to_start(&m, &running), vec![("t1".to_string(), "c1_t/+".to_string())]);
    let members = build_share_leader_sub_list(&m, &"g_t1".to_string());
    assert_eq!(members.len(), 1);
    assert_eq!(members[0].group_name, Some("g".to_string()));
    assert_eq!(members[0].sub_path, "$share/g/t/#");
    assert_eq!(m.share_follower_resub.len(), 1);
    assert_eq!(m.share_follower_resub.key_at(0), "c2_$queue/t/a");
    assert!(m.contains_subscription(&"c2".to_string(), &"$queue/t/a".to_string()));
    assert!(m.contains_subscription(&c, &"$share/g/t/#".to_string()));
    assert!(!m.contains_subscription(&c, &"x/#".to_string()));
}
