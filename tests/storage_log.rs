use mqtt_broker::storage::TopicLog;

#[test]
fn read_returns_records_after_committed_offset() {
    let mut log = TopicLog::new();
    for p in ["a", "b", "c", "d"] {
        log.append(p.as_bytes().to_vec());
    }
    let g = "g".to_string();
    let first = log.read(&g, 2);
    assert_eq!(first.iter().map(|r| r.offset).collect::<Vec<_>>(), vec![1, 2]);
    assert_eq!(first[1].data, b"b".to_vec());
    log.commit_group_offset(g.clone(), 2);
    let next = log.read(&g, 10);
    assert_eq!(next.iter().map(|r| r.offset).collect::<Vec<_>>(), vec![3, 4]);
    assert_eq!(log.read(&"other".to_string(), 10).len(), 4);
}

#[test]
fn commit_is_idempotent_and_monotonic() {
    let mut log = TopicLog::new();
    for _ in 0..5 {
        log.append(vec![1]);
    }
    let g = "g".to_string();
    log.commit_group_offset(g.clone(), 3);
    log.commit_group_offset(g.clone(), 3);
    assert_eq!(log.committed_offset(&g), 3);
    log.commit_group_offset(g.clone(), 2);
    assert_eq!(log.committed_offset(&g), 3);
    log.commit_group_offset(g.clone(), 4);
    assert_eq!(log.committed_offset(&g), 4);
    assert_eq!(log.committed_offset(&"h".to_string()), 0);
    assert_eq!(log.len(), 5);
}

#[test]
fn vec_test() {
    let v = vec![1, 2, 3, 4, 5, 6];
    let start = 0 as usize;
    let end = 3 as usize;
    println!("{:?}", v[start..end].to_vec());
    println!("{:?}", v[start..end].to_vec());
}
