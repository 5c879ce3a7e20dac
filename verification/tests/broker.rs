use franz::protocol::Handshake;
use franz::registry::{is_valid_topic, TopicRegistry, TopicResolutionError};
use franz::log_engine::MAX_RECORD_BYTES;
use franz::session::{
    dispatcher_step, frame_record, is_ping, keepalive_step, role_of, ConsumerSession, ConsumerStep,
    Dispatch, KeepaliveVerdict, ProducerSession, Role, SessionError, SessionTable, StopReason,
};

fn fresh_registry() -> (tempfile::TempDir, TopicRegistry) {
    let dir = tempfile::tempdir().unwrap();
    let root = dir.path().to_str().unwrap().to_string();
    (dir, TopicRegistry::new(root))
}

fn handshake(payload: &str) -> Handshake {
    Handshake::try_parse(payload.as_bytes().to_vec()).unwrap()
}

#[test]
fn resolve_same_topic_yields_same_log() {
    let (_dir, mut reg) = fresh_registry();
    let m1 = reg.resolve(b"orders").unwrap();
    let m2 = reg.resolve(b"orders").unwrap();

    let mut p = ProducerSession::start(&m1).unwrap();
    p.append_line(b"shared").unwrap();

    let mut c = ConsumerSession::start_grouped(&m2, 0).unwrap();
    let rec = c.pop_next().unwrap();
    assert_eq!(rec, b"shared".to_vec());
}

#[test]
fn resolve_distinct_topics_are_isolated() {
    let (_dir, mut reg) = fresh_registry();
    let m1 = reg.resolve(b"left").unwrap();
    let m2 = reg.resolve(b"right").unwrap();

    let mut p1 = ProducerSession::start(&m1).unwrap();
    p1.append_line(b"l").unwrap();
    let mut p2 = ProducerSession::start(&m2).unwrap();
    p2.append_line(b"r").unwrap();

    let mut c2 = ConsumerSession::start_grouped(&m2, 0).unwrap();
    assert_eq!(c2.pop_next().unwrap(), b"r".to_vec());
    let mut c1 = ConsumerSession::start_grouped(&m1, 0).unwrap();
    assert_eq!(c1.pop_next().unwrap(), b"l".to_vec());
}

#[test]
fn resolve_rejects_bad_names() {
    let (_dir, mut reg) = fresh_registry();
    assert!(matches!(reg.resolve(b""), Err(TopicResolutionError::InvalidName)));
    assert!(matches!(reg.resolve(b"a/b"), Err(TopicResolutionError::InvalidName)));
    assert!(matches!(reg.resolve(b"."), Err(TopicResolutionError::InvalidName)));
    assert!(matches!(reg.resolve(b".."), Err(TopicResolutionError::InvalidName)));
    assert!(matches!(reg.resolve(b"with space"), Err(TopicResolutionError::InvalidName)));
    assert!(!is_valid_topic(b"a\x00b"));
    assert!(is_valid_topic(b"orders-2.log"));
}

#[test]
fn resolve_io_failure_leaves_topic_absent() {
    let file = tempfile::NamedTempFile::new().unwrap();
    let root = format!("{}/sub", file.path().to_str().unwrap());
    let mut reg = TopicRegistry::new(root);
    assert!(matches!(reg.resolve(b"orders"), Err(TopicResolutionError::IoError)));
    // the registry is unchanged, so the same request may be retried
    assert!(matches!(reg.resolve(b"orders"), Err(TopicResolutionError::IoError)));
}

#[test]
fn producer_appends_lines_in_order() {
    let (_dir, mut reg) = fresh_registry();
    let m = reg.resolve(b"orders").unwrap();
    let mut p = ProducerSession::start(&m).unwrap();
    p.append_lines(&vec![b"a".to_vec(), b"b".to_vec()]).unwrap();

    let mut c = ConsumerSession::start_grouped(&m, 0).unwrap();
    assert_eq!(c.pop_next().unwrap(), b"a".to_vec());
    assert_eq!(c.pop_next().unwrap(), b"b".to_vec());
}

#[test]
fn produce_handshake_to_log_end_to_end() {
    let (_dir, mut reg) = fresh_registry();
    let h = handshake("version=1,topic=orders,api=produce");
    assert_eq!(dispatcher_step(false, &h), Dispatch::StartProducer);

    let m = reg.resolve(h.topic.as_slice()).unwrap();
    let mut p = ProducerSession::start(&m).unwrap();
    p.append_lines(&vec![b"a".to_vec(), b"b".to_vec()]).unwrap();

    let mut c = ConsumerSession::start_grouped(&m, 0).unwrap();
    assert_eq!(c.pop_next().unwrap(), b"a".to_vec());
    assert_eq!(c.pop_next().unwrap(), b"b".to_vec());
}

#[test]
fn group_members_share_one_cursor() {
    let (_dir, mut reg) = fresh_registry();
    let m = reg.resolve(b"orders").unwrap();
    let mut p = ProducerSession::start(&m).unwrap();
    for i in 0..4 {
        p.append_line(format!("r{}", i).as_bytes()).unwrap();
    }

    let mut c1 = ConsumerSession::start_grouped(&m, 1).unwrap();
    let mut c2 = ConsumerSession::start_grouped(&m, 1).unwrap();

    let mut got = Vec::new();
    got.push(c1.pop_next().unwrap());
    got.push(c1.pop_next().unwrap());
    got.push(c2.pop_next().unwrap());
    got.push(c2.pop_next().unwrap());

    // at most once per group: all four records, none twice
    got.sort();
    assert_eq!(got, vec![b"r0".to_vec(), b"r1".to_vec(), b"r2".to_vec(), b"r3".to_vec()]);
}

#[test]
fn groups_have_independent_cursors() {
    let (_dir, mut reg) = fresh_registry();
    let m = reg.resolve(b"orders").unwrap();
    let mut p = ProducerSession::start(&m).unwrap();
    p.append_line(b"only").unwrap();

    let mut c1 = ConsumerSession::start_grouped(&m, 2).unwrap();
    let mut c2 = ConsumerSession::start_grouped(&m, 3).unwrap();
    assert_eq!(c1.pop_next().unwrap(), b"only".to_vec());
    assert_eq!(c2.pop_next().unwrap(), b"only".to_vec());
}

#[test]
fn anonymous_consumers_start_at_tail_and_are_independent() {
    let (_dir, mut reg) = fresh_registry();
    let m = reg.resolve(b"orders").unwrap();
    let mut p = ProducerSession::start(&m).unwrap();
    p.append_line(b"a").unwrap();
    p.append_line(b"b").unwrap();

    // c1 joins with two records already present: it never sees them
    let mut c1 = ConsumerSession::start_anonymous_at_tail(&m, 2).unwrap();
    p.append_line(b"c").unwrap();
    p.append_line(b"d").unwrap();
    assert_eq!(c1.pop_next().unwrap(), b"c".to_vec());

    // c2 joins later, behind four records; its private cursor starts at
    // its own tail, unaffected by c1's progress
    let mut c2 = ConsumerSession::start_anonymous_at_tail(&m, 4).unwrap();
    p.append_line(b"e").unwrap();
    assert_eq!(c2.pop_next().unwrap(), b"e".to_vec());
    assert_eq!(c1.pop_next().unwrap(), b"d".to_vec());
    assert_eq!(c1.pop_next().unwrap(), b"e".to_vec());
}

#[test]
fn anonymous_consumer_receives_nothing_until_a_new_append() {
    let (_dir, mut reg) = fresh_registry();
    let m = reg.resolve(b"orders").unwrap();
    let mut p = ProducerSession::start(&m).unwrap();
    p.append_lines(&vec![b"a".to_vec(), b"b".to_vec()]).unwrap();

    // connects after ["a", "b"]: the tail cursor passes both, and the
    // first delivery is the first record appended afterwards
    let mut c = ConsumerSession::start_anonymous_at_tail(&m, 2).unwrap();
    p.append_line(b"c").unwrap();
    match c.consumer_step(false, KeepaliveVerdict::Alive) {
        ConsumerStep::Deliver(bytes) => assert_eq!(bytes, b"c\n".to_vec()),
        ConsumerStep::Stop(_) => panic!("expected a delivery"),
    }
}

#[test]
fn group_id_beyond_slot_range_is_rejected() {
    let (_dir, mut reg) = fresh_registry();
    let m = reg.resolve(b"orders").unwrap();
    assert!(matches!(
        ConsumerSession::start_grouped(&m, 64),
        Err(SessionError::GroupOutOfRange)
    ));
    assert!(matches!(
        ConsumerSession::start_grouped(&m, 65535),
        Err(SessionError::GroupOutOfRange)
    ));
    assert!(ConsumerSession::start_grouped(&m, 63).is_ok());
}

#[test]
fn oversized_record_is_refused() {
    let (_dir, mut reg) = fresh_registry();
    let m = reg.resolve(b"orders").unwrap();
    let mut p = ProducerSession::start(&m).unwrap();
    let long = vec![b'x'; MAX_RECORD_BYTES + 1];
    assert!(matches!(p.append_line(long.as_slice()), Err(SessionError::RecordTooLong)));
    // a record far beyond a line of text still fits a page
    let fits = vec![b'y'; 1 << 20];
    p.append_line(fits.as_slice()).unwrap();
    let mut c = ConsumerSession::start_grouped(&m, 0).unwrap();
    assert_eq!(c.pop_next().unwrap(), fits);
}

#[test]
fn keepalive_accepts_only_ping() {
    assert!(is_ping(b"PING"));
    assert!(is_ping(b"  PING\r\n"));
    assert!(!is_ping(b"PONG"));
    assert!(!is_ping(b"ping"));
    assert!(!is_ping(b""));

    assert_eq!(keepalive_step(Some(b"PING".as_slice())), KeepaliveVerdict::Alive);
    assert_eq!(keepalive_step(Some(b"PING\n".as_slice())), KeepaliveVerdict::Alive);
    assert_eq!(keepalive_step(Some(b"other".as_slice())), KeepaliveVerdict::Expired);
    assert_eq!(keepalive_step(None), KeepaliveVerdict::Expired);
}

#[test]
fn dispatcher_maps_roles() {
    assert_eq!(role_of(b"produce"), Some(Role::Produce));
    assert_eq!(role_of(b"consume"), Some(Role::Consume));
    assert_eq!(role_of(b"info"), Some(Role::Info));
    assert_eq!(role_of(b"fetch"), None);

    let h = handshake("version=1,topic=t,api=consume,group=5");
    assert_eq!(dispatcher_step(false, &h), Dispatch::StartConsumer(Some(5)));
    let h = handshake("version=1,topic=t,api=info");
    assert_eq!(dispatcher_step(false, &h), Dispatch::RespondInfo);
    let h = handshake("version=1,topic=t,api=unknown");
    assert_eq!(dispatcher_step(false, &h), Dispatch::Ignore);
}

#[test]
fn shutdown_admits_no_session() {
    for api in ["produce", "consume", "info", "junk"] {
        let h = handshake(&format!("version=1,topic=t,api={}", api));
        assert_eq!(dispatcher_step(true, &h), Dispatch::Shutdown);
    }
}

#[test]
fn consumer_step_first_signal_wins() {
    let (_dir, mut reg) = fresh_registry();
    let m = reg.resolve(b"orders").unwrap();
    let mut p = ProducerSession::start(&m).unwrap();
    p.append_line(b"rec").unwrap();

    let mut c = ConsumerSession::start_grouped(&m, 0).unwrap();
    let s = c.consumer_step(true, KeepaliveVerdict::Alive);
    assert!(matches!(s, ConsumerStep::Stop(StopReason::Cancelled)));
    let s = c.consumer_step(false, KeepaliveVerdict::Expired);
    assert!(matches!(s, ConsumerStep::Stop(StopReason::LivenessExpired)));
    let s = c.consumer_step(false, KeepaliveVerdict::Alive);
    match s {
        ConsumerStep::Deliver(bytes) => assert_eq!(bytes, b"rec\n".to_vec()),
        ConsumerStep::Stop(_) => panic!("expected a delivery"),
    }
}

#[test]
fn framed_records_end_with_newline() {
    assert_eq!(frame_record(b"abc"), b"abc\n".to_vec());
    assert_eq!(frame_record(b""), b"\n".to_vec());
}

#[test]
fn deliver_batch_is_contiguous_and_ordered() {
    let (_dir, mut reg) = fresh_registry();
    let m = reg.resolve(b"orders").unwrap();
    let mut p = ProducerSession::start(&m).unwrap();
    p.append_lines(&vec![b"a".to_vec(), b"b".to_vec(), b"c".to_vec()]).unwrap();

    let mut c = ConsumerSession::start_anonymous_at_tail(&m, 0).unwrap();
    let first = c.deliver_n(2).unwrap();
    assert_eq!(first, vec![b"a".to_vec(), b"b".to_vec()]);
    let second = c.deliver_n(1).unwrap();
    assert_eq!(second, vec![b"c".to_vec()]);
}

#[test]
fn session_table_tracks_and_drains() {
    let mut table = SessionTable::new();
    assert!(table.is_drained());
    assert!(table.can_register());

    let a = table.register();
    let b = table.register();
    assert_ne!(a, b);
    assert_eq!(table.live(), 2);
    assert!(!table.is_drained());

    // removal happens only after a session has terminated; exactly the
    // one id leaves the set
    assert!(table.deregister(a));
    assert!(!table.deregister(a));
    assert_eq!(table.live(), 1);
    assert!(table.deregister(b));
    assert!(table.is_drained());

    // a fresh id never collides with a live one
    let c = table.register();
    assert_ne!(c, a);
    assert_ne!(c, b);
}

#[test]
fn topic_name_derives_the_validated_identifier() {
    let h = handshake("version=1,topic=orders,api=produce");
    assert_eq!(h.topic_name().unwrap().as_slice(), b"orders");

    let h = handshake("version=1,topic=a/b,api=produce");
    assert!(matches!(h.topic_name(), Err(TopicResolutionError::InvalidName)));

    let h = handshake("version=1,topic=%20,api=produce");
    assert!(h.topic_name().is_ok());
}
