use as_proxy::cache::DiffCache;
use as_proxy::handler::{
    answer_read, client_request, file_replay_record, replay_overrides, resume_server_to_client, store_replay_record,
    transform_client_to_server, transform_server_to_client, ClientRequest, ReplayRecord, ServerStep,
    TransformDecision,
};
use as_proxy::relay::{
    after_client_read, after_key, after_server_read, route, Action, ServerNext, Side,
};
use as_proxy::state::{AppState, Config, KafkaConfig, KafkaMode};
use as_proxy::utils::parser::{
    AerospikeKey, AerospikeMessage, AerospikeOperation, AerospikePacket, AerospikePacketBody,
    Failure, Fatal, ParseError,
};
use as_proxy::utils::{parse_to_as_packet, verify_supported_feature};

fn config(intercept: Option<bool>, mode: Option<KafkaMode>, local: Option<bool>) -> Config {
    Config {
        intercept_writes: intercept,
        diff_ttl: 120,
        kafka_config: mode.map(|mode| KafkaConfig {
            hosts: "localhost:9092".to_string(),
            topic: "test".to_string(),
            mode,
            prioritize_local_cache: local,
        }),
    }
}

fn intercepting() -> AppState {
    AppState::new(config(Some(true), None, None))
}

fn field(code: u8, data: &[u8]) -> Vec<u8> {
    let mut out = (data.len() as u32 + 1).to_be_bytes().to_vec();
    out.push(code);
    out.extend_from_slice(data);
    out
}

fn request(info1: u8, info2: u8, ns: &str, set: &str, operations: &[AerospikeOperation]) -> Vec<u8> {
    request_of(info1, info2, [ns.as_bytes(), set.as_bytes(), &[1; 20]], operations)
}

fn request_of(info1: u8, info2: u8, key: [&[u8]; 3], operations: &[AerospikeOperation]) -> Vec<u8> {
    let m = AerospikeMessage::new(info1, info2, 0, 0, 0, 0, 30, 40, vec![], operations.to_vec());
    let body = m.to_bytes();
    let fields = [field(0, key[0]), field(1, key[1]), field(4, key[2])].concat();
    let mut out = vec![2, 3];
    out.extend_from_slice(&((body.len() + fields.len()) as u64).to_be_bytes()[2..]);
    out.extend_from_slice(&body[..18]);
    out.extend_from_slice(&[0, 3]);
    out.extend_from_slice(&body[20..22]);
    out.extend_from_slice(&fields);
    out.extend_from_slice(&body[22..]);
    out
}

fn write(set: &str, data: &[u8]) -> Vec<u8> {
    request(0, 1, "ns", set, &[AerospikeOperation::new(2, 4, 0, "bin", data.to_vec())])
}

fn read(set: &str) -> Vec<u8> {
    request(1, 0, "ns", set, &[])
}

fn key(set: &str) -> AerospikeKey {
    AerospikeKey {
        namespace: "ns".to_string(),
        set: set.to_string(),
        digest: vec![1; 20],
    }
}

fn reply(data: &[u8]) -> Vec<u8> {
    AerospikePacket::new(AerospikePacketBody::Message(AerospikeMessage::new(
        0,
        0,
        0,
        0,
        0,
        0,
        0,
        0,
        vec![],
        vec![AerospikeOperation::new(2, 4, 0, "bin", data.to_vec())],
    )))
    .to_bytes()
}

fn forwarded(decision: &TransformDecision) -> &Vec<u8> {
    match decision {
        TransformDecision::Forward(b) => b,
        other => panic!("{:?}", other),
    }
}

fn responded(decision: &TransformDecision) -> &Vec<u8> {
    match decision {
        TransformDecision::Respond(b) => b,
        other => panic!("{:?}", other),
    }
}

#[test]
fn an_intercepted_write_is_acknowledged() {
    let mut state = intercepting();
    let out = transform_client_to_server(write("s", b"v"), &mut state).unwrap();
    assert_eq!(
        responded(&out.decision),
        &AerospikeMessage::get_successful_write_packet(30, 40)
    );
    assert!(out.announce.is_none());
    assert!(state.diff_map.contains_key(&key("s")));
}

#[test]
fn a_read_after_a_write_gets_what_was_written() {
    let mut state = intercepting();
    transform_client_to_server(write("s", b"one"), &mut state).unwrap();
    transform_client_to_server(write("s", b"two"), &mut state).unwrap();
    let out = transform_client_to_server(read("s"), &mut state).unwrap();
    assert_eq!(responded(&out.decision), &reply(b"two"));
    assert_eq!(&responded(&out.decision)[8..9], &[0x16]);
}

#[test]
fn a_read_of_another_key_is_passed_on() {
    let mut state = intercepting();
    transform_client_to_server(write("s", b"one"), &mut state).unwrap();
    let out = transform_client_to_server(read("other"), &mut state).unwrap();
    assert_eq!(forwarded(&out.decision), &read("other"));
    assert!(out.announce.is_none());
}

#[test]
fn a_read_of_another_digest_is_passed_on() {
    let mut state = intercepting();
    transform_client_to_server(write("s", b"one"), &mut state).unwrap();
    let other = request_of(1, 0, [b"ns", b"s", &[2; 20]], &[]);
    let out = transform_client_to_server(other.clone(), &mut state).unwrap();
    assert_eq!(forwarded(&out.decision), &other);
    let out = transform_client_to_server(read("s"), &mut state).unwrap();
    assert_eq!(responded(&out.decision), &reply(b"one"));
}

#[test]
fn a_write_without_a_key_is_acknowledged_but_not_cached() {
    let mut state = intercepting();
    let m = AerospikeMessage::new(
        0,
        1,
        0,
        0,
        0,
        0,
        1,
        2,
        vec![],
        vec![AerospikeOperation::new(2, 4, 0, "bin", vec![1])],
    );
    let bytes = AerospikePacket::new(AerospikePacketBody::Message(m)).to_bytes();
    let out = transform_client_to_server(bytes, &mut state).unwrap();
    assert_eq!(
        responded(&out.decision),
        &AerospikeMessage::get_successful_write_packet(1, 2)
    );
}

#[test]
fn a_diff_whose_time_is_over_is_not_found() {
    let mut c = config(Some(true), None, None);
    c.diff_ttl = 0;
    let mut state = AppState::new(c);
    transform_client_to_server(write("s", b"v"), &mut state).unwrap();
    let start = std::time::Instant::now();
    while start.elapsed() < std::time::Duration::from_millis(20) {}
    let out = transform_client_to_server(read("s"), &mut state).unwrap();
    assert_eq!(forwarded(&out.decision), &read("s"));
}

#[test]
fn a_plain_proxy_relays() {
    let mut state = AppState::new(config(None, None, None));
    assert!(state.is_plain_proxy());
    let mut trailing = read("s");
    trailing.push(0);
    for bytes in [
        write("s", b"v"),
        read("s"),
        request(0xff, 0xff, "ns", "s", &[]),
        trailing,
        vec![2, 3, 0],
        b"no packet at all".to_vec(),
    ] {
        let out = transform_client_to_server(bytes.clone(), &mut state).unwrap();
        assert_eq!(forwarded(&out.decision), &bytes);
        assert!(out.announce.is_none());
        match transform_server_to_client(bytes.clone(), &state).unwrap() {
            ServerStep::Done(d) => assert_eq!(forwarded(&d), &bytes),
            other => panic!("{:?}", other),
        }
    }
    assert!(!state.diff_map.contains_key(&key("s")));
}

#[test]
fn info_packets_are_relayed() {
    let mut state = intercepting();
    let bytes = b"\x02\x01\x00\x00\x00\x00\x00\x05node\n".to_vec();
    let out = transform_client_to_server(bytes.clone(), &mut state).unwrap();
    assert_eq!(forwarded(&out.decision), &bytes);
}

#[test]
fn what_cannot_be_read_is_dropped() {
    let mut state = intercepting();
    for bytes in [vec![], vec![2, 3, 0], b"\x02\x09\x00\x00\x00\x00\x00\x00".to_vec()] {
        let out = transform_client_to_server(bytes.clone(), &mut state).unwrap();
        assert!(matches!(out.decision, TransformDecision::Drop));
        assert!(matches!(
            transform_server_to_client(bytes, &state),
            Ok(ServerStep::Done(TransformDecision::Drop))
        ));
    }
}

#[test]
fn unsupported_flags_are_fatal_while_writes_are_intercepted() {
    let mut state = intercepting();
    for (info1, info2) in [(4u8, 0u8), (8, 0), (0, 4), (0, 16), (0, 64)] {
        let bytes = request(info1, info2 | 1, "ns", "s", &[]);
        assert_eq!(
            transform_client_to_server(bytes.clone(), &mut state).unwrap_err(),
            Fatal::UnsupportedFeature
        );
        assert_eq!(
            transform_server_to_client(bytes, &state).unwrap_err(),
            Fatal::UnsupportedFeature
        );
    }
    assert!(!state.diff_map.contains_key(&key("s")));
}

#[test]
fn supported_flags_pass() {
    let state = intercepting();
    for info1 in 0..=255u8 {
        for info2 in 0..=255u8 {
            let m = AerospikeMessage::new(info1, info2, 0, 0, 0, 0, 0, 0, vec![], vec![]);
            let p = AerospikePacket::new(AerospikePacketBody::Message(m));
            let expected = info1 < 4 && (info2 < 4 || (32..36).contains(&info2));
            assert_eq!(verify_supported_feature(&p, &state).is_ok(), expected);
        }
    }
    for (info3, info4) in [(1u8, 0u8), (0, 1)] {
        let m = AerospikeMessage::new(0, 0, info3, info4, 0, 0, 0, 0, vec![], vec![]);
        let p = AerospikePacket::new(AerospikePacketBody::Message(m));
        assert!(verify_supported_feature(&p, &state).is_err());
    }
}

#[test]
fn consume_mode_intercepts_and_checks_flags() {
    let mut state = AppState::new(config(None, Some(KafkaMode::Consume), None));
    let m = AerospikeMessage::new(0, 0, 1, 0, 0, 0, 0, 0, vec![], vec![]);
    let p = AerospikePacket::new(AerospikePacketBody::Message(m));
    assert!(verify_supported_feature(&p, &state).is_err());
    assert_eq!(
        transform_client_to_server(request(8, 1, "ns", "s", &[]), &mut state).unwrap_err(),
        Fatal::UnsupportedFeature
    );
    let out = transform_client_to_server(write("s", b"v"), &mut state).unwrap();
    assert_eq!(
        responded(&out.decision),
        &AerospikeMessage::get_successful_write_packet(30, 40)
    );
}

#[test]
fn parsing_fails_with_what_the_packet_breaks() {
    let state = intercepting();
    assert!(matches!(
        parse_to_as_packet(&[1], &state),
        Err(Failure::Rejected(ParseError::PacketTooShort))
    ));
    let mut bytes = read("s");
    bytes.push(0);
    assert!(matches!(
        parse_to_as_packet(&bytes, &state),
        Err(Failure::Fatal(Fatal::TrailingBytes))
    ));
    assert!(parse_to_as_packet(&read("s"), &state).is_ok());
}

#[test]
fn a_breach_of_the_protocol_is_fatal() {
    let mut state = AppState::new(config(None, Some(KafkaMode::Produce), None));
    let mut bytes = read("s");
    bytes.push(0);
    assert_eq!(
        transform_client_to_server(bytes, &mut state).unwrap_err(),
        Fatal::TrailingBytes
    );
}

#[test]
fn produce_mode_announces_the_key_of_what_is_passed_on() {
    let mut state = AppState::new(config(None, Some(KafkaMode::Produce), None));
    let out = transform_client_to_server(read("s"), &mut state).unwrap();
    assert_eq!(forwarded(&out.decision), &read("s"));
    assert_eq!(out.announce, Some(key("s")));
    let mut both = AppState::new(config(Some(true), Some(KafkaMode::Produce), None));
    assert_eq!(
        transform_client_to_server(read("s"), &mut both).unwrap().announce,
        Some(key("s"))
    );
    assert_eq!(
        transform_client_to_server(write("s", b"v"), &mut both).unwrap().announce,
        None
    );
    assert_eq!(transform_client_to_server(read("s"), &mut both).unwrap().announce, None);
}

#[test]
fn requests_are_told_apart() {
    let state = intercepting();
    assert!(matches!(
        client_request(&write("s", b"v"), &state),
        Ok(ClientRequest::Write { target: Some(_), record_ttl: 30, transaction_ttl: 40, .. })
    ));
    assert!(matches!(
        client_request(&read("s"), &state),
        Ok(ClientRequest::Read { publish: false, .. })
    ));
    assert!(matches!(
        client_request(&request(0, 0, "ns", "s", &[]), &state),
        Ok(ClientRequest::Pass { announce: None })
    ));
    // a message that both reads and writes is a write
    assert!(matches!(
        client_request(&request(1, 1, "ns", "s", &[]), &state),
        Ok(ClientRequest::Write { .. })
    ));
}

#[test]
fn a_read_is_answered_with_what_was_found() {
    let operations = vec![AerospikeOperation::new(2, 4, 0, "bin", b"v".to_vec())];
    let hit = answer_read(read("s"), key("s"), true, Some(&operations));
    assert_eq!(responded(&hit.decision), &reply(b"v"));
    assert!(hit.announce.is_none());
    let miss = answer_read(read("s"), key("s"), true, None);
    assert_eq!(forwarded(&miss.decision), &read("s"));
    assert_eq!(miss.announce, Some(key("s")));
    assert_eq!(answer_read(read("s"), key("s"), false, None).announce, None);
}

#[test]
fn answers_of_the_server_are_published_under_their_key() {
    let state = AppState::new(config(None, Some(KafkaMode::Produce), None));
    let bytes = reply(b"v");
    match transform_server_to_client(bytes.clone(), &state).unwrap() {
        ServerStep::AwaitKey { bytes: b, operations } => {
            assert_eq!(b, bytes);
            let (decision, record) = resume_server_to_client(b, operations, Some(key("s")));
            assert_eq!(forwarded(&decision), &bytes);
            let record = record.unwrap();
            assert_eq!(record.key, key("s"));
            assert_eq!(record.operations[0].data, b"v");
        }
        other => panic!("{:?}", other),
    }
    let consuming = AppState::new(config(None, Some(KafkaMode::Consume), None));
    match transform_server_to_client(bytes.clone(), &consuming).unwrap() {
        ServerStep::Done(d) => assert_eq!(forwarded(&d), &bytes),
        other => panic!("{:?}", other),
    }
    let (decision, record) = resume_server_to_client(vec![1], vec![], None);
    assert_eq!(forwarded(&decision), &vec![1]);
    assert!(record.is_none());
}

fn record(set: &str, data: &[u8]) -> ReplayRecord {
    ReplayRecord {
        key: key(set),
        operations: vec![AerospikeOperation::new(2, 4, 0, "bin", data.to_vec())],
    }
}

#[test]
fn a_replayed_record_answers_reads() {
    let mut state = AppState::new(config(None, Some(KafkaMode::Consume), None));
    assert!(record("s", b"replayed").fits());
    transform_client_to_server(write("s", b"local"), &mut state).unwrap();
    store_replay_record(record("s", b"replayed"), &mut state);
    let out = transform_client_to_server(read("s"), &mut state).unwrap();
    assert_eq!(responded(&out.decision), &reply(b"replayed"));
}

#[test]
fn a_local_diff_can_take_precedence() {
    let mut state = AppState::new(config(None, Some(KafkaMode::Consume), Some(true)));
    transform_client_to_server(write("s", b"local"), &mut state).unwrap();
    store_replay_record(record("s", b"replayed"), &mut state);
    store_replay_record(record("t", b"replayed"), &mut state);
    let s = transform_client_to_server(read("s"), &mut state).unwrap();
    assert_eq!(responded(&s.decision), &reply(b"local"));
    let t = transform_client_to_server(read("t"), &mut state).unwrap();
    assert_eq!(responded(&t.decision), &reply(b"replayed"));
}

#[test]
fn a_replayed_record_is_filed_unless_a_found_diff_takes_precedence() {
    for (local, cached, filed) in [
        (Some(true), true, false),
        (Some(true), false, true),
        (Some(false), true, true),
        (None, true, true),
    ] {
        let mut state = AppState::new(config(None, Some(KafkaMode::Consume), local));
        transform_client_to_server(write("s", b"local"), &mut state).unwrap();
        file_replay_record(record("s", b"replayed"), cached, &mut state);
        let out = transform_client_to_server(read("s"), &mut state).unwrap();
        let expected: &[u8] = if filed { b"replayed" } else { b"local" };
        assert_eq!(responded(&out.decision), &reply(expected));
    }
}

#[test]
fn precedence_needs_both_the_setting_and_a_cached_diff() {
    assert!(!replay_overrides(Some(true), true));
    assert!(replay_overrides(Some(true), false));
    assert!(replay_overrides(Some(false), true));
    assert!(replay_overrides(None, true));
}

#[test]
fn the_cache_holds_twenty_keys_and_drops_the_oldest() {
    let mut state = intercepting();
    for i in 0..20 {
        transform_client_to_server(write(&format!("s{}", i), b"v"), &mut state).unwrap();
    }
    // the oldest key is written again, so it is the youngest now
    transform_client_to_server(write("s0", b"w"), &mut state).unwrap();
    assert!((0..20).all(|i| state.diff_map.contains_key(&key(&format!("s{}", i)))));
    transform_client_to_server(write("s20", b"v"), &mut state).unwrap();
    assert!(!state.diff_map.contains_key(&key("s1")));
    assert!(state.diff_map.contains_key(&key("s0")));
    assert!((2..=20).all(|i| state.diff_map.contains_key(&key(&format!("s{}", i)))));
}

#[test]
fn a_cache_without_room_holds_nothing() {
    let mut cache = DiffCache::new(0);
    cache.insert(key("s"), vec![], 60);
    assert!(cache.get(&key("s")).is_none());
    let mut cache = DiffCache::new(1);
    cache.insert(key("s"), vec![], 60);
    cache.insert(key("t"), vec![AerospikeOperation::new(1, 1, 1, "b", vec![9])], 60);
    assert!(cache.get(&key("s")).is_none());
    assert_eq!(cache.get(&key("t")).unwrap()[0].data, vec![9]);
}

#[test]
fn interception_depends_on_the_configuration() {
    let state = |i, m| AppState::new(config(i, m, None));
    assert!(!state(None, None).intercept_messages());
    assert!(!state(Some(false), Some(KafkaMode::Produce)).intercept_messages());
    assert!(state(Some(true), None).intercept_messages());
    assert!(state(Some(false), Some(KafkaMode::Consume)).intercept_messages());
    assert!(state(Some(true), None).is_write_intercept_enabled());
    assert!(!state(Some(false), Some(KafkaMode::Consume)).is_write_intercept_enabled());
    assert!(!state(None, None).is_write_intercept_enabled());
    assert!(state(None, Some(KafkaMode::Consume)).is_kafka_consumer_enabled());
    assert!(!state(None, Some(KafkaMode::Produce)).is_kafka_consumer_enabled());
    assert!(!state(None, None).is_kafka_consumer_enabled());
    assert!(state(None, Some(KafkaMode::Produce)).is_kafka_producer_enabled());
    assert!(!state(None, Some(KafkaMode::Consume)).is_kafka_producer_enabled());
    assert!(!state(None, None).is_kafka_producer_enabled());
}

#[test]
fn brokers_are_separated_by_commas() {
    let brokers = |hosts: &str| {
        let mut kc = config(None, Some(KafkaMode::Consume), None).kafka_config.unwrap();
        kc.hosts = hosts.to_string();
        kc.brokers()
    };
    assert_eq!(brokers("localhost:9092,localhost:9093"), vec!["localhost:9092", "localhost:9093"]);
    assert_eq!(brokers("one"), vec!["one"]);
    assert_eq!(brokers(""), vec![""]);
    assert_eq!(brokers(",\u{e9},"), vec!["", "\u{e9}", ""]);
}

#[test]
fn decisions_are_routed() {
    match route(Side::Client, TransformDecision::Forward(vec![1])) {
        Action::Send { to, bytes } => assert_eq!((to, bytes), (Side::Server, vec![1])),
        other => panic!("{:?}", other),
    }
    match route(Side::Server, TransformDecision::Forward(vec![1])) {
        Action::Send { to, bytes } => assert_eq!((to, bytes), (Side::Client, vec![1])),
        other => panic!("{:?}", other),
    }
    match route(Side::Server, TransformDecision::Respond(vec![1])) {
        Action::Send { to, bytes } => assert_eq!((to, bytes), (Side::Server, vec![1])),
        other => panic!("{:?}", other),
    }
    assert!(matches!(route(Side::Client, TransformDecision::Drop), Action::Skip));
}

#[test]
fn a_plain_connection_delivers_what_is_sent() {
    let mut state = AppState::new(config(Some(false), None, None));
    let sent = [write("s", b"v"), b"and some more".to_vec()].concat();
    for size in [1, 3, 7, 8, 30, sent.len()] {
        let (mut to_server, mut to_client) = (vec![], vec![]);
        for chunk in sent.chunks(size) {
            match after_client_read(chunk.to_vec(), &mut state).unwrap().action {
                Action::Send { to: Side::Server, bytes } => to_server.extend(bytes),
                other => panic!("{:?}", other),
            }
            match after_server_read(chunk.to_vec(), &state).unwrap() {
                ServerNext::Act(Action::Send { to: Side::Client, bytes }) => to_client.extend(bytes),
                other => panic!("{:?}", other),
            }
        }
        assert_eq!(to_server, sent);
        assert_eq!(to_client, sent);
    }
    let step = after_client_read(vec![], &mut state).unwrap();
    assert!(matches!(step.action, Action::Shutdown { end: Side::Server }));
}

#[test]
fn a_connection_acts_on_what_it_reads() {
    let mut state = intercepting();
    let step = after_client_read(write("s", b"v"), &mut state).unwrap();
    match step.action {
        Action::Send { to: Side::Client, bytes } => {
            assert_eq!(bytes, AerospikeMessage::get_successful_write_packet(30, 40))
        }
        other => panic!("{:?}", other),
    }
    let step = after_client_read(read("other"), &mut state).unwrap();
    assert!(matches!(step.action, Action::Send { to: Side::Server, .. }));
    let step = after_client_read(vec![], &mut state).unwrap();
    assert!(matches!(step.action, Action::Shutdown { end: Side::Server }));
    assert!(matches!(
        after_server_read(vec![], &state),
        Ok(ServerNext::Act(Action::Shutdown { end: Side::Client }))
    ));
    assert!(matches!(
        after_server_read(reply(b"v"), &state),
        Ok(ServerNext::Act(Action::Send { to: Side::Client, .. }))
    ));
    let producing = AppState::new(config(None, Some(KafkaMode::Produce), None));
    match after_server_read(reply(b"v"), &producing).unwrap() {
        ServerNext::AwaitKey { bytes, operations } => {
            let (action, record) = after_key(bytes, operations, Some(key("s")));
            assert!(matches!(action, Action::Send { to: Side::Client, .. }));
            assert_eq!(record.unwrap().key, key("s"));
        }
        other => panic!("{:?}", other),
    }
}

#[test]
fn a_write_is_read_back_over_requests_between() {
    let mut state = intercepting();
    transform_client_to_server(write("s", b"one"), &mut state).unwrap();
    for i in 0..19 {
        transform_client_to_server(write(&format!("t{}", i), b"v"), &mut state).unwrap();
        transform_client_to_server(read("u"), &mut state).unwrap();
    }
    let out = transform_client_to_server(read("s"), &mut state).unwrap();
    assert_eq!(responded(&out.decision), &reply(b"one"));
    transform_client_to_server(write("t19", b"v"), &mut state).unwrap();
    let out = transform_client_to_server(read("s"), &mut state).unwrap();
    assert_eq!(forwarded(&out.decision), &read("s"));
}
