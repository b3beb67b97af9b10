use pantheon::echo::kv::{record_line, Opened, PersistenceError, SnapshotRead, Store};
use pantheon::echo::packet::{DecodeError, Error, Method, Packet};
use pantheon::echo::server::{answer, bind_address, respond, ServerEvent, ServerState};

fn query(key: &str) -> Vec<u8> {
    Packet::new(1, Method::Query, Error::NoError, key.to_string()).into()
}

#[test]
fn test_resolve_query_not_found() {
    let store = Store::in_memory();

    let message: Vec<u8> =
        Packet::new(1, Method::Query, Error::NoError, "Hi".to_string()).into();

    let reply = respond(&message, &store).expect("Failed to receive message");

    let ans = Packet::try_from(reply.as_slice()).expect("Failed to parse received packet");
    let expected = Packet::new(1, Method::Answer, Error::NotFound, "".to_string());

    assert_eq!(expected, ans);
}

#[test]
fn test_resolve_query() {
    let mut store = Store::in_memory();
    store.insert("a", "a");

    let packet: Vec<u8> = Packet::new(1, Method::Query, Error::NoError, "a".to_string()).into();

    let reply = respond(&packet, &store).expect("Failed to receive answer");

    let answer = Packet::try_from(reply.as_slice()).expect("Failed to parse the answer");

    assert_eq!("a", answer.body());
    assert_eq!(answer, Packet::new(1, Method::Answer, Error::NoError, "a".to_string()));
}

#[test]
fn unknown_key_is_answered_with_not_found() {
    let store = Store::in_memory();
    let reply = respond(&query("missing"), &store).unwrap();
    assert_eq!(reply, vec![1u8, 1, 2]);
    let packet = Packet::try_from(reply.as_slice()).unwrap();
    assert_eq!(packet, Packet::new(1, Method::Answer, Error::NotFound, String::new()));
}

#[test]
fn malformed_datagram_gets_no_answer_and_the_next_query_is_served() {
    let mut store = Store::in_memory();
    store.insert("host", "10.0.0.1");
    assert_eq!(respond(&[1u8, 0], &store), Err(DecodeError::TooShort));
    let reply = respond(&query("host"), &store).unwrap();
    let packet = Packet::decode(&reply).unwrap();
    assert_eq!(packet, Packet::new(1, Method::Answer, Error::NoError, "10.0.0.1".to_string()));
}

#[test]
fn every_query_gets_the_answer_for_its_own_key() {
    let mut store = Store::in_memory();
    let n = 50;
    for i in 0..n {
        store.insert(&format!("key-{i}"), &format!("value-{i}"));
    }
    let queries: Vec<Vec<u8>> = (0..n).map(|i| query(&format!("key-{i}"))).collect();
    // answered in another order than asked
    let mut replies: Vec<(usize, Vec<u8>)> = Vec::new();
    for i in (0..n).rev() {
        replies.push((i, respond(&queries[i], &store).unwrap()));
    }
    for (i, reply) in replies {
        let packet = Packet::decode(&reply).unwrap();
        assert_eq!(packet.error(), Error::NoError);
        assert_eq!(packet.body(), format!("value-{i}"));
    }
}

#[test]
fn answer_ignores_header_of_the_query() {
    let mut store = Store::in_memory();
    store.insert("k", "v");
    let odd = Packet::new(9, Method::Answer, Error::InternalServer, "k".to_string());
    assert_eq!(answer(&odd, &store), Packet::new(1, Method::Answer, Error::NoError, "v".to_string()));
    let reply = respond(&[9u8, 1, 4, b'k'], &store).unwrap();
    assert_eq!(reply, vec![1u8, 1, 0, b'v']);
}

#[test]
fn insert_overwrites_and_returns_previous_value() {
    let mut store = Store::in_memory();
    assert_eq!(store.len(), 0);
    assert_eq!(store.get("a"), None);
    assert_eq!(store.insert("a", "1"), None);
    assert_eq!(store.insert("b", "2"), None);
    assert_eq!(store.insert("a", "3"), Some("1".into()));
    assert_eq!(store.get("a"), Some("3"));
    assert_eq!(store.get("b"), Some("2"));
    assert_eq!(store.get(""), None);
    assert_eq!(store.len(), 2);
    assert_eq!(
        store.records(),
        vec![("a".to_string(), "3".to_string()), ("b".to_string(), "2".to_string())]
    );
}

#[test]
fn from_entries_keeps_the_last_value_of_a_key() {
    let store = Store::from_entries(vec![
        ("x".to_string(), "1".to_string()),
        ("y".to_string(), "2".to_string()),
        ("x".to_string(), "3".to_string()),
    ]);
    assert_eq!(store.len(), 2);
    assert_eq!(store.get("x"), Some("3"));
    assert_eq!(store.get("y"), Some("2"));
}

#[test]
fn snapshot_round_trips_the_table() {
    let mut store = Store::in_memory();
    store.insert("alpha", "1");
    store.insert("βeta", "zwei");
    store.insert("", "empty key");
    store.insert("alpha", "one");
    let bytes = store.to_snapshot().unwrap();
    let back = Store::from_snapshot(&bytes).unwrap();
    assert_eq!(back.len(), 3);
    assert_eq!(back.get("alpha"), Some("one"));
    assert_eq!(back.get("βeta"), Some("zwei"));
    assert_eq!(back.get(""), Some("empty key"));
    assert_eq!(back.records(), store.records());
}

#[test]
fn snapshot_has_the_layout_of_a_serialised_map() {
    let mut store = Store::in_memory();
    store.insert("a", "bc");
    let bytes = store.to_snapshot().unwrap();
    let mut expected = vec![1u8, 0, 0, 0, 0, 0, 0, 0];
    expected.extend_from_slice(&[1, 0, 0, 0, 0, 0, 0, 0, b'a']);
    expected.extend_from_slice(&[2, 0, 0, 0, 0, 0, 0, 0, b'b', b'c']);
    assert_eq!(bytes, expected);
    let map: std::collections::HashMap<Box<str>, Box<str>> = bincode::deserialize(&bytes).unwrap();
    assert_eq!(map.len(), 1);
    assert_eq!(map.get("a").map(|v| v.as_ref()), Some("bc"));
    let again = bincode::serialize(&map).unwrap();
    assert_eq!(Store::from_snapshot(&again).unwrap().get("a"), Some("bc"));
}

#[test]
fn corrupt_snapshot_is_an_error() {
    assert!(matches!(Store::from_snapshot(&[1u8, 2, 3]), Err(PersistenceError::Corrupt)));
    assert!(matches!(
        Store::from_snapshot(&[1u8, 0, 0, 0, 0, 0, 0, 0, 1, 0, 0, 0, 0, 0, 0, 0, 0xff, 0, 0, 0, 0, 0, 0, 0, 0]),
        Err(PersistenceError::Corrupt)
    ));
    assert!(matches!(
        Store::open(SnapshotRead::Found(vec![9u8])),
        Err(PersistenceError::Corrupt)
    ));
}

#[test]
fn missing_snapshot_bootstraps_an_empty_table() {
    match Store::open(SnapshotRead::Missing) {
        Ok(Opened::Created(store, first)) => {
            assert_eq!(store.len(), 0);
            assert_eq!(first, vec![0u8; 8]);
            match Store::open(SnapshotRead::Found(first)) {
                Ok(Opened::Loaded(again)) => assert_eq!(again.len(), 0),
                _ => panic!("the first snapshot must load"),
            }
        }
        _ => panic!("a missing snapshot must create a table"),
    }
}

#[test]
fn unreadable_snapshot_is_an_error() {
    assert!(matches!(Store::open(SnapshotRead::Failed), Err(PersistenceError::Unreadable)));
}

#[test]
fn found_snapshot_is_loaded() {
    let mut store = Store::in_memory();
    let bytes = store.insert_snapshot("k", "v").unwrap();
    assert_eq!(store.get("k"), Some("v"));
    match Store::open(SnapshotRead::Found(bytes)) {
        Ok(Opened::Loaded(loaded)) => assert_eq!(loaded.get("k"), Some("v")),
        _ => panic!("a written snapshot must load"),
    }
}

#[test]
fn server_life_cycle() {
    let bound = ServerState::Bound;
    assert!(bound.is_live());
    let serving = bound.step(ServerEvent::Started);
    assert_eq!(serving, ServerState::Serving);
    for event in [ServerEvent::Answered, ServerEvent::Dropped, ServerEvent::SendFailed] {
        assert_eq!(serving.step(event), ServerState::Serving);
    }
    assert_eq!(serving.step(ServerEvent::ReceiveFailed), ServerState::Failed);
    assert_eq!(serving.step(ServerEvent::Cancelled), ServerState::Stopped);
    assert_eq!(bound.step(ServerEvent::Cancelled), ServerState::Stopped);
    for ended in [ServerState::Failed, ServerState::Stopped] {
        assert!(!ended.is_live());
        for event in [
            ServerEvent::Started,
            ServerEvent::Answered,
            ServerEvent::Dropped,
            ServerEvent::SendFailed,
            ServerEvent::ReceiveFailed,
            ServerEvent::Cancelled,
        ] {
            assert_eq!(ended.step(event), ended);
        }
    }
}

#[test]
fn first_records_in_order_of_first_insertion() {
    let mut store = Store::in_memory();
    store.insert("b", "2");
    store.insert("a", "1");
    store.insert("c", "3");
    store.insert("b", "4");
    let pair = |k: &str, v: &str| (k.to_string(), v.to_string());
    assert_eq!(store.first_records(Some(0)), vec![]);
    assert_eq!(store.first_records(Some(2)), vec![pair("b", "4"), pair("a", "1")]);
    assert_eq!(store.first_records(Some(3)), store.records());
    assert_eq!(store.first_records(Some(99)), store.records());
    assert_eq!(store.first_records(None), vec![pair("b", "4"), pair("a", "1"), pair("c", "3")]);
}

#[test]
fn record_lines() {
    assert_eq!(record_line("key", "value"), "key: value");
    assert_eq!(record_line("", ""), ": ");
}

#[test]
fn bind_addresses() {
    assert_eq!(bind_address(None), "127.0.0.1:53");
    assert_eq!(bind_address(Some("8053")), "127.0.0.1:8053");
}

#[test]
fn large_table_round_trips_through_its_snapshot() {
    let mut store = Store::in_memory();
    for i in 0..300 {
        store.insert(&format!("k{i}"), &format!("v{}", i * 7));
    }
    for i in 0..300 {
        if i % 3 == 0 {
            store.insert(&format!("k{i}"), "again");
        }
    }
    let bytes = store.to_snapshot().unwrap();
    let back = Store::from_snapshot(&bytes).unwrap();
    assert_eq!(back.len(), 300);
    assert_eq!(back.records(), store.records());
    assert_eq!(back.get("k3"), Some("again"));
    assert_eq!(back.get("k4"), Some("v28"));
    assert_eq!(back.to_snapshot().unwrap(), bytes);
}
