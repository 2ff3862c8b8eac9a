use position_sync::decimal::Coordinate;
use position_sync::dispatch::{apply_command, process, serve_frame, ConnectionEvent, Outcome};
use position_sync::frame::{decode_bulk, encode_get, encode_set, Command, WireFrame};
use position_sync::snapshot::parse_snapshot;
use position_sync::store::PositionStore;

fn at(text: &str) -> Coordinate {
    Coordinate::parse(text).unwrap()
}

fn reply_of(outcome: Outcome) -> WireFrame {
    match outcome {
        Outcome::Reply(frame) => frame,
        Outcome::Close => panic!("the connection was closed"),
    }
}

fn pull(store: &mut PositionStore) -> String {
    let reply = reply_of(serve_frame(store, &encode_get("ALL"), "10.0.0.9"));
    assert!(matches!(reply, WireFrame::Bulk(_)));
    decode_bulk(&reply).ok().unwrap()
}

#[test]
fn two_pushes_then_pull_show_the_last_position_only() {
    let mut store = PositionStore::new();
    let first = reply_of(serve_frame(&mut store, &encode_set("p1", b"3.2,4.9"), "10.0.0.1"));
    assert!(matches!(first, WireFrame::Simple(ref s) if s == "OK"));
    let second = reply_of(serve_frame(&mut store, &encode_set("p1", b"10.0,0.0"), "10.0.0.1"));
    assert!(matches!(second, WireFrame::Simple(ref s) if s == "OK"));
    assert_eq!(store.len(), 1);
    assert_eq!(pull(&mut store), "p1:(10, 0)");
}

#[test]
fn pull_on_empty_store_is_empty_payload_and_zero_records() {
    let mut store = PositionStore::new();
    let payload = pull(&mut store);
    assert_eq!(payload, "");
    let records = parse_snapshot(&payload).ok().unwrap();
    assert_eq!(records.len(), 0);
}

#[test]
fn push_with_bad_coordinate_is_an_error_and_changes_nothing() {
    let mut store = PositionStore::new();
    reply_of(serve_frame(&mut store, &encode_set("p1", b"1,2"), "10.0.0.1"));
    let reply = reply_of(serve_frame(&mut store, &encode_set("p1", b"abc,4"), "10.0.0.1"));
    assert!(matches!(reply, WireFrame::Error(ref s) if s == "Invalid coordinates"));
    let fresh = reply_of(serve_frame(&mut store, &encode_set("p2", b"abc,4"), "10.0.0.2"));
    assert!(matches!(fresh, WireFrame::Error(_)));
    assert_eq!(store.len(), 1);
    assert_eq!(pull(&mut store), "p1:(1, 2)");
}

#[test]
fn end_of_stream_closes_and_leaves_the_store() {
    let mut store = PositionStore::new();
    reply_of(process(&mut store, &ConnectionEvent::Received(encode_set("p1", b"5,6")), "10.0.0.1"));
    assert!(matches!(process(&mut store, &ConnectionEvent::Ended, "10.0.0.1"), Outcome::Close));
    assert!(matches!(process(&mut store, &ConnectionEvent::Failed, "10.0.0.1"), Outcome::Close));
    assert_eq!(pull(&mut store), "p1:(5, 6)");
}

fn bulk(bytes: &[u8]) -> WireFrame {
    WireFrame::Bulk(bytes.to_vec())
}

#[test]
fn a_report_in_capitals_or_simple_entries_is_served() {
    let mut store = PositionStore::new();
    let frame = WireFrame::Array(vec![bulk(b"SET"), bulk(b"p1"), bulk(b"1.5,2.5")]);
    assert!(matches!(reply_of(serve_frame(&mut store, &frame, "h")), WireFrame::Simple(ref s) if s == "OK"));
    let frame = WireFrame::Array(vec![
        WireFrame::Simple("Set".to_string()),
        WireFrame::Simple("p2".to_string()),
        WireFrame::Simple("7,8".to_string()),
    ]);
    assert!(matches!(reply_of(serve_frame(&mut store, &frame, "h")), WireFrame::Simple(ref s) if s == "OK"));
    let frame = WireFrame::Array(vec![bulk(b"GET"), bulk(b"anything")]);
    let reply = reply_of(serve_frame(&mut store, &frame, "h"));
    assert_eq!(decode_bulk(&reply).ok().unwrap(), "p1:(2, 3)|p2:(7, 8)");
}

#[test]
fn a_report_with_an_expiry_is_served_as_a_report() {
    let mut store = PositionStore::new();
    let frame = WireFrame::Array(vec![bulk(b"set"), bulk(b"p1"), bulk(b"1,2"), bulk(b"EX"), WireFrame::Integer(10)]);
    assert!(matches!(reply_of(serve_frame(&mut store, &frame, "h")), WireFrame::Simple(ref s) if s == "OK"));
    assert_eq!(pull(&mut store), "p1:(1, 2)");
}

#[test]
fn a_frame_that_is_no_command_closes_the_connection() {
    let mut store = PositionStore::new();
    reply_of(serve_frame(&mut store, &encode_set("p1", b"1,2"), "h"));
    let frames = vec![
        WireFrame::Null,
        WireFrame::Integer(3),
        WireFrame::Simple("get".to_string()),
        WireFrame::Error("set".to_string()),
        bulk(b"get"),
        WireFrame::Array(vec![]),
        WireFrame::Array(vec![bulk(b"get")]),
        WireFrame::Array(vec![bulk(b"get"), bulk(b"a"), bulk(b"b")]),
        WireFrame::Array(vec![bulk(b"set"), bulk(b"p1")]),
        WireFrame::Array(vec![bulk(b"set"), bulk(b"p1"), bulk(b"1,2"), bulk(b"KEEPTTL")]),
        WireFrame::Array(vec![bulk(b"set"), bulk(&[0xff, 0xfe]), bulk(b"1,2")]),
        WireFrame::Array(vec![bulk(b"get"), WireFrame::Array(vec![bulk(b"a")])]),
        WireFrame::Array(vec![WireFrame::Integer(1), bulk(b"a")]),
        WireFrame::Array(vec![WireFrame::Null]),
    ];
    for frame in &frames {
        assert!(matches!(serve_frame(&mut store, frame, "h"), Outcome::Close));
    }
    assert_eq!(pull(&mut store), "p1:(1, 2)");
}

#[test]
fn a_command_that_is_not_served_closes_the_connection() {
    let mut store = PositionStore::new();
    let frames = vec![
        WireFrame::Array(vec![bulk(b"publish"), bulk(b"channel"), bulk(b"hello")]),
        WireFrame::Array(vec![bulk(b"subscribe"), bulk(b"channel")]),
        WireFrame::Array(vec![bulk(b"unsubscribe")]),
        WireFrame::Array(vec![bulk(b"ping")]),
        WireFrame::Array(vec![bulk(b"del"), bulk(b"p1")]),
    ];
    for frame in &frames {
        assert!(matches!(serve_frame(&mut store, frame, "h"), Outcome::Close));
    }
    assert_eq!(store.len(), 0);
}

#[test]
fn a_report_that_is_not_text_is_answered_with_an_error() {
    let mut store = PositionStore::new();
    reply_of(serve_frame(&mut store, &encode_set("p0", b"4,5"), "h"));
    for value in [&[0xff, 0xfe][..], &[0x31, 0x2c, 0xff], &[0x80]] {
        let reply = reply_of(serve_frame(&mut store, &encode_set("p1", value), "h"));
        assert!(matches!(reply, WireFrame::Error(ref s) if s == "Incorrect coordinate format"));
        let reply = reply_of(process(&mut store, &ConnectionEvent::Received(encode_set("p0", value)), "h"));
        assert!(matches!(reply, WireFrame::Error(_)));
    }
    assert_eq!(store.len(), 1);
    assert!(store.get(&"p1".to_string()).is_none());
    assert_eq!(pull(&mut store), "p0:(4, 5)");
}

#[test]
fn a_report_of_another_shape_is_answered_with_an_error() {
    let mut store = PositionStore::new();
    for value in [&b"12"[..], b"1,2,3", b""] {
        let reply = reply_of(serve_frame(&mut store, &encode_set("p1", value), "h"));
        assert!(matches!(reply, WireFrame::Error(ref s) if s == "Incorrect coordinate format"));
    }
    for value in [&b"abc,4"[..], b"4,abc", b",", b"1, 2"] {
        let reply = reply_of(serve_frame(&mut store, &encode_set("p1", value), "h"));
        assert!(matches!(reply, WireFrame::Error(ref s) if s == "Invalid coordinates"));
    }
    assert_eq!(store.len(), 0);
    assert_eq!(pull(&mut store), "");
}

#[test]
fn commands_are_carried_out_without_a_frame_too() {
    let mut store = PositionStore::new();
    let set = Command::SetValue { key: "p1".to_string(), value: b"3.2,4.9".to_vec() };
    assert!(matches!(reply_of(apply_command(&mut store, set, "h")), WireFrame::Simple(ref s) if s == "OK"));
    let get = Command::GetValue { key: "whatever".to_string() };
    let reply = reply_of(apply_command(&mut store, get, "h"));
    assert!(matches!(reply, WireFrame::Bulk(ref b) if b == b"p1:(3, 5)"));
    assert!(matches!(apply_command(&mut store, Command::Unsupported, "h"), Outcome::Close));
    assert_eq!(store.len(), 1);
}

#[test]
fn the_same_report_many_times_leaves_one_record() {
    let mut store = PositionStore::new();
    store.upsert("p0".to_string(), at("9"), at("9"), "a".to_string());
    for _ in 0..25 {
        store.upsert("p1".to_string(), at("3.2"), at("4.4"), "b".to_string());
    }
    assert_eq!(store.len(), 2);
    let snapshot = store.snapshot();
    assert_eq!(snapshot.iter().filter(|r| r.player_id == "p1").count(), 1);
    assert_eq!((snapshot[1].player_id.as_str(), snapshot[1].x, snapshot[1].y), ("p1", 3, 4));
}

#[test]
fn a_player_keeps_its_place_and_its_first_address() {
    let mut store = PositionStore::new();
    store.upsert("p1".to_string(), at("1"), at("1"), "10.0.0.1".to_string());
    store.upsert("p2".to_string(), at("2.25"), at("2.75"), "10.0.0.2".to_string());
    store.upsert("p1".to_string(), at("5.5"), at("-6.125"), "10.0.0.3".to_string());
    let ids: Vec<String> = store.snapshot().iter().map(|r| r.player_id.clone()).collect();
    assert_eq!(ids, vec!["p1", "p2"]);
    let p1 = store.get(&"p1".to_string()).unwrap();
    assert_eq!(
        (p1.client_ip.as_str(), p1.client_position_x.as_str(), p1.client_position_y.as_str()),
        ("10.0.0.1", "5.5", "-6.125")
    );
    let p2 = store.get(&"p2".to_string()).unwrap();
    assert_eq!(
        (p2.client_ip.as_str(), p2.client_position_x.as_str(), p2.client_position_y.as_str()),
        ("10.0.0.2", "2.25", "2.75")
    );
    assert!(store.get(&"p3".to_string()).is_none());
}

#[test]
fn the_store_only_grows() {
    let mut store = PositionStore::new();
    let mut seen: Vec<String> = Vec::new();
    let frames = vec![
        encode_set("a", b"1,1"),
        encode_get("ALL"),
        encode_set("b", b"x,1"),
        encode_set("b", b"2,2"),
        WireFrame::Null,
        encode_set("a", b"3,3"),
        encode_set("c", b"1"),
        encode_set("c", b"4,4"),
    ];
    for frame in &frames {
        let before = store.len();
        let _ = serve_frame(&mut store, frame, "h");
        assert!(store.len() >= before);
        for id in &seen {
            assert!(store.get(id).is_some());
        }
        seen = store.snapshot().iter().map(|r| r.player_id.clone()).collect();
    }
    assert_eq!(seen, vec!["a", "b", "c"]);
}

#[test]
fn what_the_server_sends_is_what_the_client_reads() {
    let mut store = PositionStore::new();
    store.upsert("p1".to_string(), at("-7.4"), at("11.5"), "h".to_string());
    store.upsert("p2".to_string(), at("1e99"), at("-inf"), "h".to_string());
    let records = parse_snapshot(&pull(&mut store)).ok().unwrap();
    let seen: Vec<(String, i32, i32)> = records.iter().map(|r| (r.player_id.clone(), r.x, r.y)).collect();
    assert_eq!(seen, vec![("p1".to_string(), -7, 12), ("p2".to_string(), i32::MAX, i32::MIN)]);
}

#[test]
fn the_store_keeps_what_was_reported_and_the_snapshot_rounds() {
    let mut store = PositionStore::new();
    let event = ConnectionEvent::Received(encode_set("p1", b"3.2,4.9"));
    assert!(matches!(reply_of(process(&mut store, &event, "h")), WireFrame::Simple(ref s) if s == "OK"));
    let p1 = store.get(&"p1".to_string()).unwrap();
    assert_eq!((p1.client_position_x.as_str(), p1.client_position_y.as_str()), ("3.2", "4.9"));
    assert_eq!((p1.client_position_x.rounded(), p1.client_position_y.rounded()), (3, 5));
    let snapshot = store.snapshot();
    assert_eq!((snapshot[0].player_id.as_str(), snapshot[0].x, snapshot[0].y), ("p1", 3, 5));
    assert_eq!(pull(&mut store), "p1:(3, 5)");

    reply_of(serve_frame(&mut store, &encode_set("p1", b"-0.49999999999,1.5E1"), "h"));
    let p1 = store.get(&"p1".to_string()).unwrap();
    assert_eq!((p1.client_position_x.as_str(), p1.client_position_y.as_str()), ("-0.49999999999", "1.5E1"));
    assert_eq!(pull(&mut store), "p1:(0, 15)");
}
