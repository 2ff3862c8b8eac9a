use position_sync::frame::{decode_bulk, encode_get, encode_set, ProtocolError, WireFrame};
use position_sync::main_state::{apply_server_update, MainState, PullPlan, GET_INTERVAL_MS};
use position_sync::network_client::{read_server_update, NetworkClient, UpdateError};
use position_sync::other_player::{OtherPlayer, RemoteCache};
use position_sync::store::SnapshotRecord;

fn entries(cache: &RemoteCache) -> Vec<(String, i32, i32)> {
    (0..cache.len())
        .map(|i| {
            let e = cache.entry(i);
            (e.id.clone(), e.player.position_x, e.player.position_y)
        })
        .collect()
}

fn payload(text: &str) -> WireFrame {
    WireFrame::Bulk(text.as_bytes().to_vec())
}

fn parts(frame: &WireFrame) -> Vec<Vec<u8>> {
    match frame {
        WireFrame::Array(entries) => entries
            .iter()
            .map(|e| match e {
                WireFrame::Bulk(b) => b.clone(),
                _ => panic!("an entry is not bulk"),
            })
            .collect(),
        _ => panic!("the frame is not an array"),
    }
}

fn connected_client() -> NetworkClient {
    NetworkClient::initialize_and_connect("127.0.0.1:6379", Ok(()))
}

#[test]
fn a_set_frame_is_three_bulk_entries() {
    assert_eq!(parts(&encode_set("p1", b"3.2,4.9")), vec![b"set".to_vec(), b"p1".to_vec(), b"3.2,4.9".to_vec()]);
    assert_eq!(parts(&encode_set("", b"")), vec![b"set".to_vec(), vec![], vec![]]);
    assert_eq!(parts(&encode_set("é", &[0xff])), vec![b"set".to_vec(), "é".as_bytes().to_vec(), vec![0xff]]);
}

#[test]
fn a_get_frame_is_two_bulk_entries() {
    assert_eq!(parts(&encode_get("ALL")), vec![b"get".to_vec(), b"ALL".to_vec()]);
    assert_eq!(parts(&encode_get("PUD")), vec![b"get".to_vec(), b"PUD".to_vec()]);
}

#[test]
fn a_payload_is_the_text_of_a_bulk_or_simple_frame() {
    assert_eq!(decode_bulk(&payload("p1:(1, 2)")).ok().unwrap(), "p1:(1, 2)");
    assert_eq!(decode_bulk(&payload("")).ok().unwrap(), "");
    assert_eq!(decode_bulk(&payload("日本語")).ok().unwrap(), "日本語");
    assert_eq!(decode_bulk(&WireFrame::Simple("p1:(1, 2)".to_string())).ok().unwrap(), "p1:(1, 2)");
}

#[test]
fn a_frame_without_text_is_malformed() {
    let frames = vec![
        WireFrame::Bulk(vec![0xff, 0xfe]),
        WireFrame::Bulk(vec![b'a', 0xc3]),
        WireFrame::Null,
        WireFrame::Integer(1),
        WireFrame::Error("no".to_string()),
        WireFrame::Array(vec![payload("p1:(1, 2)")]),
    ];
    for frame in &frames {
        assert!(matches!(decode_bulk(frame), Err(ProtocolError::Malformed)));
    }
}

#[test]
fn a_new_client_has_a_fresh_hyphenated_id() {
    let client = NetworkClient::initialize("127.0.0.1:6379");
    assert_eq!(client.server_address, "127.0.0.1:6379");
    assert!(!client.is_connected());
    let id: Vec<char> = client.client_id.chars().collect();
    assert_eq!(id.len(), 36);
    for (i, c) in id.iter().enumerate() {
        if i == 8 || i == 13 || i == 18 || i == 23 {
            assert_eq!(*c, '-');
        } else {
            assert!(c.is_ascii_digit() || ('a'..='f').contains(c));
        }
    }
    assert_eq!(id[14], '4');
    let other = NetworkClient::initialize("127.0.0.1:6379");
    assert_ne!(client.client_id, other.client_id);
}

#[test]
fn connecting_succeeds_or_hands_the_failure_back() {
    let mut client = NetworkClient::initialize("host:1");
    let id = client.client_id.clone();
    assert_eq!(client.connect(Err("refused".to_string())), Err("Connection error: refused".to_string()));
    assert!(!client.is_connected());
    assert_eq!(client.connect(Ok(())), Ok(()));
    assert!(client.is_connected());
    assert_eq!(client.connect(Err("lost".to_string())), Err("Connection error: lost".to_string()));
    assert!(client.is_connected());
    assert_eq!(client.client_id, id);
    assert_eq!(client.server_address, "host:1");
}

#[test]
fn a_client_comes_back_whether_the_server_was_reached_or_not() {
    let up = NetworkClient::initialize_and_connect("host:1", Ok(()));
    assert!(up.is_connected());
    let down = NetworkClient::initialize_and_connect("host:1", Err("refused".to_string()));
    assert!(!down.is_connected());
    assert_eq!(down.server_address, "host:1");
    assert_eq!(down.client_id.len(), 36);
}

#[test]
fn a_position_is_reported_under_the_client_id() {
    let client = connected_client();
    let frame = client.set_player_position("3.2", "4.9").unwrap();
    assert_eq!(parts(&frame), vec![b"set".to_vec(), client.client_id.as_bytes().to_vec(), b"3.2,4.9".to_vec()]);
}

#[test]
fn nothing_is_sent_without_a_connection() {
    let client = NetworkClient::initialize("host:1");
    assert!(client.set_player_position("1", "2").is_none());
    assert!(client.request_server_update("PUD").is_none());
}

#[test]
fn a_snapshot_is_asked_for_under_the_given_key() {
    let client = connected_client();
    assert_eq!(parts(&client.request_server_update("ALL").unwrap()), vec![b"get".to_vec(), b"ALL".to_vec()]);
}

#[test]
fn a_response_is_read_as_a_snapshot() {
    let client = connected_client();
    let read = |frame: &WireFrame| client.get_server_update(Some(frame));
    let records = read(&payload("p1:(1, 2)|p2:(3.6, -4.4)")).ok().unwrap();
    let seen: Vec<(String, i32, i32)> = records.iter().map(|r| (r.player_id.clone(), r.x, r.y)).collect();
    assert_eq!(seen, vec![("p1".to_string(), 1, 2), ("p2".to_string(), 4, -4)]);
    let records = read(&payload("p1:(1), (2)")).ok().unwrap();
    let seen: Vec<(String, i32, i32)> = records.iter().map(|r| (r.player_id.clone(), r.x, r.y)).collect();
    assert_eq!(seen, vec![("p1".to_string(), 1, 2)]);
    assert_eq!(read(&payload("")).ok().unwrap().len(), 0);
    assert!(matches!(read(&WireFrame::Null), Err(UpdateError::Protocol(ProtocolError::Malformed))));
    assert!(matches!(read(&WireFrame::Bulk(vec![0x80])), Err(UpdateError::Protocol(ProtocolError::Malformed))));
    assert!(matches!(
        read(&payload("p1:(1, 2)|p2:(bad)")),
        Err(UpdateError::Protocol(ProtocolError::BadRecord(ref id))) if id == "p2"
    ));
    assert!(matches!(client.get_server_update(None), Err(UpdateError::NoResponse)));
}

#[test]
fn a_client_without_a_connection_gets_an_error_whatever_it_is_handed() {
    let mut client = NetworkClient::initialize("host:1");
    let id = client.client_id.clone();
    assert!(client.request_server_update("PUD").is_none());
    assert!(matches!(client.get_server_update(None), Err(UpdateError::NotConnected)));
    assert!(matches!(client.get_server_update(Some(&payload("p1:(1, 2)"))), Err(UpdateError::NotConnected)));
    assert!(matches!(client.get_server_update(Some(&WireFrame::Null)), Err(UpdateError::NotConnected)));
    assert_eq!(client.client_id, id);
    let _ = client.connect(Err("refused".to_string()));
    assert!(matches!(client.get_server_update(Some(&payload("p1:(1, 2)"))), Err(UpdateError::NotConnected)));
    let _ = client.connect(Ok(()));
    assert_eq!(client.get_server_update(Some(&payload("p1:(1, 2)"))).ok().unwrap().len(), 1);
    assert_eq!(client.client_id, id);
}

#[test]
fn a_response_can_be_read_without_a_client() {
    assert_eq!(read_server_update(&payload("a:(1, 2)|b:(3, 4)")).ok().unwrap().len(), 2);
    assert!(matches!(read_server_update(&WireFrame::Integer(1)), Err(ProtocolError::Malformed)));
    assert!(matches!(read_server_update(&payload("a")), Err(ProtocolError::BadRecord(ref id)) if id == "a"));
}

#[test]
fn a_client_made_with_an_id_has_that_id() {
    let client = NetworkClient::with_id("host:7", "player-one".to_string());
    assert_eq!(client.client_id, "player-one");
    assert_eq!(client.server_address, "host:7");
    assert!(!client.is_connected());
    let frame = NetworkClient::initialize_and_connect("host:7", Ok(())).set_player_position("1", "2");
    assert!(frame.is_some());
    let mut named = NetworkClient::with_id("host:7", "player-one".to_string());
    let _ = named.connect(Ok(()));
    assert_eq!(
        parts(&named.set_player_position("1.5", "-2").unwrap()),
        vec![b"set".to_vec(), b"player-one".to_vec(), b"1.5,-2".to_vec()]
    );
}

#[test]
fn every_tick_reports_and_pulls_wait_for_the_interval() {
    let mut state = MainState::new(connected_client(), 1000);
    assert_eq!(state.get_interval, 50);
    assert_eq!(GET_INTERVAL_MS, 50);
    assert_eq!(state.last_get_time, 1000);
    let id = state.network_client.client_id.clone();

    let plan = state.update(1016, "1.5", "2");
    assert_eq!(parts(&plan.push.unwrap()), vec![b"set".to_vec(), id.as_bytes().to_vec(), b"1.5,2".to_vec()]);
    assert!(matches!(plan.pull, PullPlan::NotDue));
    assert_eq!(state.last_get_time, 1000);

    let plan = state.update(1050, "1.5", "2");
    assert!(plan.push.is_some());
    assert!(matches!(plan.pull, PullPlan::NotDue));
    assert_eq!(state.last_get_time, 1000);

    let plan = state.update(1051, "3", "4");
    assert_eq!(parts(&plan.push.unwrap()), vec![b"set".to_vec(), id.as_bytes().to_vec(), b"3,4".to_vec()]);
    match plan.pull {
        PullPlan::Request(frame) => assert_eq!(parts(&frame), vec![b"get".to_vec(), b"PUD".to_vec()]),
        _ => panic!("a pull was due"),
    }
    assert_eq!(state.last_get_time, 1051);

    let plan = state.update(1101, "3", "4");
    assert!(matches!(plan.pull, PullPlan::NotDue));
    let plan = state.update(1102, "3", "4");
    assert!(matches!(plan.pull, PullPlan::Request(_)));
    assert_eq!(state.last_get_time, 1102);
}

#[test]
fn a_clock_that_steps_back_asks_for_nothing() {
    let mut state = MainState::new(connected_client(), 1000);
    let plan = state.update(10, "0", "0");
    assert!(plan.push.is_some());
    assert!(matches!(plan.pull, PullPlan::NotDue));
    assert_eq!(state.last_get_time, 1000);
    let plan = state.update(u64::MAX, "0", "0");
    assert!(matches!(plan.pull, PullPlan::Request(_)));
    assert_eq!(state.last_get_time, u64::MAX);
}

#[test]
fn without_a_connection_a_tick_sends_nothing_but_keeps_time() {
    let mut state = MainState::new(NetworkClient::initialize("host:1"), 0);
    let plan = state.update(10, "1", "2");
    assert!(plan.push.is_none());
    assert!(matches!(plan.pull, PullPlan::NotDue));
    let plan = state.update(51, "1", "2");
    assert!(plan.push.is_none());
    assert!(matches!(plan.pull, PullPlan::NotConnected));
    assert_eq!(state.last_get_time, 51);
}

#[test]
fn a_remote_player_starts_at_the_origin_and_moves() {
    let mut player = OtherPlayer::new();
    assert_eq!((player.position_x, player.position_y), (0, 0));
    player.update_position(-3, 9);
    assert_eq!((player.position_x, player.position_y), (-3, 9));
}

#[test]
fn reconciling_adds_moves_and_never_removes() {
    let mut cache = RemoteCache::new();
    assert_eq!(cache.len(), 0);
    let me = "me".to_string();
    assert!(apply_server_update(&mut cache, &me, &payload("a:(1, 2)|b:(3, 4)")).is_ok());
    assert_eq!(entries(&cache), vec![("a".to_string(), 1, 2), ("b".to_string(), 3, 4)]);
    assert!(apply_server_update(&mut cache, &me, &payload("c:(5, 6)|a:(7, 8)")).is_ok());
    assert_eq!(
        entries(&cache),
        vec![("a".to_string(), 7, 8), ("b".to_string(), 3, 4), ("c".to_string(), 5, 6)]
    );
    assert!(apply_server_update(&mut cache, &me, &payload("")).is_ok());
    assert_eq!(cache.len(), 3);
    assert_eq!(cache.position_of(&"b".to_string()), Some((3, 4)));
    assert_eq!(cache.position_of(&"z".to_string()), None);
}

#[test]
fn reconciling_leaves_the_local_player_out() {
    let mut cache = RemoteCache::new();
    let me = "me".to_string();
    assert!(apply_server_update(&mut cache, &me, &payload("me:(1, 2)|a:(3, 4)|me:(5, 6)")).is_ok());
    assert_eq!(entries(&cache), vec![("a".to_string(), 3, 4)]);
    assert_eq!(cache.position_of(&me), None);
    assert!(apply_server_update(&mut cache, &me, &payload("me:(9, 9)")).is_ok());
    assert_eq!(entries(&cache), vec![("a".to_string(), 3, 4)]);
}

#[test]
fn the_last_of_two_records_for_one_player_wins() {
    let mut cache = RemoteCache::new();
    let records = vec![
        SnapshotRecord { player_id: "a".to_string(), x: 1, y: 1 },
        SnapshotRecord { player_id: "a".to_string(), x: 2, y: 2 },
    ];
    cache.reconcile(&records, &"me".to_string());
    assert_eq!(entries(&cache), vec![("a".to_string(), 2, 2)]);
    cache.place("b".to_string(), 4, 4);
    cache.place("a".to_string(), 3, 3);
    assert_eq!(entries(&cache), vec![("a".to_string(), 3, 3), ("b".to_string(), 4, 4)]);
}

#[test]
fn a_bad_snapshot_leaves_the_cache_unchanged() {
    let mut cache = RemoteCache::new();
    let me = "me".to_string();
    assert!(apply_server_update(&mut cache, &me, &payload("p1:(0, 0)|p3:(3, 3)")).is_ok());
    let before = entries(&cache);
    let failure = apply_server_update(&mut cache, &me, &payload("p1:(1, 2)|p2:(bad)"));
    assert!(matches!(failure, Err(ProtocolError::BadRecord(ref id)) if id == "p2"));
    assert_eq!(entries(&cache), before);
    let failure = apply_server_update(&mut cache, &me, &WireFrame::Bulk(vec![0xff]));
    assert!(matches!(failure, Err(ProtocolError::Malformed)));
    assert_eq!(entries(&cache), before);
    let failure = apply_server_update(&mut cache, &me, &WireFrame::Null);
    assert!(matches!(failure, Err(ProtocolError::Malformed)));
    assert_eq!(entries(&cache), before);
}
