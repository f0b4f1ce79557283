use wasm_pong::pong::event::EventWrapper;
use wasm_pong::server::actor::Player;
use wasm_pong::server::event::{event_kind, PongEventKind, SessionEvent};
use wasm_pong::server::hash::Hasher;
use wasm_pong::server::http::{check_ws_upgrade, param};
use wasm_pong::server::kafka::{
    group_by_topic, partition_answer, polled_events, signed_decimal_string, KafkaTopicManager,
    PartitionAnswerError, Poll,
};
use wasm_pong::server::request_handler::{lookup_requested_session, route, Route};
use wasm_pong::server::session::{Session, SessionState};
use wasm_pong::server::session_manager::SessionManager;
use wasm_pong::server::utils::{query_params, unescape, well_formed_query};
use wasm_pong::server::websocket;
use wasm_pong::server::websocket_handler::{
    frame_decision, select_client_events, session_closed_event, snapshot_topic, ClientFrame,
    FrameDecision, WebSocketConnectionType,
};

fn pairs(v: &[(&str, &str)]) -> Vec<(String, String)> {
    v.iter().map(|(k, v)| (k.to_string(), v.to_string())).collect()
}

fn event(topic: &str, payload: &str) -> EventWrapper {
    EventWrapper { topic: topic.to_owned(), key: None, event: payload.to_owned() }
}

#[test]
fn get_query_params_tests() {
    assert_eq!(query_params(Some("test=abc")), pairs(&[("test", "abc")]));
    assert_eq!(
        query_params(Some("test=abc&help=123")),
        pairs(&[("test", "abc"), ("help", "123")])
    );
    assert_eq!(
        query_params(Some("topic=status&key=abc")),
        pairs(&[("topic", "status"), ("key", "abc")])
    );
    assert_eq!(query_params(Some("a=b=c&d=")), pairs(&[("a", "b=c"), ("d", "")]));
    assert!(query_params(None).is_empty());
}

#[test]
fn query_well_formedness() {
    assert!(well_formed_query("a=1&b=2"));
    assert!(!well_formed_query(""));
    assert!(!well_formed_query("a=1&b"));
    assert!(!well_formed_query("a=1&&b=2"));
    assert!(well_formed_query("=&="));
}

#[test]
fn unescape_replaces_escaped_quotes() {
    assert_eq!(unescape("{\\\"a\\\": 1}"), "{\"a\": 1}");
    assert_eq!(unescape("plain"), "plain");
    assert_eq!(unescape("\\\\\""), "\\\"");
    assert_eq!(unescape("\\"), "\\");
}

#[test]
fn topics_per_connection_type() {
    assert_eq!(WebSocketConnectionType::HOST.get_topics(), &["peer_tick", "session"]);
    assert_eq!(WebSocketConnectionType::PEER.get_topics(), &["host_tick", "session"]);
    assert_eq!(WebSocketConnectionType::OBSERVER.get_topics(), &["host_tick", "session"]);
    assert_eq!(websocket::WebSocketConnectionType::HOST.get_topics(), &["input", "session"]);
    assert_eq!(
        websocket::WebSocketConnectionType::OBSERVER.get_topics(),
        &["move", "input", "status", "session"]
    );
}

#[test]
fn connection_types_parse_ignoring_case() {
    assert_eq!(WebSocketConnectionType::from_str("Host"), Ok(WebSocketConnectionType::HOST));
    assert_eq!(WebSocketConnectionType::from_str("PEER"), Ok(WebSocketConnectionType::PEER));
    assert_eq!(
        websocket::WebSocketConnectionType::from_str("observer"),
        Ok(websocket::WebSocketConnectionType::OBSERVER)
    );
    assert_eq!(WebSocketConnectionType::from_str("guest"), Err(()));
}

#[test]
fn client_batches_put_session_events_first() {
    let events = vec![
        event("host_tick", "h1"),
        event("session", "s1"),
        event("peer_tick", "p1"),
        event("host_tick", "h2"),
    ];
    let for_peer = select_client_events(&events, &WebSocketConnectionType::PEER);
    let views: Vec<(&str, &str)> =
        for_peer.iter().map(|e| (e.topic.as_str(), e.event.as_str())).collect();
    assert_eq!(views, vec![("session", "s1"), ("tick", "h1"), ("tick", "h2")]);
    let for_host = select_client_events(&events, &WebSocketConnectionType::HOST);
    let views: Vec<(&str, &str)> =
        for_host.iter().map(|e| (e.topic.as_str(), e.event.as_str())).collect();
    assert_eq!(views, vec![("session", "s1"), ("tick", "p1")]);
}

#[test]
fn closing_a_websocket_closes_the_session() {
    let p = Player { id: "p1".to_owned(), ip: "ip".to_owned(), nr: 1 };
    let session = Session::new(1, "h".to_owned(), p.clone());
    match session_closed_event(&session, &p, "bye") {
        SessionEvent::Closed(payload) => {
            assert_eq!(payload.session.state, SessionState::CLOSED);
            assert_eq!(payload.session.hash, "h");
            assert_eq!(payload.reason, "ws closed: bye");
            assert_eq!(payload.actor.id, "p1");
        }
        _ => panic!("expected a closed event"),
    }
    assert_eq!(session.state, SessionState::PENDING);
}

#[test]
fn topic_manager_endpoint() {
    let m = KafkaTopicManager::from("localhost:7243");
    assert_eq!(m.endpoint_url(), "http://localhost:7243/add_partition");
}

#[test]
fn events_group_by_topic_in_first_appearance_order() {
    let groups = group_by_topic(vec![
        event("move", "1"),
        event("input", "2"),
        event("move", "3"),
        event("session", "4"),
        event("input", "5"),
    ]);
    let views: Vec<(String, Vec<String>)> = groups
        .iter()
        .map(|(t, es)| (t.clone(), es.iter().map(|e| e.event.clone()).collect()))
        .collect();
    assert_eq!(
        views,
        vec![
            ("move".to_owned(), vec!["1".to_owned(), "3".to_owned()]),
            ("input".to_owned(), vec!["2".to_owned(), "5".to_owned()]),
            ("session".to_owned(), vec!["4".to_owned()]),
        ]
    );
    assert!(group_by_topic(vec![]).is_empty());
}

#[test]
fn params_use_the_last_occurrence() {
    let params = pairs(&[("a", "1"), ("b", "2"), ("a", "3")]);
    assert_eq!(param(&params, "a"), Some(&"3".to_owned()));
    assert_eq!(param(&params, "b"), Some(&"2".to_owned()));
    assert_eq!(param(&params, "c"), None);
}

#[test]
fn requests_are_routed() {
    assert_eq!(route("GET", "/session"), Route::GetSession);
    assert_eq!(route("POST", "/create_session"), Route::CreateSession);
    assert_eq!(route("POST", "/join_session"), Route::JoinSession);
    assert_eq!(route("POST", "/watch_session"), Route::WatchSession);
    assert_eq!(route("POST", "/session"), Route::Unknown);
}

fn manager_with_session() -> (SessionManager, String) {
    let mut manager = SessionManager::new("k", "m");
    let p = Player { id: "p1".to_owned(), ip: "10.0.0.1".to_owned(), nr: 1 };
    manager.create_session(Ok(7), p).unwrap();
    (manager, Hasher::hash(7))
}

#[test]
fn session_requests_need_an_existing_session() {
    let (manager, hash) = manager_with_session();
    assert_eq!(
        lookup_requested_session(&manager, &pairs(&[])).err(),
        Some((400, "Please provide a valid session id".to_owned()))
    );
    assert_eq!(
        lookup_requested_session(&manager, &pairs(&[("session_id", "x")])).err(),
        Some((404, "Unable to find session for given id".to_owned()))
    );
    let session = lookup_requested_session(&manager, &pairs(&[("session_id", &hash)])).unwrap();
    assert_eq!(session.id, 7);
}

#[test]
fn websocket_upgrades_are_checked_in_order() {
    let (manager, hash) = manager_with_session();
    let refusal = |params: Vec<(String, String)>, ip: &str| check_ws_upgrade(&manager, &params, ip).err();
    assert_eq!(
        refusal(pairs(&[]), "10.0.0.1"),
        Some((400, "Missing request param: session_id".to_owned()))
    );
    assert_eq!(
        refusal(pairs(&[("session_id", &hash)]), "10.0.0.1"),
        Some((400, "Missing request param: player_id".to_owned()))
    );
    assert_eq!(
        refusal(pairs(&[("session_id", &hash), ("player_id", "p1")]), "10.0.0.1"),
        Some((400, "Missing request param: connection_type".to_owned()))
    );
    assert_eq!(
        refusal(pairs(&[("session_id", "x"), ("player_id", "p1"), ("connection_type", "host")]), "10.0.0.1"),
        Some((404, "Session does not exist: x".to_owned()))
    );
    assert_eq!(
        refusal(pairs(&[("session_id", &hash), ("player_id", "p9"), ("connection_type", "host")]), "10.0.0.1"),
        Some((403, "Player is not registered in session: p9".to_owned()))
    );
    assert_eq!(
        refusal(pairs(&[("session_id", &hash), ("player_id", "p1"), ("connection_type", "host")]), "10.0.0.2"),
        Some((
            403,
            "Player with wrong ip tried to join session: 10.0.0.1 (expected) vs 10.0.0.2 (actual)".to_owned()
        ))
    );
    assert_eq!(
        refusal(pairs(&[("session_id", &hash), ("player_id", "p1"), ("connection_type", "guest")]), "10.0.0.1"),
        Some((400, "Invalid connection type: guest".to_owned()))
    );
    let accepted = check_ws_upgrade(
        &manager,
        &pairs(&[("session_id", &hash), ("player_id", "p1"), ("connection_type", "HOST")]),
        "10.0.0.1",
    )
    .unwrap();
    assert_eq!(accepted.connection_type, WebSocketConnectionType::HOST);
    assert_eq!(accepted.player.id, "p1");
    assert_eq!(accepted.session.hash, hash);
}

#[test]
fn event_topics_name_their_payload_kind() {
    assert_eq!(event_kind("move"), Some(PongEventKind::Move));
    assert_eq!(event_kind("input"), Some(PongEventKind::Input));
    assert_eq!(event_kind("status"), Some(PongEventKind::Status));
    assert_eq!(event_kind("heart_beat"), Some(PongEventKind::HeartBeat));
    assert_eq!(event_kind("session"), Some(PongEventKind::Session));
    assert_eq!(event_kind("tick"), None);
}

#[test]
fn snapshots_go_to_the_senders_tick_topic() {
    assert_eq!(snapshot_topic(&WebSocketConnectionType::HOST), Some("host_tick"));
    assert_eq!(snapshot_topic(&WebSocketConnectionType::PEER), Some("peer_tick"));
    assert_eq!(snapshot_topic(&WebSocketConnectionType::OBSERVER), None);
}

#[test]
fn session_messages_come_back_as_session_events() {
    let p = Player { id: "p1".to_owned(), ip: "ip".to_owned(), nr: 1 };
    let session = Session::new(4, "h".to_owned(), p);
    let written = wasm_pong::server::session_manager::session_event_wrappers(&session, "session", &vec!["x", "y"]);
    for connection_type in [WebSocketConnectionType::HOST, WebSocketConnectionType::PEER] {
        let delivered = select_client_events(&written, &connection_type);
        let views: Vec<(&str, &str)> =
            delivered.iter().map(|e| (e.topic.as_str(), e.event.as_str())).collect();
        assert_eq!(views, vec![("session", "x"), ("session", "y")]);
    }
}

#[test]
fn partition_answers_are_read_in_order() {
    assert_eq!(partition_answer(200, Some("{\"data\": 4}"), Some(4)).unwrap(), 4);
    assert!(matches!(partition_answer(200, None, Some(4)), Err(PartitionAnswerError::NotText)));
    match partition_answer(500, Some("boom"), None) {
        Err(PartitionAnswerError::Refused(m)) => assert_eq!(m, "failed to add partition: boom"),
        other => panic!("unexpected {:?}", other),
    }
    assert!(matches!(partition_answer(200, Some("{}"), None), Err(PartitionAnswerError::NoPartition)));
}

#[test]
fn polls_become_events_or_errors() {
    assert!(polled_events("move", 3, Poll::TimedOut).unwrap().is_empty());
    assert_eq!(polled_events("move", 3, Poll::Ended).unwrap_err(), "No record.");
    assert_eq!(
        polled_events("move", 3, Poll::Failed(String::from("Offset"))).unwrap_err(),
        "Failed to extract record for move / 3: Offset"
    );
    let events =
        polled_events("input", 12, Poll::Record(Some(String::from("12")), String::from("{}"))).unwrap();
    assert_eq!(events.len(), 1);
    assert_eq!(events[0].topic, "input");
    assert_eq!(events[0].key, Some(String::from("12")));
    assert_eq!(events[0].event, "{}");
}

#[test]
fn signed_numbers_are_written_in_decimal() {
    assert_eq!(signed_decimal_string(0), "0");
    assert_eq!(signed_decimal_string(1234), "1234");
    assert_eq!(signed_decimal_string(-56), "-56");
    assert_eq!(signed_decimal_string(i32::MIN), "-2147483648");
}

#[test]
fn client_frames_go_to_their_topics() {
    let host = WebSocketConnectionType::HOST;
    let observer = WebSocketConnectionType::OBSERVER;
    assert!(matches!(frame_decision("a", "b", ClientFrame::HeartBeat, &host), FrameDecision::OtherSession));
    assert!(matches!(
        frame_decision("a", "a", ClientFrame::HeartBeat, &observer),
        FrameDecision::Write("heart_beat")
    ));
    assert!(matches!(
        frame_decision("a", "a", ClientFrame::Snapshot, &host),
        FrameDecision::Write("host_tick")
    ));
    assert!(matches!(
        frame_decision("a", "a", ClientFrame::Snapshot, &WebSocketConnectionType::PEER),
        FrameDecision::Write("peer_tick")
    ));
    assert!(matches!(frame_decision("a", "a", ClientFrame::Snapshot, &observer), FrameDecision::Nothing));
}

#[test]
fn connection_types_ignore_ascii_case() {
    assert_eq!(WebSocketConnectionType::from_str("hOsT"), Ok(WebSocketConnectionType::HOST));
    assert_eq!(WebSocketConnectionType::from_str("OBSERVER"), Ok(WebSocketConnectionType::OBSERVER));
    assert_eq!(WebSocketConnectionType::from_str("HOST "), Err(()));
}
