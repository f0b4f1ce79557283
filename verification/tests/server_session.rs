use wasm_pong::server::actor::{Actor, Observer, Player};
use wasm_pong::server::event::{SessionEvent, SessionEventType};
use wasm_pong::server::hash::Hasher;
use wasm_pong::server::session::{Session, SessionState};
use wasm_pong::server::session_manager::{
    join_refusal_message, session_event_wrappers, JoinSessionError, SessionManager,
};

fn player(id: &str, ip: &str, nr: u8) -> Player {
    Player { id: id.to_owned(), ip: ip.to_owned(), nr }
}

#[test]
fn new_players_and_observers_get_fresh_ids() {
    let a = Player::new(1, String::from("1.2.3.4"));
    let b = Player::new(1, String::from("1.2.3.4"));
    assert_eq!(a.ip, "1.2.3.4");
    assert_eq!(a.nr, 1);
    assert_eq!(a.id.len(), 36);
    assert_ne!(a.id, b.id);
    let o = Observer::new(String::from("5.6.7.8"));
    assert_eq!(o.ip, "5.6.7.8");
    assert_eq!(o.id.chars().nth(8), Some('-'));
    assert_eq!(Actor::Observer(o.clone()).id(), o.id.as_str());
    assert_eq!(Actor::Player(a.clone()).id(), a.id.as_str());
}

#[test]
fn a_session_takes_one_more_player() {
    let mut session = Session::new(3, String::from("h"), player("p1", "ip1", 1));
    assert_eq!(session.state, SessionState::PENDING);
    assert!(session.can_be_joined());
    assert!(session.join(player("p2", "ip2", 2)));
    assert_eq!(session.players.len(), 2);
    assert!(!session.can_be_joined());
    assert!(!session.join(player("p3", "ip3", 3)));
    assert_eq!(session.players.len(), 2);
}

#[test]
fn hash_is_md5_of_the_decimal_number() {
    assert_eq!(Hasher::hash(1), "c4ca4238a0b923820dcc509a6f75849b");
    assert_eq!(Hasher::hash(0), "cfcd208495d565ef66e7dff9f98764da");
    assert_eq!(Hasher::hash(12), "c20ad4d76fe97759aa27a0c99bff6710");
    assert_eq!(Hasher::hash(65535).len(), 32);
}

#[test]
fn session_event_types_ignore_case() {
    assert!(matches!(SessionEventType::from_str("created"), Ok(SessionEventType::Created)));
    assert!(matches!(SessionEventType::from_str("JOINED"), Ok(SessionEventType::Joined)));
    assert!(matches!(SessionEventType::from_str("Closed"), Ok(SessionEventType::Closed)));
    assert!(SessionEventType::from_str("open").is_err());
    assert!(SessionEventType::from_str("").is_err());
}

#[test]
fn session_writer_events_are_keyed_by_partition() {
    let session = Session::new(42, String::from("h"), player("p1", "ip1", 1));
    let events = session_event_wrappers(&session, "session", &vec!["a", "b"]);
    assert_eq!(events.len(), 2);
    assert_eq!(events[0].topic, "session");
    assert_eq!(events[0].key, Some(String::from("42")));
    assert_eq!(events[0].event, "a");
    assert_eq!(events[1].event, "b");
}

#[test]
fn create_and_join_session() {
    let mut manager = SessionManager::new("kafka:9093", "manager:7243");
    assert_eq!(manager.kafka_host(), "kafka:9093");
    assert_eq!(manager.topic_manager().endpoint_url(), "http://manager:7243/add_partition");
    let creator = player("p1", "ip1", 1);
    let created = manager.create_session(Ok(1), creator.clone()).unwrap();
    let hash = Hasher::hash(1);
    match &created {
        SessionEvent::Created(p) => {
            assert_eq!(p.session.id, 1);
            assert_eq!(p.session.hash, hash);
            assert_eq!(p.session.state, SessionState::PENDING);
            assert_eq!(p.reason, "session created");
            assert_eq!(p.actor.id, "p1");
        }
        _ => panic!("expected a created event"),
    }
    assert_eq!(created.session_id(), hash.as_str());
    assert!(manager.get_session(&hash).is_some());

    assert!(matches!(
        manager.join_session(hash.clone(), creator.clone()),
        Err(JoinSessionError::AlreadyJoined)
    ));
    assert!(matches!(
        manager.join_session(String::from("nope"), player("p2", "ip2", 2)),
        Err(JoinSessionError::NotFound)
    ));
    let joined = manager.join_session(hash.clone(), player("p2", "ip2", 2)).unwrap();
    match &joined {
        SessionEvent::Joined(p) => {
            assert_eq!(p.session.state, SessionState::RUNNING);
            assert_eq!(p.session.players.len(), 2);
            assert_eq!(p.reason, "session joined");
        }
        _ => panic!("expected a joined event"),
    }
    let stored = manager.get_session(&hash).unwrap();
    assert_eq!(stored.state, SessionState::RUNNING);
    assert!(matches!(
        manager.join_session(hash.clone(), player("p3", "ip3", 3)),
        Err(JoinSessionError::NotPending)
    ));
}

#[test]
fn failed_partition_creates_no_session() {
    let mut manager = SessionManager::new("k", "m");
    let res = manager.create_session(Err(String::from("no partition")), player("p1", "ip1", 1));
    assert_eq!(res.err(), Some(String::from("no partition")));
    assert!(manager.get_session(&Hasher::hash(0)).is_none());
}

#[test]
fn discarded_session_is_gone() {
    let mut manager = SessionManager::new("k", "m");
    manager.create_session(Ok(5), player("p1", "ip1", 1)).unwrap();
    let hash = Hasher::hash(5);
    manager.discard_session("other");
    assert!(manager.get_session(&hash).is_some());
    manager.discard_session(&hash);
    assert!(manager.get_session(&hash).is_none());
}

#[test]
fn full_session_cannot_be_joined() {
    let mut manager = SessionManager::new("k", "m");
    manager.create_session(Ok(2), player("p1", "ip1", 1)).unwrap();
    let hash = Hasher::hash(2);
    manager.join_session(hash.clone(), player("p2", "ip2", 2)).unwrap();
    assert!(matches!(
        manager.join_session(hash, player("p1", "ip1", 1)),
        Err(JoinSessionError::NotPending)
    ));
}

#[test]
fn created_session_stays_only_when_its_event_was_written() {
    let mut manager = SessionManager::new("k", "m");
    let created = manager.create_session(Ok(6), player("p1", "ip1", 1)).unwrap();
    manager.settle_created_session(&created, &Ok(()));
    assert!(manager.get_session(&Hasher::hash(6)).is_some());

    let lost = manager.create_session(Ok(7), player("p2", "ip2", 2)).unwrap();
    manager.settle_created_session(&lost, &Err(String::from("kafka down")));
    assert!(manager.get_session(&Hasher::hash(7)).is_none());
    assert!(manager.get_session(&Hasher::hash(6)).is_some());
}

#[test]
fn join_refusals_are_explained() {
    assert_eq!(
        join_refusal_message(JoinSessionError::NotFound, "abc", "P"),
        "Can't join session that does not exist: abc"
    );
    assert_eq!(
        join_refusal_message(JoinSessionError::NotPending, "abc", "P"),
        "Can't join session that is not PENDING: abc"
    );
    assert_eq!(
        join_refusal_message(JoinSessionError::Full, "abc", "P"),
        "Can't join session with more than 1 player: abc"
    );
    assert_eq!(
        join_refusal_message(JoinSessionError::AlreadyJoined, "abc", "Player { id: \"1\" }"),
        "Can't join session, because player Player { id: \"1\" } is already in session: abc"
    );
}

#[test]
fn fresh_ids_have_the_uuid_shape() {
    let p = Player::new(2, String::from("ip"));
    let o = Observer::new(String::from("ip"));
    for id in [&p.id, &o.id] {
        for k in [8, 13, 18, 23] {
            assert_eq!(id.chars().nth(k), Some('-'));
        }
    }
}
