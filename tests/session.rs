use hi_rust::codec::{evt_to_json, EndpointEvent};
use hi_rust::session::{BridgeError, SessionStore};

fn is_no_connection<E>(r: Result<&E, BridgeError>) -> bool {
    matches!(r, Err(BridgeError::NoConnection))
}

#[test]
fn scenario_connect_receive_close() {
    let mut store: SessionStore<u32> = SessionStore::new();
    let id = store.begin_connect();
    let r = store.connect(id, 7, Some("sig://a/listen123".to_string()));
    assert!(matches!(r, Ok(ref u) if u == "sig://a/listen123"));
    store.deliver(id, &EndpointEvent::Connected { peer_url: "peer://b".to_string() });
    let events = store.get_events();
    assert_eq!(events.len(), 1);
    let v: serde_json::Value = serde_json::from_str(&events[0]).unwrap();
    assert_eq!(v["type"], "Connected");
    assert_eq!(v["peer_url"], "peer://b");
    assert!(store.get_events().is_empty());
    assert_eq!(store.close(), Some(7));
    assert!(is_no_connection(store.endpoint_for_send()));
}

#[test]
fn events_come_back_in_order() {
    let mut store: SessionStore<u32> = SessionStore::new();
    let id = store.begin_connect();
    assert!(store.connect(id, 1, Some("sig://a/l".to_string())).is_ok());
    let evs = vec![
        EndpointEvent::ListeningAddressOpen { local_url: "sig://a/l".to_string() },
        EndpointEvent::Connected { peer_url: "peer://b".to_string() },
        EndpointEvent::Message { peer_url: "peer://b".to_string(), message: b"one".to_vec() },
        EndpointEvent::Message { peer_url: "peer://b".to_string(), message: b"two".to_vec() },
        EndpointEvent::Disconnected { peer_url: "peer://b".to_string() },
    ];
    for e in &evs {
        store.deliver(id, e);
    }
    let expected: Vec<String> = evs.iter().map(evt_to_json).collect();
    assert_eq!(store.get_events(), expected);
    store.deliver(id, &evs[1]);
    assert_eq!(store.get_events(), vec![evt_to_json(&evs[1])]);
}

#[test]
fn get_events_without_session_is_empty() {
    let mut store: SessionStore<u32> = SessionStore::new();
    assert!(store.get_events().is_empty());
    assert!(store.get_events().is_empty());
}

#[test]
fn events_before_publication_are_dropped() {
    let mut store: SessionStore<u32> = SessionStore::new();
    let id = store.begin_connect();
    store.deliver(id, &EndpointEvent::Connected { peer_url: "peer://b".to_string() });
    assert!(store.connect(id, 1, Some("sig://a/l".to_string())).is_ok());
    assert!(store.get_events().is_empty());
}

#[test]
fn send_before_connect_fails() {
    let store: SessionStore<u32> = SessionStore::new();
    assert!(is_no_connection(store.endpoint_for_send()));
}

#[test]
fn send_goes_through_published_endpoint() {
    let mut store: SessionStore<u32> = SessionStore::new();
    let id = store.begin_connect();
    assert!(store.connect(id, 42, Some("sig://a/l".to_string())).is_ok());
    assert!(matches!(store.endpoint_for_send(), Ok(&42)));
}

#[test]
fn failed_connect_leaves_store_empty() {
    let mut store: SessionStore<u32> = SessionStore::new();
    let id = store.begin_connect();
    let r = store.connect(id, 1, None);
    assert!(matches!(r, Err(BridgeError::ConnectionFailed)));
    store.deliver(id, &EndpointEvent::Connected { peer_url: "peer://b".to_string() });
    assert!(store.get_events().is_empty());
    assert!(is_no_connection(store.endpoint_for_send()));
}

#[test]
fn close_twice_is_a_no_op() {
    let mut store: SessionStore<u32> = SessionStore::new();
    assert_eq!(store.close(), None);
    let id = store.begin_connect();
    assert!(store.connect(id, 3, Some("sig://a/l".to_string())).is_ok());
    assert_eq!(store.close(), Some(3));
    assert_eq!(store.close(), None);
    assert!(store.get_events().is_empty());
    assert!(is_no_connection(store.endpoint_for_send()));
}

#[test]
fn stale_drain_task_cannot_feed_new_session() {
    let mut store: SessionStore<u32> = SessionStore::new();
    let first = store.begin_connect();
    assert!(store.connect(first, 1, Some("sig://a/1".to_string())).is_ok());
    store.close();
    let second = store.begin_connect();
    assert_ne!(first, second);
    assert!(store.connect(second, 2, Some("sig://a/2".to_string())).is_ok());
    store.deliver(first, &EndpointEvent::Connected { peer_url: "peer://old".to_string() });
    store.deliver(second, &EndpointEvent::Connected { peer_url: "peer://new".to_string() });
    let events = store.get_events();
    assert_eq!(events.len(), 1);
    assert!(events[0].contains("peer://new"));
}

#[test]
fn new_connect_replaces_session() {
    let mut store: SessionStore<u32> = SessionStore::new();
    let a = store.begin_connect();
    assert!(store.connect(a, 1, Some("sig://a/1".to_string())).is_ok());
    store.deliver(a, &EndpointEvent::Connected { peer_url: "peer://b".to_string() });
    let b = store.begin_connect();
    assert!(store.connect(b, 2, Some("sig://a/2".to_string())).is_ok());
    assert!(store.get_events().is_empty());
    assert!(matches!(store.endpoint_for_send(), Ok(&2)));
}

#[test]
fn error_messages() {
    assert_eq!(BridgeError::ConnectionFailed.message(), "Connection Failed");
    assert_eq!(BridgeError::NoConnection.message(), "No Connection");
    assert_eq!(BridgeError::Parse("bad url".to_string()).message(), "bad url");
    assert_eq!(BridgeError::Transport("unreachable".to_string()).message(), "unreachable");
}
