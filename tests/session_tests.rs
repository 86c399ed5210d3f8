use serde_json::Value;
use signalk::client::{SubscribeMode, WsQueryParams};
use signalk::clock::{current_timestamp, format_timestamp, format_uuid, generate_uuid, hex_string, padded_string};
use signalk::messages::{ClientMessage, PutRequest, PutSpec, PutState, SubscribeRequest, Subscription, UnsubscribeRequest, UnsubscribeSpec};
use signalk::model::{Delta, PathValue, Update};
use signalk::session::{CoreSession, SessionState};
use signalk::store::MemoryStore;

fn nav_delta() -> Delta {
    Delta {
        context: Some("vessels.self".to_string()),
        updates: vec![Update {
            source_ref: Some("test.source".to_string()),
            source: None,
            timestamp: Some("2024-01-17T12:00:00.000Z".to_string()),
            values: vec![PathValue { path: "navigation.speedOverGround".to_string(), value: Value::from(5.5) }],
            meta: None,
        }],
    }
}

#[test]
fn session_opens_with_hello_and_cached_values() {
    let mut store = MemoryStore::new("vessels.urn:mrn:signalk:uuid:test-vessel");
    store.apply_delta(&nav_delta());
    let mut s = CoreSession::new(WsQueryParams::default());
    assert_eq!(s.state(), SessionState::Opening);
    let (hello, cached) = s.open("srv", "1.7.0", "2024-01-17T12:00:00.000Z".to_string(), &store);
    assert_eq!(hello.self_urn, "vessels.urn:mrn:signalk:uuid:test-vessel");
    assert_eq!(hello.version, "1.7.0");
    assert!(hello.roles.contains(&"main".to_string()));
    let cached = cached.unwrap();
    assert_eq!(cached.context.as_deref(), Some("vessels.self"));
    assert_eq!(cached.updates[0].values[0].path, "navigation.speedOverGround");
    assert_eq!(cached.updates[0].source_ref.as_deref(), Some("test.source"));
    assert_eq!(s.state(), SessionState::Open);
    let out = s.outbound(&nav_delta(), 0).unwrap();
    assert_eq!(out.0.updates[0].values[0].value, Value::from(5.5));
    assert_eq!(out.1, vec![0]);
}

#[test]
fn session_with_no_subscription_sends_no_cached_values() {
    let mut store = MemoryStore::new("vessels.urn:mrn:signalk:uuid:test-vessel");
    store.apply_delta(&nav_delta());
    let mut s = CoreSession::new(WsQueryParams { subscribe: SubscribeMode::None_, send_cached_values: true });
    let (_, cached) = s.open("srv", "1.7.0", "t".to_string(), &store);
    assert!(cached.is_none());
    assert!(s.outbound(&nav_delta(), 0).is_none());
}

#[test]
fn put_is_refused_and_session_stays_open() {
    let mut s = CoreSession::new(WsQueryParams::default());
    s.open("srv", "1.7.0", "t".to_string(), &MemoryStore::new("vessels.urn:x"));
    let put = ClientMessage::Put(PutRequest {
        context: None,
        request_id: "X".to_string(),
        put: PutSpec { path: "steering.autopilot.target.headingTrue".to_string(), value: Value::from(1.5), source: None },
    });
    let resp = s.handle_message(Some(&put)).put_response.unwrap();
    assert_eq!(resp.request_id, "X");
    assert_eq!(resp.state, PutState::Failed);
    assert_eq!(resp.status_code, 501);
    assert_eq!(s.state(), SessionState::Open);
    assert!(s.handle_message(None).put_response.is_none());
    assert_eq!(s.state(), SessionState::Open);
}

#[test]
fn unsubscribe_all_silences_until_subscribe() {
    let mut s = CoreSession::new(WsQueryParams::default());
    s.open("srv", "1.7.0", "t".to_string(), &MemoryStore::new("vessels.urn:x"));
    let unsub = ClientMessage::Unsubscribe(UnsubscribeRequest {
        context: "*".to_string(),
        unsubscribe: vec![UnsubscribeSpec { path: "*".to_string() }],
    });
    s.handle_message(Some(&unsub));
    assert!(s.outbound(&nav_delta(), 0).is_none());
    let sub = ClientMessage::Subscribe(SubscribeRequest {
        context: "vessels.self".to_string(),
        subscribe: vec![Subscription { path: "navigation.*".to_string(), period: None, format: None, policy: None, min_period: None }],
    });
    s.handle_message(Some(&sub));
    assert!(s.outbound(&nav_delta(), 0).is_some());
    s.close();
    assert_eq!(s.state(), SessionState::Closed);
    assert!(s.outbound(&nav_delta(), 0).is_none());
    assert!(s.subscription().is_empty());
}

#[test]
fn throttle_moves_only_on_delivery() {
    let mut s = CoreSession::new(WsQueryParams { subscribe: SubscribeMode::None_, send_cached_values: false });
    s.open("srv", "1.7.0", "t".to_string(), &MemoryStore::new("vessels.urn:x"));
    let sub = ClientMessage::Subscribe(SubscribeRequest {
        context: "vessels.self".to_string(),
        subscribe: vec![Subscription { path: "navigation.*".to_string(), period: None, format: None, policy: None, min_period: Some(1000) }],
    });
    s.handle_message(Some(&sub));
    let first = s.outbound(&nav_delta(), 0).unwrap();
    assert!(s.outbound(&nav_delta(), 500).is_some());
    s.delivered(&first.1, 500);
    assert!(s.outbound(&nav_delta(), 1499).is_none());
    assert!(s.outbound(&nav_delta(), 1500).is_some());
}

#[test]
fn timestamps_and_identifiers() {
    assert_eq!(padded_string(7, 3), "007");
    assert_eq!(padded_string(12345, 3), "12345");
    assert_eq!(hex_string(255), "ff");
    assert_eq!(format_timestamp(3661, 5), "1970-01-01T01:01:01.005Z");
    assert_eq!(format_timestamp(1705492800, 0), "2024-01-17T12:00:00.000Z");
    assert_eq!(format_timestamp(951782400, 0), "2000-02-29T00:00:00.000Z");
    assert_eq!(format_timestamp(4107542399, 999), "2100-02-28T23:59:59.999Z");
    assert_eq!(format_timestamp(0, 0), "1970-01-01T00:00:00.000Z");
    assert_eq!(format_uuid(0x1_0000_0002, 0x0003_0004), "00000002-0001-0003-0004-000100030006");
    assert!(current_timestamp().ends_with('Z'));
    assert_eq!(generate_uuid().len(), 36);
}

#[test]
fn cached_values_follow_the_subscription() {
    let mut store = MemoryStore::new("vessels.urn:mrn:signalk:uuid:test-vessel");
    store.apply_delta(&nav_delta());
    let mut other = nav_delta();
    other.updates[0].values[0].path = "environment.depth.belowKeel".to_string();
    other.updates[0].source_ref = None;
    store.apply_delta(&other);
    let mut s = CoreSession::new(WsQueryParams { subscribe: SubscribeMode::All, send_cached_values: true });
    let (_, cached) = s.open("srv", "1.7.0", "t".to_string(), &store);
    assert_eq!(cached.unwrap().updates[0].values.len(), 2);
    let mut q = CoreSession::new(WsQueryParams { subscribe: SubscribeMode::Self_, send_cached_values: false });
    assert!(q.open("srv", "1.7.0", "t".to_string(), &store).1.is_none());
}

#[test]
fn subscribe_rates_give_warnings() {
    let mut s = CoreSession::new(WsQueryParams::default());
    s.open("srv", "1.7.0", "t".to_string(), &MemoryStore::new("vessels.urn:x"));
    let sub = ClientMessage::Subscribe(SubscribeRequest {
        context: "vessels.self".to_string(),
        subscribe: vec![Subscription {
            path: "navigation.*".to_string(),
            period: None,
            format: None,
            policy: Some(signalk::messages::SubscriptionPolicy::Ideal),
            min_period: Some(100),
        }],
    });
    let out = s.handle_message(Some(&sub));
    assert!(out.put_response.is_none());
    assert_eq!(out.warnings, vec!["minPeriod assumes policy 'instant', ignoring policy Ideal".to_string()]);
}
