use serde_json::Value;
use signalk::client::{
    apply_subscribe, apply_unsubscribe, default_subscription_for_mode, process_client_message,
    should_send_delta_throttled, ClientSubscription, SubscribeMode, ThrottledPattern, WsQueryParams,
};
use signalk::messages::{
    ClientMessage, HelloMessage, PutRequest, PutSpec, PutState, SubscribeRequest, Subscription,
    UnsubscribeRequest, UnsubscribeSpec, put_not_implemented,
};
use signalk::model::{Delta, PathValue, Update};
use signalk::path::PathPattern;
use signalk::store::{MemoryStore, PathNode};

const URN: &str = "vessels.urn:mrn:signalk:uuid:test-vessel";

fn delta(context: &str, values: Vec<(&str, Value)>) -> Delta {
    Delta {
        context: Some(context.to_string()),
        updates: vec![Update {
            source_ref: Some("test.source".to_string()),
            source: None,
            timestamp: Some("2024-01-17T12:00:00.000Z".to_string()),
            values: values.into_iter().map(|(p, v)| PathValue { path: p.to_string(), value: v }).collect(),
            meta: None,
        }],
    }
}

fn subscribe(context: &str, path: &str, min_period: Option<u64>) -> SubscribeRequest {
    SubscribeRequest {
        context: context.to_string(),
        subscribe: vec![Subscription { path: path.to_string(), period: None, format: None, policy: None, min_period }],
    }
}

fn paths(d: &Delta) -> Vec<String> {
    d.updates.iter().flat_map(|u| u.values.iter().map(|v| v.path.clone())).collect()
}

#[test]
fn mode_names_are_read_in_any_case() {
    assert_eq!(SubscribeMode::from_str("all"), SubscribeMode::All);
    assert_eq!(SubscribeMode::from_str("ALL"), SubscribeMode::All);
    assert_eq!(SubscribeMode::from_str("None"), SubscribeMode::None_);
    assert_eq!(SubscribeMode::from_str("self"), SubscribeMode::Self_);
    assert_eq!(SubscribeMode::from_str("other"), SubscribeMode::Self_);
}

#[test]
fn query_parameters_are_parsed() {
    let p = WsQueryParams::parse("subscribe=all&sendCachedValues=false");
    assert_eq!(p.subscribe, SubscribeMode::All);
    assert!(!p.send_cached_values);
    let d = WsQueryParams::parse("");
    assert_eq!(d, WsQueryParams::default());
    assert_eq!(d.subscribe, SubscribeMode::Self_);
    assert!(d.send_cached_values);
    let n = WsQueryParams::parse("serverevents=all&subscribe=NONE&x");
    assert_eq!(n.subscribe, SubscribeMode::None_);
    assert!(n.send_cached_values);
}

#[test]
fn hello_and_first_delta() {
    let hello = HelloMessage::new("signalk-server", "1.7.0", URN);
    assert_eq!(hello.version, "1.7.0");
    assert_eq!(hello.self_urn, "vessels.urn:mrn:signalk:uuid:test-vessel");
    assert!(hello.roles.iter().any(|r| r == "main"));

    let mut store = MemoryStore::new(URN);
    let sub = default_subscription_for_mode(SubscribeMode::Self_);
    let d = delta("vessels.self", vec![("navigation.speedOverGround", Value::from(5.5))]);
    store.apply_delta(&d);
    let out = sub.select_delta(&d, 0).unwrap();
    assert_eq!(out.updates[0].values[0].path, "navigation.speedOverGround");
    assert_eq!(out.updates[0].values[0].value, Value::from(5.5));
    assert!(matches!(store.get_self_path("navigation.speedOverGround"), Some(PathNode::Value(_))));
}

#[test]
fn subscription_filter_keeps_default_pattern() {
    let start = default_subscription_for_mode(SubscribeMode::Self_);
    let sub = apply_subscribe(&start, &subscribe("vessels.self", "navigation.*", None));
    assert_eq!(sub.pattern_count(), 2);
    let d = delta(
        "vessels.self",
        vec![("navigation.speedOverGround", Value::from(5.5)), ("environment.wind.speedApparent", Value::from(10.0))],
    );
    let out = sub.select_delta(&d, 0).unwrap();
    assert!(paths(&out).contains(&"navigation.speedOverGround".to_string()));
    assert!(paths(&out).contains(&"environment.wind.speedApparent".to_string()));

    let fresh = apply_subscribe(&default_subscription_for_mode(SubscribeMode::None_), &subscribe("vessels.self", "navigation.*", None));
    let out = fresh.select_delta(&d, 0).unwrap();
    assert_eq!(paths(&out), vec!["navigation.speedOverGround".to_string()]);
}

#[test]
fn throttled_pattern_sends_once_per_period() {
    let start = default_subscription_for_mode(SubscribeMode::None_);
    let mut sub = apply_subscribe(&start, &subscribe("vessels.self", "sensors.*", Some(1000)));
    let d = delta("vessels.self", vec![("sensors.x", Value::from(1))]);
    let mut sent_at = Vec::new();
    for t in [0u64, 10, 20, 30, 40, 999, 1000, 1500, 2000] {
        if let Some(_out) = sub.select_delta(&d, t) {
            let idx = should_send_delta_throttled(&sub, &d, t);
            sub.mark_all_sent(&idx, t);
            sent_at.push(t);
        }
    }
    assert_eq!(sent_at, vec![0, 1000, 2000]);
}

#[test]
fn throttle_state_moves_only_when_marked() {
    let mut sub = ClientSubscription::new_throttled(
        Some("*".to_string()),
        vec![ThrottledPattern::new(PathPattern::new("a.*").unwrap(), 0, 500)],
    );
    assert_eq!(sub.should_send_path("a.b", 0), Some(0));
    assert_eq!(sub.should_send_path("a.b", 100), Some(0));
    sub.mark_sent(0, 100);
    assert_eq!(sub.should_send_path("a.b", 599), None);
    assert_eq!(sub.should_send_path("a.b", 600), Some(0));
    assert_eq!(sub.patterns[0].last_sent(), Some(100));
    sub.mark_sent(5, 700);
    assert_eq!(sub.patterns[0].last_sent(), Some(100));
}

#[test]
fn unsubscribe_all_then_resubscribe() {
    let start = default_subscription_for_mode(SubscribeMode::Self_);
    let req = UnsubscribeRequest { context: "*".to_string(), unsubscribe: vec![UnsubscribeSpec { path: "*".to_string() }] };
    let quiet = apply_unsubscribe(&start, &req);
    assert!(quiet.is_empty());
    let d = delta("vessels.self", vec![("navigation.speedOverGround", Value::from(5.5))]);
    assert!(quiet.select_delta(&d, 0).is_none());
    let again = apply_subscribe(&quiet, &subscribe("vessels.self", "navigation.*", None));
    assert!(again.select_delta(&d, 0).is_some());
}

#[test]
fn put_is_answered_not_implemented() {
    let req = PutRequest {
        context: None,
        request_id: "X".to_string(),
        put: PutSpec { path: "steering.autopilot.target.headingTrue".to_string(), value: Value::from(1.5), source: None },
    };
    let resp = put_not_implemented(&req);
    assert_eq!(resp.request_id, "X");
    assert_eq!(resp.state, PutState::Failed);
    assert_eq!(resp.status_code, 501);
    let sub = default_subscription_for_mode(SubscribeMode::Self_);
    assert!(process_client_message(&ClientMessage::Put(req), &sub).is_none());
}

#[test]
fn context_filters() {
    let self_sub = default_subscription_for_mode(SubscribeMode::Self_);
    assert!(self_sub.matches_context(Some("vessels.self")));
    assert!(self_sub.matches_context(Some("vessels.urn:mrn:x")));
    assert!(!self_sub.matches_context(Some("aircraft.x")));
    assert!(!self_sub.matches_context(None));
    let all = default_subscription_for_mode(SubscribeMode::All);
    assert!(all.matches_context(Some("aircraft.x")));
    let none = default_subscription_for_mode(SubscribeMode::None_);
    assert!(!none.matches_context(Some("vessels.self")));
    assert!(none.is_empty());
}

#[test]
fn subscribing_more_never_forwards_less() {
    let start = apply_subscribe(&default_subscription_for_mode(SubscribeMode::None_), &subscribe("vessels.self", "navigation.*", None));
    let more = apply_subscribe(&start, &subscribe("vessels.self", "environment.*", None));
    let d = delta("vessels.self", vec![("navigation.a", Value::from(1)), ("environment.b", Value::from(2))]);
    let before = paths(&start.select_delta(&d, 0).unwrap());
    let after = paths(&more.select_delta(&d, 0).unwrap());
    assert!(before.iter().all(|p| after.contains(p)));
    assert_eq!(after.len(), 2);
}

#[test]
fn resubscribing_a_pattern_resets_its_throttle() {
    let start = default_subscription_for_mode(SubscribeMode::None_);
    let mut sub = apply_subscribe(&start, &subscribe("vessels.self", "sensors.*", Some(1000)));
    sub.mark_sent(0, 0);
    assert!(sub.should_send_path("sensors.x", 10).is_none());
    let again = apply_subscribe(&sub, &subscribe("vessels.self", "sensors.*", Some(1000)));
    assert_eq!(again.pattern_count(), 1);
    assert_eq!(again.should_send_path("sensors.x", 10), Some(0));
}

#[test]
fn matched_indices_are_listed_once() {
    let sub = ClientSubscription::new(
        Some("*".to_string()),
        vec![PathPattern::new("a.*").unwrap(), PathPattern::new("*").unwrap()],
    );
    let d = delta("x.y", vec![("a.b", Value::from(1)), ("a.c", Value::from(2)), ("z", Value::from(3))]);
    assert_eq!(should_send_delta_throttled(&sub, &d, 0), vec![0, 1]);
    assert!(sub.matches_path("q"));
}

#[test]
fn meta_and_source_survive_selection() {
    let sub = default_subscription_for_mode(SubscribeMode::All);
    let mut d = delta("vessels.self", vec![("a.b", Value::from(1))]);
    d.updates[0].meta = Some(vec![signalk::model::PathMeta { path: "a.b".to_string(), value: Value::from("m") }]);
    let out = sub.select_delta(&d, 0).unwrap();
    assert_eq!(out, d);
}
