use serde_json::Value;
use signalk::messages::{Subscription, SubscriptionPolicy};
use signalk::model::{Delta, PathValue, Update};
use signalk::store::MemoryStore;
use signalk::subscription::{ClientSubscription, SubscriptionManager};

fn sub(path: &str) -> Subscription {
    Subscription { path: path.to_string(), period: None, format: None, policy: None, min_period: None }
}

fn one_update(source_ref: &str, timestamp: &str, values: Vec<(&str, Value)>) -> Update {
    Update {
        source_ref: Some(source_ref.to_string()),
        source: None,
        timestamp: Some(timestamp.to_string()),
        values: values.into_iter().map(|(p, v)| PathValue { path: p.to_string(), value: v }).collect(),
        meta: None,
    }
}

fn self_delta(updates: Vec<Update>) -> Delta {
    Delta { context: Some("vessels.self".to_string()), updates }
}

#[test]
fn test_subscription_matching() {
    let sub = ClientSubscription::new("vessels.self", "navigation.*");

    assert!(sub.matches("vessels.self", "navigation.speedOverGround"));
    assert!(sub.matches("vessels.self", "navigation.position"));
    assert!(!sub.matches("vessels.self", "environment.wind.speedApparent"));
    assert!(!sub.matches("vessels.other", "navigation.speedOverGround"));
}

#[test]
fn test_wildcard_context() {
    let sub = ClientSubscription::new("*", "navigation.position");

    assert!(sub.matches("vessels.self", "navigation.position"));
    assert!(sub.matches("vessels.urn:mrn:test", "navigation.position"));
    assert!(!sub.matches("vessels.self", "navigation.speedOverGround"));
}

#[test]
fn test_subscription_manager() {
    let mut mgr = SubscriptionManager::new("vessels.urn:mrn:signalk:uuid:test");

    assert!(!mgr.matches("vessels.self", "navigation.position"));

    mgr.subscribe_self_all();
    assert!(mgr.matches("vessels.self", "navigation.position"));
    assert!(mgr.matches("vessels.self", "environment.wind.speedApparent"));

    mgr.subscribe_none();
    mgr.add_subscriptions(
        "vessels.self",
        &[Subscription {
            path: "navigation.*".to_string(),
            period: Some(1000),
            format: None,
            policy: None,
            min_period: None,
        }],
    );

    assert!(mgr.matches("vessels.self", "navigation.position"));
    assert!(!mgr.matches("vessels.self", "environment.wind.speedApparent"));
}

#[test]
fn test_filter_delta() {
    let mut mgr = SubscriptionManager::new("vessels.urn:mrn:signalk:uuid:test");
    mgr.add_subscriptions("vessels.self", &[sub("navigation.*")]);

    let delta = self_delta(vec![one_update(
        "test",
        "2024-01-01T00:00:00Z",
        vec![
            ("navigation.speedOverGround", Value::from(3.5)),
            ("environment.wind.speedApparent", Value::from(5.0)),
        ],
    )]);

    let filtered = mgr.filter_delta(&delta).unwrap();
    assert_eq!(filtered.updates.len(), 1);
    assert_eq!(filtered.updates[0].values.len(), 1);
    assert_eq!(filtered.updates[0].values[0].path, "navigation.speedOverGround");
}

#[test]
fn test_subscription_with_period() {
    let mut mgr = SubscriptionManager::new("vessels.urn:mrn:signalk:uuid:test");
    mgr.add_subscriptions(
        "vessels.self",
        &[Subscription {
            path: "navigation.*".to_string(),
            period: Some(1000),
            format: None,
            policy: Some(SubscriptionPolicy::Instant),
            min_period: Some(100),
        }],
    );

    assert!(mgr.matches("vessels.self", "navigation.speedOverGround"));
}

#[test]
fn test_unsubscribe_specific_path() {
    let mut mgr = SubscriptionManager::new("vessels.urn:mrn:signalk:uuid:test");
    mgr.add_subscriptions("vessels.self", &[sub("navigation.*"), sub("environment.*")]);

    assert!(mgr.matches("vessels.self", "navigation.speedOverGround"));
    assert!(mgr.matches("vessels.self", "environment.wind.speedApparent"));

    mgr.remove_subscription("vessels.self", "navigation.*");

    assert!(!mgr.matches("vessels.self", "navigation.speedOverGround"));
    assert!(mgr.matches("vessels.self", "environment.wind.speedApparent"));
}

#[test]
fn test_filter_delta_no_match() {
    let mut mgr = SubscriptionManager::new("vessels.urn:mrn:signalk:uuid:test");
    mgr.add_subscriptions("vessels.self", &[sub("navigation.*")]);

    let delta = self_delta(vec![one_update(
        "test",
        "2024-01-01T00:00:00Z",
        vec![("environment.wind.speedApparent", Value::from(5.0))],
    )]);

    let filtered = mgr.filter_delta(&delta);
    assert!(filtered.is_none());
}

#[test]
fn test_filter_preserves_metadata() {
    let mut mgr = SubscriptionManager::new("vessels.urn:mrn:signalk:uuid:test");
    mgr.add_subscriptions("vessels.self", &[sub("navigation.*")]);

    let delta = self_delta(vec![one_update(
        "gps",
        "2024-01-01T00:00:00Z",
        vec![("navigation.speedOverGround", Value::from(3.5))],
    )]);

    let filtered = mgr.filter_delta(&delta).unwrap();
    assert_eq!(filtered.updates[0].source_ref, Some("gps".to_string()));
    assert_eq!(filtered.updates[0].timestamp, Some("2024-01-01T00:00:00Z".to_string()));
}

#[test]
fn test_multiple_matching_subscriptions() {
    let mut mgr = SubscriptionManager::new("vessels.urn:mrn:signalk:uuid:test");
    mgr.add_subscriptions("vessels.self", &[sub("navigation.*"), sub("navigation.speedOverGround")]);
    assert!(mgr.matches("vessels.self", "navigation.speedOverGround"));
}

#[test]
fn test_context_resolution_with_urn() {
    let sub = ClientSubscription::new("vessels.self", "navigation.*");
    assert!(sub.matches("vessels.self", "navigation.speedOverGround"));
    assert!(sub.matches("vessels.urn:mrn:signalk:uuid:test", "navigation.speedOverGround"));
}

#[test]
fn test_wildcard_all_contexts() {
    let sub = ClientSubscription::new("*", "*");
    assert!(sub.matches("vessels.self", "navigation.speedOverGround"));
    assert!(sub.matches("vessels.urn:mrn:test", "environment.wind.speedApparent"));
    assert!(sub.matches("aircraft.self", "navigation.position"));
}

#[test]
fn test_filter_multiple_updates() {
    let mut mgr = SubscriptionManager::new("vessels.urn:mrn:signalk:uuid:test");
    mgr.add_subscriptions("vessels.self", &[sub("navigation.*")]);

    let delta = self_delta(vec![
        one_update("gps", "2024-01-01T00:00:00Z", vec![("navigation.speedOverGround", Value::from(3.5))]),
        one_update("wind", "2024-01-01T00:00:01Z", vec![("environment.wind.speedApparent", Value::from(10.0))]),
    ]);

    let filtered = mgr.filter_delta(&delta).unwrap();
    assert_eq!(filtered.updates.len(), 1);
    assert_eq!(filtered.updates[0].source_ref, Some("gps".to_string()));
}

#[test]
fn test_get_initial_delta_empty_store() {
    let store = MemoryStore::new("vessels.urn:mrn:signalk:uuid:test");
    let mut mgr = SubscriptionManager::new("vessels.urn:mrn:signalk:uuid:test");
    mgr.subscribe_self_all();
    let initial = mgr.get_initial_delta(&store);
    assert!(initial.is_none());
}

#[test]
fn test_get_initial_delta_no_subscriptions() {
    let mut store = MemoryStore::new("vessels.urn:mrn:signalk:uuid:test");
    let mgr = SubscriptionManager::new("vessels.urn:mrn:signalk:uuid:test");
    store.apply_delta(&self_delta(vec![one_update(
        "test",
        "2024-01-01T00:00:00Z",
        vec![("navigation.speedOverGround", Value::from(3.5))],
    )]));
    let initial = mgr.get_initial_delta(&store);
    assert!(initial.is_none());
}

#[test]
fn test_get_initial_delta_with_data() {
    let mut store = MemoryStore::new("vessels.urn:mrn:signalk:uuid:test");
    let mut mgr = SubscriptionManager::new("vessels.urn:mrn:signalk:uuid:test");
    mgr.subscribe_self_all();
    store.apply_delta(&self_delta(vec![one_update(
        "gps",
        "2024-01-01T00:00:00Z",
        vec![("navigation.speedOverGround", Value::from(3.5))],
    )]));

    let initial = mgr.get_initial_delta(&store).unwrap();
    assert_eq!(initial.context, Some("vessels.self".to_string()));
    assert_eq!(initial.updates.len(), 1);

    let values = &initial.updates[0].values;
    let speed_value = values.iter().find(|pv| pv.path == "navigation.speedOverGround");
    assert!(speed_value.is_some());
    assert_eq!(speed_value.unwrap().value, Value::from(3.5));
}

#[test]
fn test_get_initial_delta_filters_by_subscription() {
    let mut store = MemoryStore::new("vessels.urn:mrn:signalk:uuid:test");
    let mut mgr = SubscriptionManager::new("vessels.urn:mrn:signalk:uuid:test");
    mgr.add_subscriptions("vessels.self", &[sub("navigation.*")]);
    store.apply_delta(&self_delta(vec![one_update(
        "test",
        "2024-01-01T00:00:00Z",
        vec![
            ("navigation.speedOverGround", Value::from(3.5)),
            ("environment.wind.speedApparent", Value::from(10.0)),
        ],
    )]));

    let initial = mgr.get_initial_delta(&store).unwrap();
    let paths: Vec<&str> = initial.updates[0].values.iter().map(|pv| pv.path.as_str()).collect();
    assert!(paths.contains(&"navigation.speedOverGround"));
    assert!(!paths.contains(&"environment.wind.speedApparent"));
}

#[test]
fn test_get_initial_delta_preserves_source_and_timestamp() {
    let mut store = MemoryStore::new("vessels.urn:mrn:signalk:uuid:test");
    let mut mgr = SubscriptionManager::new("vessels.urn:mrn:signalk:uuid:test");
    mgr.subscribe_self_all();
    store.apply_delta(&self_delta(vec![one_update(
        "nmea0183.GP",
        "2024-01-17T10:30:00.000Z",
        vec![("navigation.speedOverGround", Value::from(3.5))],
    )]));

    let initial = mgr.get_initial_delta(&store).unwrap();
    assert_eq!(initial.updates[0].source_ref, Some("nmea0183.GP".to_string()));
    assert_eq!(initial.updates[0].timestamp, Some("2024-01-17T10:30:00.000Z".to_string()));
}

#[test]
fn test_get_initial_delta_multiple_paths() {
    let mut store = MemoryStore::new("vessels.urn:mrn:signalk:uuid:test");
    let mut mgr = SubscriptionManager::new("vessels.urn:mrn:signalk:uuid:test");
    mgr.subscribe_self_all();
    store.apply_delta(&self_delta(vec![one_update(
        "test",
        "2024-01-01T00:00:00Z",
        vec![
            ("navigation.speedOverGround", Value::from(3.5)),
            ("navigation.courseOverGroundTrue", Value::from(1.52)),
            ("environment.wind.speedApparent", Value::from(10.0)),
        ],
    )]));

    let initial = mgr.get_initial_delta(&store).unwrap();
    assert_eq!(initial.updates[0].values.len(), 3);
}

#[test]
fn inconsistent_rates_give_warnings() {
    let mut mgr = SubscriptionManager::new("vessels.urn:mrn:signalk:uuid:test");
    let warnings = mgr.add_subscriptions(
        "vessels.self",
        &[
            Subscription {
                path: "a.*".to_string(),
                period: None,
                format: None,
                policy: Some(SubscriptionPolicy::Fixed),
                min_period: Some(200),
            },
            Subscription {
                path: "b.*".to_string(),
                period: Some(1000),
                format: None,
                policy: Some(SubscriptionPolicy::Ideal),
                min_period: None,
            },
        ],
    );
    assert_eq!(
        warnings,
        vec![
            "minPeriod assumes policy 'instant', ignoring policy Fixed".to_string(),
            "period assumes policy 'fixed', ignoring policy Ideal".to_string(),
        ]
    );
}

#[test]
fn empty_pattern_entry_is_dropped() {
    let mut mgr = SubscriptionManager::new("vessels.urn:mrn:signalk:uuid:test");
    mgr.add_subscriptions("vessels.self", &[sub(""), sub("navigation.*")]);
    assert!(mgr.matches("vessels.self", "navigation.position"));
    assert!(!mgr.matches("vessels.self", "environment.depth"));
}

#[test]
fn unsubscribe_everything() {
    let mut mgr = SubscriptionManager::new("vessels.urn:mrn:signalk:uuid:test");
    mgr.subscribe_all();
    assert!(mgr.matches("aircraft.x", "a.b"));
    mgr.remove_subscription("*", "*");
    assert!(!mgr.matches("aircraft.x", "a.b"));
}

#[test]
fn unsubscribing_star_removes_all_in_any_context() {
    let mut mgr = SubscriptionManager::new("vessels.urn:mrn:signalk:uuid:test");
    mgr.subscribe_self_all();
    mgr.add_subscriptions("vessels.self", &[sub("navigation.*")]);
    mgr.remove_subscription("x", "*");
    assert!(!mgr.matches("vessels.self", "navigation.position"));
    assert!(!mgr.matches("vessels.self", "a.b"));
}

#[test]
fn unsubscribing_a_path_ignores_context() {
    let mut mgr = SubscriptionManager::new("vessels.urn:mrn:signalk:uuid:test");
    mgr.add_subscriptions("vessels.self", &[sub("navigation.*"), sub("environment.*")]);
    mgr.remove_subscription("vessels.other", "navigation.*");
    assert!(!mgr.matches("vessels.self", "navigation.position"));
    assert!(mgr.matches("vessels.self", "environment.depth"));
}

#[test]
fn resubscribing_a_path_replaces_it() {
    let mut mgr = SubscriptionManager::new("vessels.urn:mrn:signalk:uuid:test");
    mgr.subscribe_self_all();
    mgr.subscribe_self_all();
    mgr.add_subscriptions("vessels.self", &[sub("navigation.*")]);
    mgr.add_subscriptions("*", &[sub("navigation.*"), sub("navigation.*")]);
    assert!(mgr.matches("aircraft.x", "navigation.position"));
    mgr.remove_subscription("*", "navigation.*");
    assert!(!mgr.matches("aircraft.x", "navigation.position"));
    assert!(mgr.matches("vessels.self", "a.b"));
    mgr.remove_subscription("vessels.self", "*");
    assert!(!mgr.matches("vessels.self", "a.b"));
}
