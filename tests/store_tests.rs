use serde_json::Value;
use signalk::model::{Delta, PathValue, Source, Update};
use signalk::store::{MemoryStore, PathNode, SourceEntry, StoredValue};

const URN: &str = "vessels.urn:mrn:signalk:uuid:test-vessel";

fn update(source_ref: Option<&str>, timestamp: Option<&str>, values: Vec<(&str, Value)>) -> Update {
    Update {
        source_ref: source_ref.map(|s| s.to_string()),
        source: None,
        timestamp: timestamp.map(|s| s.to_string()),
        values: values
            .into_iter()
            .map(|(p, v)| PathValue { path: p.to_string(), value: v })
            .collect(),
        meta: None,
    }
}

fn delta(context: &str, updates: Vec<Update>) -> Delta {
    Delta { context: Some(context.to_string()), updates }
}

fn leaf(node: Option<PathNode>) -> StoredValue {
    match node {
        Some(PathNode::Value(v)) => v,
        other => panic!("expected a value, got {:?}", other),
    }
}

fn reading<'a>(v: &'a StoredValue, source: &str) -> &'a signalk::store::SourceValue {
    v.values.iter().find(|r| r.source_ref == source).expect("source reading")
}

fn source<'a>(sources: &'a [SourceEntry], label: &str) -> &'a SourceEntry {
    sources.iter().find(|s| s.label == label).expect("source label")
}

fn position() -> Value {
    let mut m = serde_json::Map::new();
    m.insert("latitude".to_string(), Value::from(47.123456));
    m.insert("longitude".to_string(), Value::from(-122.654321));
    Value::Object(m)
}

#[test]
fn test_new_store() {
    let store = MemoryStore::new("vessels.urn:mrn:signalk:uuid:test-vessel");
    assert_eq!(store.self_urn(), "vessels.urn:mrn:signalk:uuid:test-vessel");

    let full = store.full_model();
    assert_eq!(full.version(), "1.7.0");
    assert_eq!(full.self_urn(), "vessels.urn:mrn:signalk:uuid:test-vessel");
    assert!(matches!(full.get_path("vessels"), Some(PathNode::Subtree(_))));
    assert!(matches!(full.get_path("vessels.urn:mrn:signalk:uuid:test-vessel"), Some(PathNode::Subtree(_))));
    assert!(full.get_sources().is_empty());
}

#[test]
fn test_apply_delta() {
    let mut store = MemoryStore::new(URN);
    store.apply_delta(&delta(
        "vessels.self",
        vec![update(
            Some("test.source"),
            Some("2024-01-17T10:30:00.000Z"),
            vec![("navigation.speedOverGround", Value::from(3.85))],
        )],
    ));

    let value = leaf(store.get_self_path("navigation.speedOverGround"));
    assert_eq!(value.value, Value::from(3.85));
    assert_eq!(value.source_ref.as_deref(), Some("test.source"));
    assert_eq!(value.timestamp.as_deref(), Some("2024-01-17T10:30:00.000Z"));
}

#[test]
fn test_get_context() {
    let mut store = MemoryStore::new(URN);
    store.apply_delta(&delta(
        "vessels.self",
        vec![update(
            Some("test.source"),
            None,
            vec![
                ("navigation.speedOverGround", Value::from(3.85)),
                ("navigation.courseOverGroundTrue", Value::from(1.52)),
            ],
        )],
    ));

    let context = store.get_context("vessels.self").unwrap();
    match context {
        PathNode::Subtree(leaves) => {
            let sog = leaves
                .iter()
                .find(|l| l.path == vec!["navigation".to_string(), "speedOverGround".to_string()])
                .unwrap();
            assert!(sog.stored.value == Value::from(3.85));
        }
        PathNode::Value(_) => panic!("expected a subtree"),
    }
}

#[test]
fn test_multiple_updates_same_path() {
    let mut store = MemoryStore::new(URN);
    store.apply_delta(&delta(
        "vessels.self",
        vec![update(Some("gps1"), Some("2024-01-17T10:00:00.000Z"), vec![("navigation.speedOverGround", Value::from(3.85))])],
    ));
    store.apply_delta(&delta(
        "vessels.self",
        vec![update(Some("gps2"), Some("2024-01-17T10:01:00.000Z"), vec![("navigation.speedOverGround", Value::from(4.12))])],
    ));

    let value = leaf(store.get_self_path("navigation.speedOverGround"));
    assert_eq!(value.value, Value::from(4.12));
    assert_eq!(value.source_ref.as_deref(), Some("gps2"));
}

#[test]
fn test_nested_path_creation() {
    let mut store = MemoryStore::new(URN);
    store.apply_delta(&delta(
        "vessels.self",
        vec![update(Some("test"), Some("2024-01-17T10:00:00.000Z"), vec![("propulsion.mainEngine.oilTemperature", Value::from(85.5))])],
    ));

    let value = leaf(store.get_self_path("propulsion.mainEngine.oilTemperature"));
    assert_eq!(value.value, Value::from(85.5));
    assert!(matches!(store.get_self_path("propulsion.mainEngine"), Some(PathNode::Subtree(_))));
}

#[test]
fn test_get_path_absolute() {
    let mut store = MemoryStore::new(URN);
    store.apply_delta(&delta(
        "vessels.self",
        vec![update(Some("test"), None, vec![("navigation.speedOverGround", Value::from(3.85))])],
    ));

    let value = leaf(store.get_path("vessels.urn:mrn:signalk:uuid:test-vessel.navigation.speedOverGround"));
    assert_eq!(value.value, Value::from(3.85));
}

#[test]
fn test_get_path_nonexistent() {
    let store = MemoryStore::new(URN);
    let value = store.get_self_path("navigation.nonexistent");
    assert!(value.is_none());
}

#[test]
fn test_complex_value_types() {
    let mut store = MemoryStore::new(URN);
    store.apply_delta(&delta(
        "vessels.self",
        vec![update(
            Some("gps"),
            Some("2024-01-17T10:00:00.000Z"),
            vec![
                ("navigation.position", position()),
                ("navigation.speedOverGround", Value::from(3.85)),
                ("navigation.destination.waypoint", Value::from("WP001")),
            ],
        )],
    ));

    let position = leaf(store.get_self_path("navigation.position"));
    assert_eq!(position.value["latitude"], 47.123456);
    assert_eq!(position.value["longitude"], -122.654321);

    let speed = leaf(store.get_self_path("navigation.speedOverGround"));
    assert_eq!(speed.value, 3.85);

    let waypoint = leaf(store.get_self_path("navigation.destination.waypoint"));
    assert_eq!(waypoint.value, "WP001");
}

#[test]
fn store_test_null_value_handling() {
    let mut store = MemoryStore::new(URN);
    store.apply_delta(&delta(
        "vessels.self",
        vec![update(Some("test"), Some("2024-01-17T10:00:00.000Z"), vec![("navigation.speedOverGround", Value::from(3.85))])],
    ));
    store.apply_delta(&delta(
        "vessels.self",
        vec![update(Some("test"), Some("2024-01-17T10:01:00.000Z"), vec![("navigation.speedOverGround", Value::Null)])],
    ));

    let value = leaf(store.get_self_path("navigation.speedOverGround"));
    assert!(value.value.is_null());
}

#[test]
fn test_multiple_contexts() {
    let mut store = MemoryStore::new(URN);
    store.apply_delta(&delta("vessels.self", vec![update(Some("test"), None, vec![("navigation.speedOverGround", Value::from(3.85))])]));
    store.apply_delta(&delta(
        "vessels.urn:mrn:signalk:uuid:other-vessel",
        vec![update(Some("ais"), None, vec![("navigation.speedOverGround", Value::from(5.2))])],
    ));

    let self_speed = leaf(store.get_self_path("navigation.speedOverGround"));
    assert_eq!(self_speed.value, 3.85);

    let other_speed = leaf(store.get_path("vessels.urn:mrn:signalk:uuid:other-vessel.navigation.speedOverGround"));
    assert_eq!(other_speed.value, 5.2);
}

#[test]
fn test_full_model_query() {
    let mut store = MemoryStore::new(URN);
    store.apply_delta(&delta(
        "vessels.self",
        vec![update(
            Some("test"),
            None,
            vec![
                ("navigation.speedOverGround", Value::from(3.85)),
                ("environment.wind.speedApparent", Value::from(12.5)),
            ],
        )],
    ));

    let model = store.full_model();
    assert_eq!(model.version(), "1.7.0");
    assert!(matches!(model.get_path("vessels.urn:mrn:signalk:uuid:test-vessel.navigation"), Some(PathNode::Subtree(_))));
    assert!(matches!(model.get_path("vessels.urn:mrn:signalk:uuid:test-vessel.environment"), Some(PathNode::Subtree(_))));
}

#[test]
fn test_multi_source_values_same_path() {
    let mut store = MemoryStore::new(URN);
    store.apply_delta(&delta(
        "vessels.self",
        vec![update(Some("source1.115"), Some("2024-01-17T10:00:00.000Z"), vec![("navigation.trip.log", Value::from(1))])],
    ));

    let value = leaf(store.get_self_path("navigation.trip.log"));
    assert_eq!(value.value, Value::from(1));
    assert_eq!(value.source_ref.as_deref(), Some("source1.115"));

    store.apply_delta(&delta(
        "vessels.self",
        vec![update(Some("source2.116"), Some("2024-01-17T10:00:01.000Z"), vec![("navigation.trip.log", Value::from(2))])],
    ));

    let value = leaf(store.get_self_path("navigation.trip.log"));
    assert_eq!(value.value, Value::from(2));
    assert_eq!(value.source_ref.as_deref(), Some("source2.116"));
    assert_eq!(value.values.len(), 2);
    assert_eq!(reading(&value, "source1.115").value, Value::from(1));
    assert_eq!(reading(&value, "source2.116").value, Value::from(2));
}

#[test]
fn test_multi_source_preserves_timestamps() {
    let mut store = MemoryStore::new(URN);
    store.apply_delta(&delta(
        "vessels.self",
        vec![update(Some("gps1"), Some("2024-01-17T10:00:00.000Z"), vec![("navigation.speedOverGround", Value::from(3.85))])],
    ));
    store.apply_delta(&delta(
        "vessels.self",
        vec![update(Some("gps2"), Some("2024-01-17T10:00:01.000Z"), vec![("navigation.speedOverGround", Value::from(3.90))])],
    ));

    let value = leaf(store.get_self_path("navigation.speedOverGround"));
    assert_eq!(reading(&value, "gps1").timestamp.as_deref(), Some("2024-01-17T10:00:00.000Z"));
    assert_eq!(reading(&value, "gps2").timestamp.as_deref(), Some("2024-01-17T10:00:01.000Z"));
}

#[test]
fn test_same_source_updates_value() {
    let mut store = MemoryStore::new(URN);
    store.apply_delta(&delta(
        "vessels.self",
        vec![update(Some("gps1"), Some("2024-01-17T10:00:00.000Z"), vec![("navigation.speedOverGround", Value::from(3.85))])],
    ));
    store.apply_delta(&delta(
        "vessels.self",
        vec![update(Some("gps1"), Some("2024-01-17T10:00:01.000Z"), vec![("navigation.speedOverGround", Value::from(4.00))])],
    ));

    let value = leaf(store.get_self_path("navigation.speedOverGround"));
    assert_eq!(value.value, Value::from(4.00));
    assert_eq!(value.values.len(), 1);
    assert_eq!(reading(&value, "gps1").value, Value::from(4.00));
}

#[test]
fn test_sources_populated_from_source_ref() {
    let mut store = MemoryStore::new(URN);
    store.apply_delta(&delta(
        "vessels.self",
        vec![update(Some("nmea0183.GP"), Some("2024-01-17T10:00:00.000Z"), vec![("navigation.speedOverGround", Value::from(3.85))])],
    ));

    let sources = store.get_sources();
    let nmea = source(&sources, "nmea0183");
    assert!(nmea.qualifiers.iter().any(|q| q == "GP"));
}

#[test]
fn test_sources_populated_from_multiple_providers() {
    let mut store = MemoryStore::new(URN);
    store.apply_delta(&delta("vessels.self", vec![update(Some("nmea0183.GP"), None, vec![("navigation.speedOverGround", Value::from(3.85))])]));
    store.apply_delta(&delta("vessels.self", vec![update(Some("n2k.115"), None, vec![("navigation.courseOverGroundTrue", Value::from(1.52))])]));

    let sources = store.get_sources();
    assert!(source(&sources, "nmea0183").qualifiers.iter().any(|q| q == "GP"));
    assert!(source(&sources, "n2k").qualifiers.iter().any(|q| q == "115"));
}

#[test]
fn test_sources_with_embedded_source_object() {
    let mut store = MemoryStore::new(URN);
    let mut up = update(None, None, vec![("navigation.speedOverGround", Value::from(3.85))]);
    up.source = Some(Source {
        label: "actisense".to_string(),
        source_type: Some("NMEA2000".to_string()),
        src: Some("115".to_string()),
        can_name: None,
        pgn: Some(128267),
        sentence: None,
        talker: None,
        ais_type: None,
    });
    store.apply_delta(&delta("vessels.self", vec![up]));

    let sources = store.get_sources();
    let actisense = source(&sources, "actisense");
    assert_eq!(actisense.source_type.as_deref(), Some("NMEA2000"));
}

#[test]
fn test_path_count_with_multi_source() {
    let mut store = MemoryStore::new(URN);
    store.apply_delta(&delta("vessels.self", vec![update(Some("gps1"), None, vec![("navigation.speedOverGround", Value::from(3.85))])]));
    store.apply_delta(&delta("vessels.self", vec![update(Some("gps2"), None, vec![("navigation.speedOverGround", Value::from(3.90))])]));
    assert_eq!(store.path_count(), 1);
}

#[test]
fn test_no_source_provided() {
    let mut store = MemoryStore::new(URN);
    store.apply_delta(&delta(
        "vessels.self",
        vec![update(None, Some("2024-01-17T10:00:00.000Z"), vec![("navigation.speedOverGround", Value::from(3.85))])],
    ));

    let value = leaf(store.get_self_path("navigation.speedOverGround"));
    assert_eq!(value.value, Value::from(3.85));
    assert!(value.source_ref.is_none());
}

#[test]
fn multi_source_scenario_keeps_both_readings() {
    let mut store = MemoryStore::new(URN);
    store.apply_delta(&delta("vessels.self", vec![update(Some("A.115"), None, vec![("navigation.trip.log", Value::from(1))])]));
    store.apply_delta(&delta("vessels.self", vec![update(Some("B.116"), None, vec![("navigation.trip.log", Value::from(2))])]));
    let value = leaf(store.get_self_path("navigation.trip.log"));
    assert_eq!(value.value, Value::from(2));
    assert_eq!(value.source_ref.as_deref(), Some("B.116"));
    assert_eq!(reading(&value, "A.115").value, Value::from(1));
    assert_eq!(reading(&value, "B.116").value, Value::from(2));
}

#[test]
fn self_alias_and_urn_write_the_same_leaf() {
    let mut a = MemoryStore::new(URN);
    let mut b = MemoryStore::new(URN);
    a.apply_delta(&delta("vessels.self", vec![update(Some("s"), Some("t"), vec![("x.y", Value::from(7))])]));
    b.apply_delta(&delta(URN, vec![update(Some("s"), Some("t"), vec![("x.y", Value::from(7))])]));
    assert_eq!(a.get_self_path("x.y"), b.get_self_path("x.y"));
    let mut c = MemoryStore::new(URN);
    c.apply_delta(&Delta { context: None, updates: vec![update(Some("s"), Some("t"), vec![("x.y", Value::from(7))])] });
    assert_eq!(a.get_self_path("x.y"), c.get_self_path("x.y"));
}

#[test]
fn malformed_path_is_skipped_and_rest_applies() {
    let mut store = MemoryStore::new(URN);
    store.apply_delta(&delta(
        "vessels.self",
        vec![update(Some("s"), None, vec![("a..b", Value::from(1)), ("c.d", Value::from(2))])],
    ));
    assert!(store.get_self_path("a").is_none());
    assert_eq!(leaf(store.get_self_path("c.d")).value, Value::from(2));
    assert_eq!(store.path_count(), 1);
}

#[test]
fn writing_below_a_leaf_replaces_it() {
    let mut store = MemoryStore::new(URN);
    store.apply_delta(&delta("vessels.self", vec![update(Some("s"), None, vec![("a.b", Value::from(1))])]));
    store.apply_delta(&delta("vessels.self", vec![update(Some("s"), None, vec![("a.b.c", Value::from(2))])]));
    assert!(matches!(store.get_self_path("a.b"), Some(PathNode::Subtree(_))));
    assert_eq!(leaf(store.get_self_path("a.b.c")).value, Value::from(2));
    store.apply_delta(&delta("vessels.self", vec![update(Some("s"), None, vec![("a", Value::from(3))])]));
    assert!(store.get_self_path("a.b.c").is_none());
    assert_eq!(store.path_count(), 1);
}

#[test]
fn source_less_write_keeps_other_readings() {
    let mut store = MemoryStore::new(URN);
    store.apply_delta(&delta("vessels.self", vec![update(Some("gps"), None, vec![("n.s", Value::from(1))])]));
    store.apply_delta(&delta("vessels.self", vec![update(None, None, vec![("n.s", Value::from(2))])]));
    let value = leaf(store.get_self_path("n.s"));
    assert_eq!(value.value, Value::from(2));
    assert!(value.source_ref.is_none());
    assert_eq!(reading(&value, "gps").value, Value::from(1));
}

#[test]
fn multi_segment_qualifier_is_kept_whole() {
    let mut store = MemoryStore::new(URN);
    store.apply_delta(&delta("vessels.self", vec![update(Some("ws.a.b"), None, vec![("n.s", Value::from(1))])]));
    let sources = store.get_sources();
    assert!(source(&sources, "ws").qualifiers.iter().any(|q| q == "a.b"));
}

#[test]
fn path_count_only_counts_vessels() {
    let mut store = MemoryStore::new(URN);
    store.apply_delta(&delta("aircraft.x", vec![update(Some("s"), None, vec![("n.s", Value::from(1))])]));
    store.apply_delta(&delta("vessels.self", vec![update(Some("s"), None, vec![("n.s", Value::from(1)), ("n.t", Value::from(2))])]));
    assert_eq!(store.path_count(), 2);
}
