use serde_json::Value;
use signalk::broker::FanoutBroker;
use signalk::model::{Delta, PathValue, Update};
use signalk::store::{MemoryStore, PathNode};

const URN: &str = "vessels.urn:mrn:signalk:uuid:test-vessel";

fn delta(path: &str, v: i64) -> Delta {
    Delta {
        context: Some("vessels.self".to_string()),
        updates: vec![Update {
            source_ref: Some("s".to_string()),
            source: None,
            timestamp: None,
            values: vec![PathValue { path: path.to_string(), value: Value::from(v) }],
            meta: None,
        }],
    }
}

#[test]
fn deltas_arrive_in_apply_order() {
    let mut broker = FanoutBroker::new(MemoryStore::new(URN), 8);
    let a = broker.subscribe();
    let b = broker.subscribe();
    broker.ingest(&delta("n.a", 1));
    broker.ingest(&delta("n.b", 2));
    let (s1, d1) = broker.recv(a).unwrap();
    let (s2, d2) = broker.recv(a).unwrap();
    assert!(s1 < s2);
    assert_eq!(d1.updates[0].values[0].path, "n.a");
    assert_eq!(d2.updates[0].values[0].path, "n.b");
    assert!(broker.recv(a).is_none());
    assert_eq!(broker.recv(b).unwrap().1.updates[0].values[0].path, "n.a");
    assert!(matches!(broker.store().get_self_path("n.b"), Some(PathNode::Value(_))));
}

#[test]
fn full_queue_drops_oldest_and_counts_lag() {
    let mut broker = FanoutBroker::new(MemoryStore::new(URN), 2);
    let a = broker.subscribe();
    broker.ingest(&delta("n.a", 1));
    broker.ingest(&delta("n.b", 2));
    broker.ingest(&delta("n.c", 3));
    assert_eq!(broker.lagged(a), 1);
    assert_eq!(broker.recv(a).unwrap().1.updates[0].values[0].path, "n.b");
    assert_eq!(broker.recv(a).unwrap().1.updates[0].values[0].path, "n.c");
}

#[test]
fn empty_delta_is_not_broadcast_and_closed_queue_gets_nothing() {
    let mut broker = FanoutBroker::new(MemoryStore::new(URN), 4);
    let a = broker.subscribe();
    let b = broker.subscribe();
    broker.ingest(&Delta { context: None, updates: vec![] });
    assert_eq!(broker.next_sequence(), 0);
    assert!(broker.recv(a).is_none());
    broker.unsubscribe(b);
    broker.ingest(&delta("n.a", 1));
    assert!(broker.recv(b).is_none());
    assert_eq!(broker.recv(a).unwrap().0, 0);
}
