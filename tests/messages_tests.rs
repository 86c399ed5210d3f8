use signalk::messages::{
    decimal_string, is_put_message, is_subscribe_message, is_unsubscribe_message, DiscoveryResponse,
    HelloMessage,
};

#[test]
fn test_message_type_detection() {
    assert!(is_subscribe_message(r#"{"subscribe":[...]}"#));
    assert!(is_unsubscribe_message(r#"{"unsubscribe":[...]}"#));
    assert!(is_put_message(r#"{"requestId":"1","put":{...}}"#));

    assert!(!is_subscribe_message(r#"{"put":{...}}"#));
}

#[test]
fn test_discovery_response() {
    let discovery = DiscoveryResponse::new("localhost", 3000);
    assert_eq!(discovery.endpoints.v1.signalk_http, "http://localhost:3000/signalk/v1/api");
    assert_eq!(discovery.endpoints.v1.signalk_ws, "ws://localhost:3000/signalk/v1/stream");
    assert_eq!(discovery.endpoints.v1.version, "1.7.0");
}

#[test]
fn hello_has_the_given_fields() {
    let hello = HelloMessage::with_timestamp("test-server", "1.7.0", "vessels.urn:mrn:signalk:uuid:test", "2024-01-17T10:30:00.000Z".to_string());
    assert_eq!(hello.name, "test-server");
    assert_eq!(hello.self_urn, "vessels.urn:mrn:signalk:uuid:test");
    assert_eq!(hello.roles, vec!["main".to_string()]);
    assert_eq!(hello.timestamp, "2024-01-17T10:30:00.000Z");
    let now = HelloMessage::new("n", "1.7.0", "s");
    assert!(now.timestamp.ends_with('Z'));
    assert_eq!(now.timestamp.len(), 24);
    assert!(now.timestamp.as_str() > "2020-01-01");
    assert_eq!(&now.timestamp[10..11], "T");
}

#[test]
fn decimal_numbers() {
    assert_eq!(decimal_string(0), "0");
    assert_eq!(decimal_string(80), "80");
    assert_eq!(decimal_string(65535), "65535");
    assert_eq!(DiscoveryResponse::new("h", 0).endpoints.v1.signalk_http, "http://h:0/signalk/v1/api");
}

#[test]
fn detection_needs_quotes() {
    assert!(!is_subscribe_message("subscribe"));
    assert!(!is_put_message(r#"{"put":{}}"#));
    assert!(is_unsubscribe_message(r#"{"context":"*","unsubscribe":[{"path":"*"}]}"#));
    assert!(is_subscribe_message(r#"{"unsubscribe":[]}"#) == false);
}
