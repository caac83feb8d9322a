use semanticweft::session::{NodeSession, SessionError};

fn session() -> NodeSession {
    NodeSession::new("https://sweft.example.com/v1", "did:key:z6MkFoo")
}

#[test]
fn inbox_url() {
    assert_eq!(
        session().inbox_url(),
        "https://sweft.example.com/v1/agents/did%3Akey%3Az6MkFoo/inbox"
    );
}

#[test]
fn register_url() {
    assert_eq!(
        session().register_url(),
        "https://sweft.example.com/v1/agents/did%3Akey%3Az6MkFoo"
    );
}

#[test]
fn units_url() {
    assert_eq!(session().units_url(), "https://sweft.example.com/v1/units");
}

#[test]
fn peers_url() {
    assert_eq!(session().peers_url(), "https://sweft.example.com/v1/peers");
}

#[test]
fn sync_url_no_cursor() {
    let url = session().sync_url(None, 100);
    assert_eq!(url, "https://sweft.example.com/v1/sync?limit=100");
}

#[test]
fn sync_url_with_cursor() {
    let url = session().sync_url(Some("abc-123"), 50);
    assert_eq!(url, "https://sweft.example.com/v1/sync?after=abc-123&limit=50");
}

#[test]
fn from_discovery_json() {
    let json = r#"{
        "node_id": "did:key:z6MkNode",
        "api_base": "https://sweft.example.com/v1",
        "protocol_version": "1.0",
        "capabilities": ["sync"]
    }"#;
    let s = NodeSession::from_discovery(json, "did:key:z6MkFoo").unwrap();
    assert_eq!(s.api_base, "https://sweft.example.com/v1");
    assert_eq!(s.own_did, "did:key:z6MkFoo");
}

#[test]
fn from_discovery_strips_trailing_slash() {
    let json = r#"{"api_base":"https://sweft.example.com/v1/","node_id":"x","protocol_version":"1.0","capabilities":[]}"#;
    let s = NodeSession::from_discovery(json, "did:key:z6MkFoo").unwrap();
    assert_eq!(s.api_base, "https://sweft.example.com/v1");
}

#[test]
fn from_discovery_missing_api_base() {
    let json = r#"{"node_id":"did:key:z6MkNode"}"#;
    assert_eq!(
        NodeSession::from_discovery(json, "did:key:z6MkFoo"),
        Err(SessionError::MissingApiBase)
    );
}

#[test]
fn from_discovery_not_json_is_parse_error() {
    assert!(matches!(
        NodeSession::from_discovery("not json", "did:key:z6MkFoo"),
        Err(SessionError::ParseError(_))
    ));
}

#[test]
fn from_discovery_non_string_api_base_is_missing() {
    assert_eq!(
        NodeSession::from_discovery(r#"{"api_base": 7}"#, "did:key:z6MkFoo"),
        Err(SessionError::MissingApiBase)
    );
}

#[test]
fn sync_url_encodes_cursor() {
    let url = session().sync_url(Some("a b/c"), 5);
    assert_eq!(url, "https://sweft.example.com/v1/sync?after=a%20b%2Fc&limit=5");
}

#[test]
fn new_strips_every_trailing_slash() {
    let s = NodeSession::new("https://n.example/v1///", "did:key:z6MkFoo");
    assert_eq!(s.api_base, "https://n.example/v1");
}
