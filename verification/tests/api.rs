use semanticweft::api::{Capability, ErrorResponse, FollowListResponse, ListQuery, ListResponse, NodeInfo, PeerInfo, NEUTRAL_REPUTATION};
use semanticweft::types::{SemanticUnit, UnitType};

fn unit(id: &str) -> SemanticUnit {
    SemanticUnit::with_parts(
        id.to_string(),
        UnitType::Assertion,
        "test".to_string(),
        "2026-02-18T12:00:00Z".to_string(),
        "test-agent".to_string(),
    )
}

#[test]
fn list_response_cursor_is_last_id() {
    let units = vec![
        unit("019526b2-f68a-7c3e-a0b4-1d2e3f4a5b6c"),
        unit("019526b2-f68a-7c3e-a0b4-1d2e3f4a5b6d"),
    ];
    let resp = ListResponse::from_page(units, false);
    assert_eq!(resp.cursor.as_deref(), Some("019526b2-f68a-7c3e-a0b4-1d2e3f4a5b6d"));
    assert!(!resp.has_more);
}

#[test]
fn list_response_empty() {
    let resp = ListResponse::empty();
    assert!(resp.units.is_empty());
    assert!(resp.cursor.is_none());
    assert!(!resp.has_more);
}

#[test]
fn list_query_effective_limit() {
    let mut q = ListQuery::default();
    assert_eq!(q.effective_limit(), 50);
    q.limit = Some(0);
    assert_eq!(q.effective_limit(), 1);
    q.limit = Some(1000);
    assert_eq!(q.effective_limit(), 500);
    q.limit = Some(100);
    assert_eq!(q.effective_limit(), 100);
}

#[test]
fn error_response_carries_code_and_message() {
    let e = ErrorResponse::new("not_found", "unit x not found");
    assert_eq!(e.code, "not_found");
    assert_eq!(e.error, "unit x not found");
}

#[test]
fn node_info_defaults() {
    let n = NodeInfo::new("did:key:z6MkNode", "https://n.example/v1");
    assert_eq!(n.node_id, "did:key:z6MkNode");
    assert_eq!(n.api_base, "https://n.example/v1");
    assert_eq!(n.protocol_version, "1.0");
    assert_eq!(n.capabilities, vec![Capability::Sync]);
    assert!(!n.signing_required);
}

#[test]
fn peer_info_starts_neutral() {
    let p = PeerInfo::new("did:key:z6MkPeer", "https://p.example/v1");
    assert_eq!(p.reputation, NEUTRAL_REPUTATION);
    assert_eq!(f32::from_bits(p.reputation), 0.5);
    assert!(p.last_seen.is_none());
}

#[test]
fn follow_list_from_dids() {
    let l = FollowListResponse::from_dids(vec!["did:a".to_string(), "did:b".to_string()]);
    assert_eq!(l.items.len(), 2);
    assert_eq!(l.items[1].did, "did:b");
    assert!(FollowListResponse::empty().items.is_empty());
}
