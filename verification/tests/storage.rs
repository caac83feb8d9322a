use semanticweft::api::{AgentProfile, AgentStatus, PeerInfo, NEUTRAL_REPUTATION};
use semanticweft::storage::{MemoryStorage, StorageError, UnitFilter};
use semanticweft::types::{SemanticUnit, UnitType, Visibility};

fn unit(id: &str) -> SemanticUnit {
    SemanticUnit::with_parts(
        id.to_string(),
        UnitType::Assertion,
        "test content".to_string(),
        "2026-02-18T12:00:00Z".to_string(),
        "did:key:z6MkTest".to_string(),
    )
}

fn agent(did: &str) -> AgentProfile {
    AgentProfile {
        did: did.to_string(),
        inbox_url: format!("https://node.example.com/v1/agents/{did}/inbox"),
        display_name: None,
        public_key: None,
        status: AgentStatus::Full,
        contribution_count: 0,
        reputation: NEUTRAL_REPUTATION,
    }
}

#[test]
fn memory_put_and_get_unit() {
    let mut s = MemoryStorage::new();
    let u = unit("019526b2-f68a-7c3e-a0b4-000000000001");
    s.put_unit(&u).unwrap();
    let got = s.get_unit(&u.id);
    assert_eq!(got.unwrap().id, u.id);
}

#[test]
fn memory_put_unit_conflict() {
    let mut s = MemoryStorage::new();
    let u = unit("019526b2-f68a-7c3e-a0b4-000000000001");
    s.put_unit(&u).unwrap();
    let err = s.put_unit(&u).unwrap_err();
    assert!(matches!(err, StorageError::Conflict(_)));
}

#[test]
fn memory_list_units_pagination() {
    let mut s = MemoryStorage::new();
    for i in 0u8..5 {
        let u = unit(&format!("019526b2-f68a-7c3e-a0b4-0000000000{i:02x}"));
        s.put_unit(&u).unwrap();
    }
    let mut filter = UnitFilter::default();
    filter.limit = 2;
    let (page, has_more) = s.list_units(&filter);
    assert_eq!(page.len(), 2);
    assert!(has_more);
    filter.after = Some(page[1].id.clone());
    let (page2, more2) = s.list_units(&filter);
    assert_eq!(page2.len(), 2);
    assert!(more2);
    assert_eq!(page2[0].id, "019526b2-f68a-7c3e-a0b4-000000000002");
    filter.after = Some(page2[1].id.clone());
    let (page3, more3) = s.list_units(&filter);
    assert_eq!(page3.len(), 1);
    assert!(!more3);
}

#[test]
fn memory_list_units_filters_visibility_and_type() {
    let mut s = MemoryStorage::new();
    let mut public = unit("019526b2-f68a-7c3e-a0b4-000000000001");
    public.unit_type = UnitType::Question;
    let mut network = unit("019526b2-f68a-7c3e-a0b4-000000000002");
    network.visibility = Some(Visibility::Network);
    s.put_unit(&public).unwrap();
    s.put_unit(&network).unwrap();
    let mut filter = UnitFilter::default();
    filter.limit = 10;
    filter.visibilities = vec![Visibility::Public];
    let (page, _) = s.list_units(&filter);
    assert_eq!(page.len(), 1);
    assert_eq!(page[0].id, public.id);
    filter.visibilities = vec![];
    filter.unit_types = vec![UnitType::Assertion];
    let (page, _) = s.list_units(&filter);
    assert_eq!(page.len(), 1);
    assert_eq!(page[0].id, network.id);
}

#[test]
fn memory_follow_roundtrip() {
    let mut s = MemoryStorage::new();
    s.add_follow("alice", "bob");
    assert!(s.is_following("alice", "bob"));
    assert!(!s.is_following("bob", "alice"));
    let following = s.list_following("alice");
    assert!(following.contains(&"bob".to_string()));
    let followers = s.list_followers("bob");
    assert!(followers.contains(&"alice".to_string()));
    s.remove_follow("alice", "bob");
    assert!(!s.is_following("alice", "bob"));
}

#[test]
fn memory_agent_roundtrip() {
    let mut s = MemoryStorage::new();
    let a = agent("did:key:z6MkAlice");
    s.put_agent(&a);
    let got = s.get_agent(&a.did).unwrap();
    assert_eq!(got.did, a.did);
    assert!(s.get_agent("did:key:z6MkNobody").is_none());
}

#[test]
fn memory_delete_agent_purges_inbox() {
    let mut s = MemoryStorage::new();
    let a = agent("did:key:z6MkAlice");
    s.put_agent(&a);
    s.deliver_to_inbox(&a.did, &unit("019526b2-f68a-7c3e-a0b4-000000000001"));
    assert_eq!(s.delete_agent(&a.did), Ok(()));
    assert!(s.get_agent(&a.did).is_none());
    assert!(s.get_inbox(&a.did, None, 10).0.is_empty());
    assert_eq!(s.delete_agent(&a.did), Err(StorageError::NotFound));
}

#[test]
fn memory_update_agent_reputation() {
    let mut s = MemoryStorage::new();
    s.put_agent(&agent("did:key:z6MkAlice"));
    assert_eq!(s.update_agent_reputation("did:key:z6MkAlice", 0.75f32.to_bits()), Ok(()));
    assert_eq!(s.get_agent("did:key:z6MkAlice").unwrap().reputation, 0.75f32.to_bits());
    assert_eq!(
        s.update_agent_reputation("did:key:z6MkBob", 0.75f32.to_bits()),
        Err(StorageError::NotFound)
    );
}

#[test]
fn memory_peer_roundtrip_with_reputation() {
    let mut s = MemoryStorage::new();
    let p = PeerInfo::new("did:key:z6MkPeer", "https://peer.example.com/v1");
    s.add_peer(&p);
    let peers = s.list_peers();
    assert_eq!(peers.len(), 1);
    assert!((f32::from_bits(peers[0].reputation) - 0.5).abs() < f32::EPSILON);
}

#[test]
fn memory_add_peer_preserves_reputation_on_update() {
    let mut s = MemoryStorage::new();
    let mut p = PeerInfo::new("did:key:z6MkPeer", "https://peer.example.com/v1");
    p.reputation = 0.8f32.to_bits();
    s.add_peer(&p);
    let updated = PeerInfo::new("did:key:z6MkPeer", "https://new.example.com/v1");
    s.add_peer(&updated);
    let peers = s.list_peers();
    assert_eq!(peers[0].api_base, "https://new.example.com/v1");
    assert!((f32::from_bits(peers[0].reputation) - 0.8).abs() < f32::EPSILON);
}

#[test]
fn memory_peers_listed_best_first() {
    let mut s = MemoryStorage::new();
    let mut low = PeerInfo::new("did:key:z6MkA", "https://a.example/v1");
    low.reputation = 0.2f32.to_bits();
    let mut high = PeerInfo::new("did:key:z6MkB", "https://b.example/v1");
    high.reputation = 0.9f32.to_bits();
    let mid = PeerInfo::new("did:key:z6MkC", "https://c.example/v1");
    s.add_peer(&low);
    s.add_peer(&high);
    s.add_peer(&mid);
    let ids: Vec<String> = s.list_peers().into_iter().map(|p| p.node_id).collect();
    assert_eq!(ids, vec!["did:key:z6MkB", "did:key:z6MkC", "did:key:z6MkA"]);
    assert_eq!(s.update_peer_reputation("did:key:z6MkA", 1.0f32.to_bits()), Ok(()));
    assert_eq!(s.list_peers()[0].node_id, "did:key:z6MkA");
    assert_eq!(
        s.update_peer_reputation("did:key:z6MkZ", 1.0f32.to_bits()),
        Err(StorageError::NotFound)
    );
}

#[test]
fn memory_remove_peer() {
    let mut s = MemoryStorage::new();
    s.add_peer(&PeerInfo::new("did:key:z6MkPeer", "https://peer.example.com/v1"));
    s.remove_peer("did:key:z6MkPeer");
    assert!(s.list_peers().is_empty());
}

#[test]
fn memory_node_config_roundtrip() {
    let mut s = MemoryStorage::new();
    assert!(s.get_node_config("mykey").is_none());
    s.set_node_config("mykey", "myvalue");
    assert_eq!(s.get_node_config("mykey").as_deref(), Some("myvalue"));
}

#[test]
fn memory_cursor_roundtrip() {
    let mut s = MemoryStorage::new();
    assert!(s.get_cursor("https://peer.example.com").is_none());
    s.set_cursor("https://peer.example.com", "019526b2-f68a-7c3e-a0b4-000000000001");
    let c = s.get_cursor("https://peer.example.com");
    assert_eq!(c.as_deref(), Some("019526b2-f68a-7c3e-a0b4-000000000001"));
}

#[test]
fn memory_inbox_deliver_and_read() {
    let mut s = MemoryStorage::new();
    let u = unit("019526b2-f68a-7c3e-a0b4-000000000001");
    s.deliver_to_inbox("did:key:alice", &u);
    let (items, has_more) = s.get_inbox("did:key:alice", None, 10);
    assert_eq!(items.len(), 1);
    assert_eq!(items[0].id, u.id);
    assert!(!has_more);
}

#[test]
fn memory_inbox_idempotent() {
    let mut s = MemoryStorage::new();
    let u = unit("019526b2-f68a-7c3e-a0b4-000000000001");
    s.deliver_to_inbox("did:key:alice", &u);
    s.deliver_to_inbox("did:key:alice", &u);
    let (items, _) = s.get_inbox("did:key:alice", None, 10);
    assert_eq!(items.len(), 1, "duplicate delivery must be deduplicated");
}

#[test]
fn memory_inbox_pagination() {
    let mut s = MemoryStorage::new();
    for i in 1u8..=5 {
        let mut u = unit("placeholder");
        u.id = format!("019526b2-f68a-7c3e-a0b4-0000000000{i:02x}");
        s.deliver_to_inbox("did:key:alice", &u);
    }
    let (page1, has_more) = s.get_inbox("did:key:alice", None, 2);
    assert_eq!(page1.len(), 2);
    assert!(has_more);
    let cursor = page1.last().map(|u| u.id.clone());
    let (page2, _) = s.get_inbox("did:key:alice", cursor.as_deref(), 2);
    assert_eq!(page2.len(), 2);
    assert_ne!(page1[0].id, page2[0].id, "pages must not overlap");
}

#[test]
fn memory_inbox_empty_for_unknown_agent() {
    let s = MemoryStorage::new();
    let (items, has_more) = s.get_inbox("did:key:nobody", None, 10);
    assert!(items.is_empty());
    assert!(!has_more);
}

#[test]
fn memory_referencing_units() {
    let mut s = MemoryStorage::new();
    let a = unit("019526b2-f68a-7c3e-a0b4-000000000001");
    let mut b = unit("019526b2-f68a-7c3e-a0b4-000000000002");
    b.references = Some(vec![semanticweft::types::Reference {
        id: a.id.clone(),
        rel: semanticweft::types::RelType::Supports,
    }]);
    s.put_unit(&a).unwrap();
    s.put_unit(&b).unwrap();
    let refs = s.get_referencing_units(&a.id);
    assert_eq!(refs.len(), 1);
    assert_eq!(refs[0].id, b.id);
    assert!(s.get_referencing_units(&b.id).is_empty());
}
