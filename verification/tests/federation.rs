use semanticweft::address::AddressError;
use semanticweft::api::PeerInfo;
use semanticweft::cli::{bearer, list_url, register_url, submit_url, unit_url, urlencoded, FetchFilters};
use semanticweft::config::{
    api_base_may_be_unroutable, node_id_needs_generation, parse_bootstrap_peers, parse_u64,
    setting_u32, setting_u64,
};
use semanticweft::fanout::{
    failure_notification, failure_reason_text, group_remote_audience, inbox_target,
    is_remote_inbox, local_candidates, node_recipient, request_target, DeliveryFailure,
};
use semanticweft::federation::{
    admit_peer, check_sync_status, ingest_outcome, peer_sync_url, peer_well_known_url,
    verify_result, PeerAdmission, SyncError, VerifyResult,
};
use semanticweft::rate_limit::client_key;
use semanticweft::storage::{MemoryStorage, StorageError};
use semanticweft::types::{RelType, SemanticUnit, UnitType, Visibility};
use semanticweft::validation::validate_unit;

fn unit() -> SemanticUnit {
    SemanticUnit::with_parts(
        "019526b2-f68a-7c3e-a0b4-000000000001".into(),
        UnitType::Assertion,
        "c".into(),
        "2026-02-18T12:00:00Z".into(),
        "did:key:z6MkAuthor".into(),
    )
}

#[test]
fn local_fanout_candidates() {
    let mut u = unit();
    let followers = vec!["did:f1".to_string(), "did:f2".to_string()];
    assert!(local_candidates(&u, followers.clone()).is_empty());
    u.visibility = Some(Visibility::Network);
    assert_eq!(local_candidates(&u, followers.clone()), followers);
    u.visibility = Some(Visibility::Limited);
    u.audience = Some(vec!["did:local".into(), "did:remote@other.example".into(), "did:l2".into()]);
    assert_eq!(local_candidates(&u, followers), vec!["did:local".to_string(), "did:l2".to_string()]);
    assert!(is_remote_inbox("https://other.example/v1/agents/x/inbox", "https://me.example/v1"));
    assert!(!is_remote_inbox("https://me.example/v1/agents/x/inbox", "https://me.example/v1"));
}

#[test]
fn remote_audience_grouped_by_host() {
    let audience = vec![
        "did:a@one.example".to_string(),
        "did:local".to_string(),
        "did:b@two.example".to_string(),
        "did:c@one.example".to_string(),
        "@two.example".to_string(),
        "did:d@ ".to_string(),
    ];
    let (groups, bad) = group_remote_audience(&audience);
    assert_eq!(groups.len(), 2);
    assert_eq!(groups[0].hostname, "one.example");
    let dids: Vec<&str> = groups[0].addresses.iter().map(|a| a.did.as_str()).collect();
    assert_eq!(dids, vec!["did:a", "did:c"]);
    assert_eq!(groups[1].hostname, "two.example");
    assert_eq!(groups[1].addresses.len(), 1);
    assert_eq!(
        bad,
        vec![AddressError::EmptyDid("@two.example".into()), AddressError::EmptyHostname("did:d@ ".into())]
    );
}

#[test]
fn failure_notice_shape() {
    let original = unit();
    let reason = failure_reason_text(&DeliveryFailure::DiscoveryStatus { hostname: "h.example".into(), status: 503 });
    assert_eq!(reason, "discovery request to h.example returned HTTP 503");
    let recipient = node_recipient("h.example");
    assert_eq!(recipient, "@h.example");
    let n = failure_notification(&original, "did:key:z6MkNode", &recipient, &reason);
    assert_eq!(n.unit_type, UnitType::Constraint);
    assert_eq!(
        n.content,
        "Delivery of unit 019526b2-f68a-7c3e-a0b4-000000000001 to recipient @h.example failed: discovery request to h.example returned HTTP 503"
    );
    assert_eq!(n.author, "did:key:z6MkNode");
    assert_eq!(n.visibility, Some(Visibility::Limited));
    assert_eq!(n.audience, Some(vec!["did:key:z6MkAuthor".to_string()]));
    let refs = n.references.as_ref().unwrap();
    assert_eq!(refs.len(), 1);
    assert_eq!(refs[0].id, original.id);
    assert_eq!(refs[0].rel, RelType::Notifies);
    assert_eq!(validate_unit(&n), Ok(()));
    assert_eq!(
        failure_reason_text(&DeliveryFailure::MissingApiBase { hostname: "h".into() }),
        "discovery document from h missing api_base"
    );
    assert_eq!(failure_reason_text(&DeliveryFailure::InboxStatus { status: 404 }), "remote inbox returned HTTP 404");
    assert_eq!(
        failure_reason_text(&DeliveryFailure::DeliveryFailed { error: "timeout".into() }),
        "delivery failed: timeout"
    );
}

#[test]
fn sync_decisions() {
    assert_eq!(peer_sync_url("https://p.example/v1//"), "https://p.example/v1/sync");
    assert_eq!(ingest_outcome(Ok(())), Ok(true));
    assert_eq!(ingest_outcome(Err(StorageError::Conflict("dup".into()))), Ok(false));
    assert_eq!(
        ingest_outcome(Err(StorageError::Internal("x".into()))),
        Err(SyncError::Storage(StorageError::Internal("x".into())))
    );
    assert_eq!(check_sync_status(204), Ok(()));
    assert_eq!(check_sync_status(502), Err(SyncError::BadStatus(502)));
    assert_eq!(SyncError::BadStatus(502).message(), "peer returned status 502");
}

#[test]
fn peer_discovery_decisions() {
    assert_eq!(
        peer_well_known_url("https://p.example/v1/"),
        "https://p.example/.well-known/semanticweft"
    );
    assert_eq!(
        peer_well_known_url("https://p.example/v1/v1"),
        "https://p.example/.well-known/semanticweft"
    );
    assert_eq!(peer_well_known_url("https://p.example"), "https://p.example/.well-known/semanticweft");
    assert_eq!(verify_result(None, "did:p"), VerifyResult::Unreachable);
    assert_eq!(verify_result(Some("did:p"), "did:p"), VerifyResult::Verified);
    assert_eq!(verify_result(Some("did:x"), "did:p"), VerifyResult::Mismatch);

    let mut best = PeerInfo::new("did:best", "https://b.example/v1");
    best.reputation = 0.9f32.to_bits();
    let mut worst = PeerInfo::new("did:worst", "https://w.example/v1");
    worst.reputation = 0.3f32.to_bits();
    let table = vec![best, worst];
    let candidate = PeerInfo::new("did:new", "https://n.example/v1");
    assert_eq!(admit_peer(VerifyResult::Mismatch, &table, 10, &candidate), PeerAdmission::Reject);
    assert_eq!(admit_peer(VerifyResult::Unreachable, &table, 10, &candidate), PeerAdmission::Add);
    assert_eq!(
        admit_peer(VerifyResult::Verified, &table, 2, &candidate),
        PeerAdmission::EvictThenAdd("did:worst".into())
    );
    let mut weak = candidate.clone();
    weak.reputation = 0.1f32.to_bits();
    assert_eq!(admit_peer(VerifyResult::Verified, &table, 2, &weak), PeerAdmission::Reject);
}

#[test]
fn configuration_values() {
    assert_eq!(
        parse_bootstrap_peers(" https://a.example/v1 ,, https://b.example/v1,"),
        vec!["https://a.example/v1".to_string(), "https://b.example/v1".to_string()]
    );
    assert!(parse_bootstrap_peers("").is_empty());
    assert!(node_id_needs_generation("__generate__"));
    assert!(!node_id_needs_generation("did:key:z6Mk"));
    assert_eq!(parse_u64("42"), Some(42));
    assert_eq!(parse_u64("+7"), Some(7));
    assert_eq!(parse_u64("18446744073709551615"), Some(u64::MAX));
    assert_eq!(parse_u64("18446744073709551616"), None);
    assert_eq!(parse_u64(""), None);
    assert_eq!(parse_u64("+"), None);
    assert_eq!(parse_u64("-1"), None);
    assert_eq!(parse_u64(" 1"), None);
    assert_eq!(setting_u64(None, 60), 60);
    assert_eq!(setting_u64(Some("x"), 60), 60);
    assert_eq!(setting_u64(Some("30"), 60), 30);
    assert_eq!(setting_u32(Some("4294967296"), 60), 60);
    assert!(api_base_may_be_unroutable("http://0.0.0.0:3000"));
    assert!(api_base_may_be_unroutable("http://127.0.0.1:3000/v1"));
    assert!(!api_base_may_be_unroutable("https://node.example/v1"));
}

#[test]
fn client_key_from_proxy_headers() {
    assert_eq!(client_key(Some(" 10.0.0.1 , 10.0.0.2"), Some("9.9.9.9")), "10.0.0.1");
    assert_eq!(client_key(Some(" , x"), Some("9.9.9.9")), "9.9.9.9");
    assert_eq!(client_key(None, Some("")), "unknown");
    assert_eq!(client_key(None, None), "unknown");
}

#[test]
fn cli_urls() {
    assert_eq!(urlencoded("did:key:z6Mk"), "did%3Akey%3Az6Mk");
    assert_eq!(urlencoded("a b~é"), "a%20b~%C3%A9");
    assert_eq!(register_url("https://n.example/", "did:x"), "https://n.example/v1/agents/did%3Ax");
    assert_eq!(submit_url("https://n.example"), "https://n.example/v1/units");
    assert_eq!(unit_url("https://n.example//", "id 1"), "https://n.example/v1/units/id%201");
    let f = FetchFilters {
        unit_type: Some("assertion,question".into()),
        author: None,
        since: Some("2026-01-01T00:00:00Z".into()),
        after: None,
        limit: Some(5),
    };
    assert_eq!(
        list_url("https://n.example", &f),
        "https://n.example/v1/units?type=assertion%2Cquestion&since=2026-01-01T00%3A00%3A00Z&limit=5"
    );
    let none = FetchFilters { unit_type: None, author: None, since: None, after: None, limit: None };
    assert_eq!(list_url("https://n.example", &none), "https://n.example/v1/units");
    assert_eq!(bearer("tok"), "Bearer tok");
}

#[test]
fn inbox_target_splits_host_and_path_with_query() {
    assert_eq!(
        inbox_target("https://remote.example/v1/agents/did:key:z6Mk/inbox?x=1"),
        Some(("remote.example".to_string(), "/v1/agents/did:key:z6Mk/inbox?x=1".to_string()))
    );
    assert_eq!(
        inbox_target("http://node.example:8080/inbox"),
        Some(("node.example".to_string(), "/inbox".to_string()))
    );
    assert_eq!(inbox_target("not a url"), None);
}

#[test]
fn request_target_defaults_host_to_localhost() {
    assert_eq!(
        request_target(None, "/inbox".to_string(), None),
        ("localhost".to_string(), "/inbox".to_string())
    );
    assert_eq!(
        request_target(Some("h".to_string()), "/p".to_string(), Some("a=b".to_string())),
        ("h".to_string(), "/p?a=b".to_string())
    );
}

#[test]
fn a_sweep_of_admissions_never_overfills_the_peer_table() {
    let mut store = MemoryStorage::new();
    let max_peers = 2;
    let reps = [0.5f32, 0.7, 0.2, 0.9, 0.6];
    for (i, rep) in reps.iter().enumerate() {
        let mut candidate = PeerInfo::new(&format!("did:p{i}"), &format!("https://p{i}.example/v1"));
        candidate.reputation = rep.to_bits();
        let table = store.list_peers();
        match admit_peer(VerifyResult::Verified, &table, max_peers, &candidate) {
            PeerAdmission::Reject => continue,
            PeerAdmission::EvictThenAdd(worst) => store.remove_peer(&worst),
            PeerAdmission::Add => {}
        }
        store.add_peer(&candidate);
        assert!(store.list_peers().len() <= max_peers);
    }
    let ids: Vec<String> = store.list_peers().into_iter().map(|p| p.node_id).collect();
    assert_eq!(ids, vec!["did:p3".to_string(), "did:p1".to_string()]);
}
