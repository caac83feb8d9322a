use semanticweft::api::{AgentProfile, AgentStatus, ApplyRequest, PeerInfo, RegisterRequest, NEUTRAL_REPUTATION};
use semanticweft::directory::{
    applicant_profile, check_application, check_deregistration, check_follow, check_inbox_reader,
    check_new_peer, check_not_registered, check_registration, check_reputation_value,
    check_peer_vote, check_unfollow, check_vote, find_peer, inbox_limit, inbox_page, registered_profile,
    resolve_webfinger, sponsor_is_full_member, update_failure, webfinger_document,
    webfinger_unknown_agent,
};
use semanticweft::node::AppError;
use semanticweft::storage::StorageError;
use semanticweft::types::{SemanticUnit, UnitType};

fn register(did: &str) -> RegisterRequest {
    RegisterRequest {
        did: did.into(),
        inbox_url: "https://n.example/v1/agents/x/inbox".into(),
        display_name: Some("Alice".into()),
        public_key: None,
    }
}

fn profile(did: &str, status: AgentStatus) -> AgentProfile {
    AgentProfile {
        did: did.into(),
        inbox_url: "https://n.example/inbox".into(),
        display_name: None,
        public_key: None,
        status,
        contribution_count: 0,
        reputation: NEUTRAL_REPUTATION,
    }
}

#[test]
fn registration_checks() {
    let mismatch = Err(AppError::BadRequest("did in request body must match the {did} path parameter".into()));
    assert_eq!(check_registration("did:a", &register("did:b"), "did:a"), mismatch);
    assert_eq!(
        check_registration("did:a", &register("did:a"), "did:b"),
        Err(AppError::Forbidden("cannot register as a different DID".into()))
    );
    assert_eq!(check_registration("did:a", &register("did:a"), "did:a"), Ok(()));
    let p = registered_profile(register("did:a"));
    assert_eq!(p.status, AgentStatus::Full);
    assert_eq!(p.reputation, NEUTRAL_REPUTATION);
    assert_eq!(p.display_name.as_deref(), Some("Alice"));
}

#[test]
fn application_checks() {
    let req = ApplyRequest {
        did: "did:a".into(),
        inbox_url: "https://n.example/inbox".into(),
        display_name: None,
        public_key: None,
        sponsor_did: Some("did:s".into()),
    };
    assert_eq!(
        check_application("did:a", &req, "did:x"),
        Err(AppError::Forbidden("cannot apply as a different DID".into()))
    );
    assert_eq!(check_application("did:a", &req, "did:a"), Ok(()));
    assert_eq!(
        check_not_registered(&Some(profile("did:a", AgentStatus::Full)), "did:a"),
        Err(AppError::Conflict("agent did:a is already registered".into()))
    );
    assert_eq!(check_not_registered(&None, "did:a"), Ok(()));
    assert!(sponsor_is_full_member(&Some(profile("did:s", AgentStatus::Full))));
    assert!(!sponsor_is_full_member(&Some(profile("did:s", AgentStatus::Probationary))));
    assert!(!sponsor_is_full_member(&None));
    assert_eq!(applicant_profile(req).status, AgentStatus::Probationary);
}

#[test]
fn inbox_and_deregistration_checks() {
    let nf = Err(AppError::NotFound("agent did:a not found".into()));
    assert_eq!(check_inbox_reader(false, "did:a", "did:a"), nf.clone());
    assert_eq!(check_inbox_reader(true, "did:a", "did:b"), nf.clone());
    assert_eq!(check_inbox_reader(true, "did:a", "did:a"), Ok(()));
    assert_eq!(
        check_deregistration(true, "did:a", "did:b"),
        Err(AppError::Forbidden("cannot deregister a different agent".into()))
    );
    assert_eq!(check_deregistration(false, "did:a", "did:a"), nf);
    assert_eq!(check_deregistration(true, "did:a", "did:a"), Ok(()));
    assert_eq!(inbox_limit(None), 20);
    assert_eq!(inbox_limit(Some(0)), 1);
    assert_eq!(inbox_limit(Some(1000)), 100);
}

#[test]
fn inbox_page_cursor_only_when_more() {
    let u = SemanticUnit::with_parts(
        "019526b2-f68a-7c3e-a0b4-000000000009".into(),
        UnitType::Question,
        "q".into(),
        "2026-02-18T12:00:00Z".into(),
        "did:a".into(),
    );
    let page = inbox_page(vec![u.clone()], true);
    assert_eq!(page.next_cursor.as_deref(), Some("019526b2-f68a-7c3e-a0b4-000000000009"));
    let page = inbox_page(vec![u], false);
    assert!(page.next_cursor.is_none());
}

#[test]
fn reputation_vote_checks() {
    let range = Err(AppError::BadRequest("reputation must be a finite number in [0.0, 1.0]".into()));
    assert_eq!(check_reputation_value(1.5f32.to_bits()), range.clone());
    assert_eq!(check_reputation_value(f32::NAN.to_bits()), range.clone());
    assert_eq!(check_reputation_value((-0.1f32).to_bits()), range.clone());
    assert_eq!(check_reputation_value(1.0f32.to_bits()), Ok(()));
    assert_eq!(check_reputation_value((-0.0f32).to_bits()), Ok(()));
    let caller = profile("did:c", AgentStatus::Full);
    assert_eq!(check_vote("did:t", "did:c", 2.0f32.to_bits(), Some(caller.clone())).map(|_| ()), range);
    assert_eq!(
        check_vote("did:c", "did:c", 0.5f32.to_bits(), Some(caller.clone())).map(|_| ()),
        Err(AppError::Forbidden("an agent cannot update its own reputation".into()))
    );
    assert_eq!(
        check_vote("did:t", "did:c", 0.5f32.to_bits(), None).map(|_| ()),
        Err(AppError::Forbidden(
            "caller is not a registered agent; reputation updates are community-internal".into()
        ))
    );
    assert_eq!(check_vote("did:t", "did:c", 0.5f32.to_bits(), Some(caller.clone())), Ok(caller));
    assert_eq!(
        update_failure(StorageError::NotFound, "agent", "did:t"),
        AppError::NotFound("agent did:t not found".into())
    );
    assert_eq!(
        update_failure(StorageError::Internal("disk".into()), "peer", "p"),
        AppError::Internal(StorageError::Internal("disk".into()).message())
    );
}

#[test]
fn follow_checks() {
    assert_eq!(
        check_follow("did:a", "did:b", "did:a"),
        Err(AppError::BadRequest("follower_did in body must match the {did} path parameter".into()))
    );
    assert_eq!(
        check_follow("did:a", "did:a", "did:b"),
        Err(AppError::Forbidden("cannot follow on behalf of a different agent".into()))
    );
    assert_eq!(check_follow("did:a", "did:a", "did:a"), Ok(()));
    assert_eq!(
        check_unfollow("did:a", "did:b"),
        Err(AppError::Forbidden("cannot unfollow on behalf of a different agent".into()))
    );
    assert_eq!(check_unfollow("did:a", "did:a"), Ok(()));
}

#[test]
fn peer_checks() {
    assert_eq!(
        check_new_peer(&PeerInfo::new("", "https://p.example/v1")),
        Err(AppError::BadRequest("node_id and api_base are required".into()))
    );
    assert_eq!(check_new_peer(&PeerInfo::new("did:p", "https://p.example/v1")), Ok(()));
    let peers = vec![PeerInfo::new("did:p", "https://p.example/v1"), PeerInfo::new("did:q", "https://q.example/v1")];
    assert_eq!(find_peer(peers.clone(), "did:q").unwrap().api_base, "https://q.example/v1");
    assert_eq!(find_peer(peers, "did:z"), Err(AppError::NotFound("peer did:z not found".into())));
}

#[test]
fn webfinger_resolution() {
    assert_eq!(
        resolve_webfinger(None),
        Err(AppError::BadRequest("missing required query parameter: resource".into()))
    );
    assert_eq!(
        resolve_webfinger(Some("acct:did:key:z6MkA@n.example")),
        Ok(("did:key:z6MkA@n.example".to_string(), "did:key:z6MkA".to_string()))
    );
    assert_eq!(
        resolve_webfinger(Some("did:key:z6MkA@n.example")),
        Ok(("did:key:z6MkA@n.example".to_string(), "did:key:z6MkA".to_string()))
    );
    assert_eq!(
        resolve_webfinger(Some("acct:nobody")),
        Err(AppError::BadRequest(
            "resource \"acct:nobody\" is not a valid agent address (expected did@host format)".into()
        ))
    );
    assert_eq!(
        resolve_webfinger(Some("alice@n.example")),
        Err(AppError::BadRequest(
            "resource \"alice@n.example\": expected a DID before '@', got \"alice\"".into()
        ))
    );
    assert_eq!(
        webfinger_unknown_agent("did:x"),
        AppError::NotFound("agent did:x not found on this node".into())
    );
    let jrd = webfinger_document("did:key:z6MkA@n.example", "did:key:z6MkA", "https://n.example/v1");
    assert_eq!(jrd.subject, "acct:did:key:z6MkA@n.example");
    assert_eq!(jrd.links.len(), 1);
    assert_eq!(jrd.links[0].rel, "self");
    assert_eq!(jrd.links[0].link_type, "application/json");
    assert_eq!(jrd.links[0].href, "https://n.example/v1/agents/did:key:z6MkA");
}

#[test]
fn peer_vote_gate() {
    let peers = vec![PeerInfo::new("did:key:zA", "https://a.example/v1"), PeerInfo::new("did:key:zB", "https://b.example/v1")];
    let half = 0.5f32.to_bits();
    assert!(matches!(
        check_peer_vote("did:key:zB", "did:key:zSelf", Some("did:key:zA"), 1.5f32.to_bits(), peers.clone()),
        Err(AppError::BadRequest(_))
    ));
    assert_eq!(
        check_peer_vote("did:key:zSelf", "did:key:zSelf", Some("did:key:zA"), half, peers.clone()),
        Err(AppError::Forbidden("a node cannot update its own reputation".into()))
    );
    let outsider = Err(AppError::Forbidden(
        "caller is not a known peer; reputation updates are community-internal".into(),
    ));
    assert_eq!(check_peer_vote("did:key:zB", "did:key:zSelf", None, half, peers.clone()), outsider);
    assert_eq!(check_peer_vote("did:key:zB", "did:key:zSelf", Some("did:key:zX"), half, peers.clone()), outsider);
    let caller = check_peer_vote("did:key:zB", "did:key:zSelf", Some("did:key:zA"), half, peers).unwrap();
    assert_eq!(caller.node_id, "did:key:zA");
}
