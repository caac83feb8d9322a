use semanticweft::api::{Capability, RegisterRequest, NEUTRAL_REPUTATION};
use semanticweft::node::{
    authorize_submission, build_filter, check_unit_id, discovery_document, listing_filter, read_access,
    resolve_duplicate, subgraph_depth, subgraph_root, sync_filter, take_in_public, units_equal,
    wants_event_stream, AppError, UnitQueryParams,
};
use semanticweft::graph::Graph;
use semanticweft::storage::StorageError;
use semanticweft::types::{SemanticUnit, UnitType, Visibility};

fn unit(id: &str) -> SemanticUnit {
    SemanticUnit::with_parts(
        id.to_string(),
        UnitType::Assertion,
        "content".to_string(),
        "2026-02-18T12:00:00Z".to_string(),
        "did:key:z6MkAuthor".to_string(),
    )
}

#[test]
fn app_error_statuses_and_codes() {
    let cases = vec![
        (AppError::NotFound("m".into()), 404, "not_found"),
        (AppError::BadRequest("m".into()), 400, "invalid_parameter"),
        (AppError::Conflict("m".into()), 409, "id_conflict"),
        (AppError::UnprocessableEntity("m".into()), 422, "validation_failed"),
        (AppError::Internal("m".into()), 500, "internal_error"),
        (AppError::Forbidden("m".into()), 403, "forbidden"),
        (AppError::Unauthorized("m".into()), 401, "unauthorized"),
    ];
    for (e, status, code) in cases {
        let (s, body) = e.to_response();
        assert_eq!(s, status);
        assert_eq!(body.code, code);
        assert_eq!(body.error, "m");
    }
}

#[test]
fn storage_errors_map_to_app_errors() {
    assert_eq!(AppError::from_storage(StorageError::NotFound), AppError::NotFound("not found".into()));
    assert_eq!(
        AppError::from_storage(StorageError::Conflict("dup".into())),
        AppError::Conflict("dup".into())
    );
    assert_eq!(
        AppError::from_storage(StorageError::Internal("io".into())),
        AppError::Internal("io".into())
    );
}

#[test]
fn non_public_submission_needs_author() {
    let mut u = unit("019526b2-f68a-7c3e-a0b4-000000000001");
    assert_eq!(authorize_submission(&u, None), Ok(()));
    u.visibility = Some(Visibility::Network);
    assert_eq!(
        authorize_submission(&u, None),
        Err(AppError::Unauthorized("authentication required for non-public units".into()))
    );
    assert_eq!(
        authorize_submission(&u, Some("did:key:z6MkOther")),
        Err(AppError::Forbidden("you may only submit units authored by your own DID".into()))
    );
    assert_eq!(authorize_submission(&u, Some("did:key:z6MkAuthor")), Ok(()));
}

#[test]
fn resubmission_is_idempotent_and_conflict_is_detected() {
    let stored = unit("019526b2-f68a-7c3e-a0b4-000000000001");
    let same = stored.clone();
    assert!(units_equal(&stored, &same));
    assert_eq!(resolve_duplicate(Some(stored.clone()), &same).unwrap().id, stored.id);
    let mut changed = stored.clone();
    changed.content = "other".into();
    assert_eq!(
        resolve_duplicate(Some(stored.clone()), &changed),
        Err(AppError::Conflict(
            "unit 019526b2-f68a-7c3e-a0b4-000000000001 already exists with different content".into()
        ))
    );
    assert_eq!(
        resolve_duplicate(None, &changed),
        Err(AppError::Internal("conflict on put_unit but unit not found".into()))
    );
}

#[test]
fn unit_equality_follows_float_and_map_semantics() {
    let mut a = unit("019526b2-f68a-7c3e-a0b4-000000000001");
    let mut b = a.clone();
    a.confidence = Some(0.0f64.to_bits());
    b.confidence = Some((-0.0f64).to_bits());
    assert!(units_equal(&a, &b));
    a.confidence = Some(f64::NAN.to_bits());
    b.confidence = Some(f64::NAN.to_bits());
    assert!(!units_equal(&a, &b));
    a.confidence = None;
    b.confidence = None;
    a.extensions.insert("x-a.one".into(), "1".into());
    a.extensions.insert("x-a.two".into(), "2".into());
    b.extensions.insert("x-a.two".into(), "2".into());
    b.extensions.insert("x-a.one".into(), "1".into());
    assert!(units_equal(&a, &b));
    b.extensions.insert("x-a.one".into(), "3".into());
    assert!(!units_equal(&a, &b));
}

#[test]
fn read_access_by_visibility() {
    let id = "019526b2-f68a-7c3e-a0b4-000000000001";
    let hidden = Err(AppError::NotFound(format!("unit {id} not found")));
    let u = unit(id);
    assert!(read_access(u.clone(), id, None, false).is_ok());

    let mut n = u.clone();
    n.visibility = Some(Visibility::Network);
    assert_eq!(read_access(n.clone(), id, None, true).map(|_| ()), hidden.clone());
    assert_eq!(read_access(n.clone(), id, Some("did:key:z6MkF"), false).map(|_| ()), hidden.clone());
    assert!(read_access(n, id, Some("did:key:z6MkF"), true).is_ok());

    let mut l = u;
    l.visibility = Some(Visibility::Limited);
    l.audience = Some(vec!["did:key:z6MkReader".into()]);
    assert!(read_access(l.clone(), id, Some("did:key:z6MkReader"), false).is_ok());
    assert_eq!(read_access(l.clone(), id, Some("did:key:z6MkOther"), true).map(|_| ()), hidden.clone());
    assert_eq!(read_access(l, id, None, true).map(|_| ()), hidden);
}

#[test]
fn filter_from_query_parameters() {
    let mut p = UnitQueryParams::default();
    p.unit_type = Some("assertion, inference,,bogus, question ".into());
    p.limit = Some(9000);
    p.author = Some("did:key:z6MkA".into());
    let f = build_filter(p, vec![Visibility::Public]);
    assert_eq!(f.unit_types, vec![UnitType::Assertion, UnitType::Inference, UnitType::Question]);
    assert_eq!(f.limit, 500);
    assert_eq!(f.author.as_deref(), Some("did:key:z6MkA"));
    assert_eq!(f.visibilities, vec![Visibility::Public]);
    let f = build_filter(UnitQueryParams::default(), vec![]);
    assert!(f.unit_types.is_empty());
    assert_eq!(f.limit, 50);
    let mut p = UnitQueryParams::default();
    p.limit = Some(0);
    assert_eq!(build_filter(p, vec![]).limit, 1);
}

#[test]
fn listing_scope_by_caller() {
    let f = listing_filter(UnitQueryParams::default(), None, vec![]);
    assert_eq!(f.visibilities, vec![Visibility::Public]);
    let f = listing_filter(UnitQueryParams::default(), Some("did:key:z6MkMe"), vec![]);
    assert_eq!(f.visibilities, vec![Visibility::Public]);
    assert!(f.network_for_authors.is_empty());
    let f = listing_filter(
        UnitQueryParams::default(),
        Some("did:key:z6MkMe"),
        vec!["did:key:z6MkA".into()],
    );
    assert_eq!(f.visibilities, vec![Visibility::Public, Visibility::Network]);
    assert_eq!(f.network_for_authors, vec!["did:key:z6MkA".to_string()]);
}

#[test]
fn sync_uses_last_event_id_as_cursor() {
    let f = sync_filter(UnitQueryParams::default(), Some("019526b2-aaaa".into()));
    assert_eq!(f.after.as_deref(), Some("019526b2-aaaa"));
    assert_eq!(f.visibilities, vec![Visibility::Public]);
    let mut p = UnitQueryParams::default();
    p.after = Some("explicit".into());
    assert_eq!(sync_filter(p, Some("header".into())).after.as_deref(), Some("explicit"));
    assert!(wants_event_stream(Some("text/html, text/event-stream;q=0.9")));
    assert!(!wants_event_stream(Some("application/json")));
    assert!(!wants_event_stream(None));
}

#[test]
fn subgraph_parameters() {
    assert_eq!(subgraph_depth(None), 10);
    assert_eq!(subgraph_depth(Some(3)), 3);
    assert_eq!(subgraph_depth(Some(99)), 50);
    let id = "019526b2-f68a-7c3e-a0b4-000000000001";
    let mut u = unit(id);
    assert!(subgraph_root(u.clone(), id).is_ok());
    u.visibility = Some(Visibility::Limited);
    assert_eq!(
        subgraph_root(u, id).map(|_| ()),
        Err(AppError::NotFound(format!("unit {id} not found")))
    );
}

#[test]
fn discovery_document_lists_capabilities() {
    let d = discovery_document("did:key:z6MkNode", "https://n.example/v1", Some("N".into()), None, Some("z6Mk".into()));
    assert_eq!(
        d.capabilities,
        vec![Capability::Sync, Capability::Sse, Capability::Subgraph, Capability::Peers, Capability::Agents, Capability::Follows]
    );
    assert_eq!(d.name.as_deref(), Some("N"));
    assert_eq!(d.public_key.as_deref(), Some("z6Mk"));
    assert_eq!(d.protocol_version, "1.0");
    let _ = RegisterRequest {
        did: "x".into(),
        inbox_url: "y".into(),
        display_name: None,
        public_key: None,
    };
    assert_eq!(f32::from_bits(NEUTRAL_REPUTATION), 0.5);
}

#[test]
fn malformed_unit_id_is_a_bad_request() {
    assert_eq!(check_unit_id("019526b2-f68a-7c3e-a0b4-1d2e3f4a5b6c"), Ok(()));
    assert_eq!(
        check_unit_id("not-a-uuid"),
        Err(AppError::BadRequest("unit id not-a-uuid is not a valid UUID".into()))
    );
}

#[test]
fn subgraph_walk_leaves_out_non_public_units() {
    let mut g = Graph::new();
    let mut next = Vec::new();
    let public = unit("019526b2-0000-7000-8000-000000000001");
    let mut limited = unit("019526b2-0000-7000-8000-000000000002");
    limited.visibility = Some(Visibility::Limited);
    assert!(take_in_public(&mut g, &mut next, public.clone()));
    assert!(!take_in_public(&mut g, &mut next, public));
    assert!(!take_in_public(&mut g, &mut next, limited));
    assert_eq!(g.len(), 1);
    assert_eq!(next, vec!["019526b2-0000-7000-8000-000000000001".to_string()]);
}
