use semanticweft::api::{AgentProfile, AgentStatus, NEUTRAL_REPUTATION};
use semanticweft::auth::{
    agent_auth_finish, agent_auth_start, build_outbound_signature, build_signing_string,
    parse_signature_header, split_signature_params, unquote, validate_date_at,
    verify_node_signature, verify_node_signature_at, RequestHead,
};
use semanticweft::identity::AgentIdentity;
use semanticweft::storage::StorageError;

fn head(method: &str, path: &str, headers: Vec<(&str, String)>) -> RequestHead {
    RequestHead {
        method: method.to_string(),
        path_and_query: Some(path.to_string()),
        headers: headers.into_iter().map(|(k, v)| (k.to_string(), Some(v))).collect(),
    }
}

fn now() -> (i64, u32) {
    let d = std::time::SystemTime::now().duration_since(std::time::UNIX_EPOCH).unwrap();
    (d.as_secs() as i64, d.subsec_nanos())
}

#[test]
fn outbound_signature_verifies_as_node_auth() {
    let node = AgentIdentity::from_seed(&[9u8; 32]);
    let path = "/v1/agents/did%3Akey%3Az6MkA/inbox";
    let (date, sig) = build_outbound_signature(&node.seed(), &node.did(), "post", path, "peer.example");
    let h = head(
        "POST",
        path,
        vec![("host", "peer.example".into()), ("date", date.clone()), ("signature", sig.clone())],
    );
    assert_eq!(verify_node_signature(&h), Ok(node.did()));
    assert_eq!(verify_node_signature_at(&h, now()), Ok(node.did()));

    let tampered = head(
        "POST",
        "/v1/agents/other/inbox",
        vec![("host", "peer.example".into()), ("date", date.clone()), ("signature", sig.clone())],
    );
    assert_eq!(
        verify_node_signature(&tampered),
        Err("node signature verification failed".to_string())
    );
    let stale = verify_node_signature_at(&h, (now().0 + 3600, 0));
    assert!(stale.unwrap_err().starts_with("Date header invalid: "));
    let unsigned = head("POST", path, vec![("date", date)]);
    assert_eq!(verify_node_signature(&unsigned), Err("missing Signature header".to_string()));
}

#[test]
fn signature_header_parsing() {
    let p = parse_signature_header(
        r#"keyId="did:key:z6MkA", algorithm="ed25519", headers="(request-target) host date", signature="zABC""#,
    )
    .unwrap();
    assert_eq!(p.key_id, "did:key:z6MkA");
    assert_eq!(p.algorithm, "ed25519");
    assert_eq!(p.headers, vec!["(request-target)", "host", "date"]);
    assert_eq!(p.signature, "zABC");
    let defaults = parse_signature_header(r#"keyId="k",signature="s""#).unwrap();
    assert_eq!(defaults.algorithm, "ed25519");
    assert_eq!(defaults.headers, vec!["date"]);
    assert_eq!(parse_signature_header(r#"signature="s""#), Err("missing keyId".to_string()));
    assert_eq!(parse_signature_header(r#"keyId="k""#), Err("missing signature".to_string()));
    assert_eq!(
        parse_signature_header("keyId=k,signature=\"s\""),
        Err("expected quoted string, got: \"k\"".to_string())
    );
    assert_eq!(
        split_signature_params(r#"a="x,y", b="z",  "#),
        vec![r#"a="x,y""#.to_string(), r#"b="z""#.to_string()]
    );
    assert_eq!(unquote("  \"v\" "), Ok("v".to_string()));
}

#[test]
fn signing_string_lines() {
    let h = head("GET", "/v1/units?limit=5", vec![("host", "n.example".into()), ("date", "D".into())]);
    let names = vec!["(request-target)".to_string(), "host".to_string(), "date".to_string()];
    assert_eq!(
        build_signing_string(&h, &names, "ed25519"),
        Ok("(request-target): get /v1/units?limit=5\nhost: n.example\ndate: D".to_string())
    );
    let missing = vec!["x-custom".to_string()];
    assert_eq!(
        build_signing_string(&h, &missing, "ed25519"),
        Err("missing header: x-custom".to_string())
    );
}

#[test]
fn date_window() {
    let t = 1_771_416_000i64; // 2026-02-18T12:00:00Z
    assert_eq!(validate_date_at("2026-02-18T12:00:00Z", (t + 300, 0)), Ok(()));
    assert_eq!(
        validate_date_at("2026-02-18T12:00:00Z", (t + 301, 0)),
        Err("Date is 301s from server clock (max 300s allowed)".to_string())
    );
    assert_eq!(validate_date_at("Wed, 18 Feb 2026 12:00:00 GMT", (t - 10, 0)), Ok(()));
    assert!(validate_date_at("yesterday", (t, 0)).unwrap_err().starts_with("unparseable date: "));
}

#[test]
fn agent_signature_roundtrip() {
    let agent = AgentIdentity::from_seed(&[4u8; 32]);
    let path = "/v1/agents/x/following";
    let (date, sig) = build_outbound_signature(&agent.seed(), &agent.did(), "post", path, "n.example");
    let h = head("POST", path, vec![("host", "n.example".into()), ("date", date), ("signature", sig)]);
    let parsed = agent_auth_start(&h, now()).unwrap();
    assert_eq!(parsed.key_id, agent.did());
    let profile = AgentProfile {
        did: agent.did(),
        inbox_url: "https://n.example/inbox".into(),
        display_name: None,
        public_key: Some(agent.public_key_multibase()),
        status: AgentStatus::Full,
        contribution_count: 0,
        reputation: NEUTRAL_REPUTATION,
    };
    assert_eq!(agent_auth_finish(&h, &parsed, Ok(Some(profile))), Ok(agent.did()));
    assert_eq!(
        agent_auth_finish(&h, &parsed, Ok(None)),
        Err(format!("agent {} not registered", agent.did()))
    );
    assert!(agent_auth_finish(&h, &parsed, Err(StorageError::Internal("x".into())))
        .unwrap_err()
        .starts_with("storage error: "));
}

#[test]
fn outbound_header_with_comma_in_key_id_parses_back() {
    let node = AgentIdentity::from_seed(&[7u8; 32]);
    let did = "did:web:a,b.example";
    let (date, sig) = build_outbound_signature(&node.seed(), did, "post", "/inbox", "peer.example");
    assert!(date.ends_with(" GMT"));
    let parsed = parse_signature_header(&sig).unwrap();
    assert_eq!(parsed.key_id, did);
    assert_eq!(parsed.algorithm, "ed25519");
    assert_eq!(parsed.headers, vec!["(request-target)", "host", "date"]);
    assert!(parsed.signature.starts_with('z'));
}

#[test]
fn leap_second_date_is_measured_from_the_following_second() {
    let t: i64 = 1424285999;
    let leap = "2015-02-18T23:59:60.234567+05:00";
    assert_eq!(validate_date_at(leap, (t + 302, 0)), Ok(()));
    assert_eq!(
        validate_date_at(leap, (t + 303, 0)),
        Err("Date is 301s from server clock (max 300s allowed)".to_string())
    );
}
