use semanticweft::address::{AddressError, AgentAddress};

#[test]
fn parse_valid() {
    let a = AgentAddress::parse("did:key:z6MkFoo@sweft.example.com").unwrap();
    assert_eq!(a.did, "did:key:z6MkFoo");
    assert_eq!(a.hostname, "sweft.example.com");
}

#[test]
fn parse_missing_at() {
    assert_eq!(
        AgentAddress::parse("did:key:z6MkFoo"),
        Err(AddressError::MissingAt("did:key:z6MkFoo".into()))
    );
}

#[test]
fn parse_empty_did() {
    assert!(matches!(
        AgentAddress::parse("@sweft.example.com"),
        Err(AddressError::EmptyDid(_))
    ));
}

#[test]
fn parse_empty_hostname() {
    assert!(matches!(
        AgentAddress::parse("did:key:z6MkFoo@"),
        Err(AddressError::EmptyHostname(_))
    ));
}

#[test]
fn well_known_url() {
    let a = AgentAddress::new("did:key:z6MkFoo", "sweft.example.com");
    assert_eq!(
        a.well_known_url(),
        "https://sweft.example.com/.well-known/semanticweft"
    );
}

#[test]
fn inbox_url_encodes_did() {
    let a = AgentAddress::new("did:key:z6MkFoo", "sweft.example.com");
    assert_eq!(
        a.inbox_url("https://sweft.example.com/v1"),
        "https://sweft.example.com/v1/agents/did%3Akey%3Az6MkFoo/inbox"
    );
}

#[test]
fn inbox_url_strips_trailing_slash() {
    let a = AgentAddress::new("did:key:z6MkFoo", "sweft.example.com");
    let with_slash = a.inbox_url("https://sweft.example.com/v1/");
    let without = a.inbox_url("https://sweft.example.com/v1");
    assert_eq!(with_slash, without);
}

#[test]
fn display_roundtrip() {
    let original = "did:key:z6MkFoo@sweft.example.com";
    let a = AgentAddress::parse(original).unwrap();
    assert_eq!(a.to_string(), original);
}

#[test]
fn parse_splits_on_last_at_and_trims() {
    let a = AgentAddress::parse("  did:key:z6Mk@odd @ node.example.org ").unwrap();
    assert_eq!(a.did, "did:key:z6Mk@odd");
    assert_eq!(a.hostname, "node.example.org");
}

#[test]
fn parse_blank_parts_carry_whole_input() {
    assert_eq!(
        AgentAddress::parse("   @host"),
        Err(AddressError::EmptyDid("   @host".into()))
    );
    assert_eq!(
        AgentAddress::parse("did:key:z6Mk@  "),
        Err(AddressError::EmptyHostname("did:key:z6Mk@  ".into()))
    );
}

#[test]
fn node_and_register_urls() {
    let a = AgentAddress::new("did:key:z6MkFoo", "sweft.example.com");
    assert_eq!(a.node_url(), "https://sweft.example.com");
    assert_eq!(
        a.register_url("https://sweft.example.com/v1//"),
        "https://sweft.example.com/v1/agents/did%3Akey%3Az6MkFoo"
    );
}

#[test]
fn text_form_parses_back_to_same_address() {
    let a = AgentAddress::new("did:key:z6MkBar", "n.example");
    let back = AgentAddress::parse(&a.to_string()).unwrap();
    assert_eq!(back, a);
}
