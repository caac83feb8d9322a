use semanticweft::identity::{
    did_key_from_bytes, encode_multibase, hex_to_32_bytes, AgentIdentity, NodeIdentity,
    SeedHexError,
};
use semanticweft::storage::StorageError;

#[test]
fn did_key_prefix_is_z6mk() {
    let zero_key = [0u8; 32];
    let did = did_key_from_bytes(&zero_key);
    assert!(did.starts_with("did:key:z"), "did:key always starts with z");
}

#[test]
fn did_starts_with_z6mk() {
    let id = AgentIdentity::generate();
    assert!(id.did().starts_with("did:key:z6Mk"), "got: {}", id.did());
}

#[test]
fn stable_from_seed() {
    let id = AgentIdentity::generate();
    let seed = id.seed();
    let restored = AgentIdentity::from_seed(&seed);
    assert_eq!(id.did(), restored.did());
}

#[test]
fn public_key_multibase_z_prefix() {
    let id = AgentIdentity::generate();
    assert!(id.public_key_multibase().starts_with('z'));
}

#[test]
fn sign_returns_64_bytes() {
    let id = AgentIdentity::generate();
    let sig = id.sign(b"hello semanticweft");
    assert_eq!(sig.len(), 64);
}

#[test]
fn zero_key_multibase_is_known_value() {
    let mb = encode_multibase(&[0u8; 32]);
    assert_eq!(mb, "z6MkeTG3bFFSLYVU7VqhgZxqr6YzpaGrQtFMh1uvqGy1vDnP");
    assert_eq!(
        did_key_from_bytes(&[0u8; 32]),
        "did:key:z6MkeTG3bFFSLYVU7VqhgZxqr6YzpaGrQtFMh1uvqGy1vDnP"
    );
}

#[test]
fn did_is_did_key_of_public_key_multibase() {
    let id = AgentIdentity::from_seed(&[7u8; 32]);
    assert_eq!(id.did(), format!("did:key:{}", id.public_key_multibase()));
}

#[test]
fn seed_hex_roundtrip() {
    let id = AgentIdentity::from_seed(&[0xabu8; 32]);
    let hex = id.seed_hex();
    assert_eq!(hex, "ab".repeat(32));
    let back = AgentIdentity::from_seed_hex(&hex).unwrap();
    assert_eq!(back.did(), id.did());
}

#[test]
fn hex_to_32_bytes_rejects_bad_input() {
    assert_eq!(hex_to_32_bytes("abcd"), Err(SeedHexError::WrongLength(4)));
    let mut bad = "0".repeat(62);
    bad.push_str("zz");
    assert_eq!(hex_to_32_bytes(&bad), Err(SeedHexError::InvalidCharacter(b'z')));
    assert_eq!(hex_to_32_bytes(&"01".repeat(32)), Ok([1u8; 32]));
}

#[test]
fn node_identity_reloads_same_did() {
    let (first, stored) = NodeIdentity::load_or_generate(None).unwrap();
    let stored = stored.expect("a fresh seed is handed back for saving");
    let (again, none) = NodeIdentity::load_or_generate(Some(&stored)).unwrap();
    assert!(none.is_none());
    assert_eq!(first.did(), again.did());
    assert!(first.did().starts_with("did:key:z6Mk"));
    assert!(first.public_key_multibase().starts_with('z'));
}

#[test]
fn node_identity_rejects_short_seed() {
    assert!(matches!(
        NodeIdentity::load_or_generate(Some("abcd")),
        Err(StorageError::Internal(_))
    ));
}
