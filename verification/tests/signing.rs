use semanticweft::identity::AgentIdentity;
use semanticweft::signing::{decode_ed25519_multibase, decode_signature, sign_unit, verify_proof, KeyDecodeError, ProofError, SigDecodeError, SigningError};
use semanticweft::types::{SemanticUnit, Source, UnitType, Visibility};
use serde_json::{Number, Value};
type JsonObject = serde_json::Map<String, Value>;

fn rel_name(r: &semanticweft::types::RelType) -> &'static str {
    r.as_str()
}

/// The RFC 8785 bytes of the unit without its proof.
fn canonical(u: &SemanticUnit) -> Result<Vec<u8>, String> {
    let mut m = JsonObject::new();
    m.insert("id".into(), Value::String(u.id.clone()));
    m.insert("type".into(), Value::String(u.unit_type.as_str().to_string()));
    m.insert("content".into(), Value::String(u.content.clone()));
    m.insert("created_at".into(), Value::String(u.created_at.clone()));
    m.insert("author".into(), Value::String(u.author.clone()));
    if let Some(c) = u.confidence {
        let n = Number::from_f64(f64::from_bits(c)).ok_or("confidence is not finite")?;
        m.insert("confidence".into(), Value::Number(n));
    }
    if let Some(a) = &u.assumptions {
        m.insert("assumptions".into(), Value::Array(a.iter().cloned().map(Value::String).collect()));
    }
    if let Some(s) = &u.source {
        let v = match s {
            Source::Uri(uri) => Value::String(uri.clone()),
            Source::Labeled { label, uri } => {
                let mut o = JsonObject::new();
                o.insert("label".into(), Value::String(label.clone()));
                if let Some(x) = uri {
                    o.insert("uri".into(), Value::String(x.clone()));
                }
                Value::Object(o)
            }
        };
        m.insert("source".into(), v);
    }
    if let Some(rs) = &u.references {
        let arr = rs
            .iter()
            .map(|r| {
                let mut o = JsonObject::new();
                o.insert("id".into(), Value::String(r.id.clone()));
                o.insert("rel".into(), Value::String(rel_name(&r.rel).to_string()));
                Value::Object(o)
            })
            .collect();
        m.insert("references".into(), Value::Array(arr));
    }
    if let Some(v) = &u.visibility {
        let name = match v {
            Visibility::Public => "public",
            Visibility::Network => "network",
            Visibility::Limited => "limited",
        };
        m.insert("visibility".into(), Value::String(name.into()));
    }
    if let Some(a) = &u.audience {
        m.insert("audience".into(), Value::Array(a.iter().cloned().map(Value::String).collect()));
    }
    for i in 0..u.extensions.len() {
        let (k, v) = u.extensions.entry(i);
        let parsed: Value = serde_json::from_str(v).map_err(|e| e.to_string())?;
        m.insert(k.clone(), parsed);
    }
    serde_jcs::to_vec(&Value::Object(m)).map_err(|e| e.to_string())
}

fn test_unit() -> SemanticUnit {
    SemanticUnit::new(
        UnitType::Assertion,
        "The boiling point of water at sea level is 100°C.",
        "did:key:z6MkTest",
    )
}

fn test_key() -> ([u8; 32], String) {
    let id = AgentIdentity::generate();
    (id.seed(), id.did())
}

#[test]
fn sign_then_verify_succeeds() {
    let (seed, did) = test_key();
    let mut unit = test_unit();
    let payload = canonical(&unit);
    sign_unit(&mut unit, &seed, &did, payload).expect("signing should succeed");
    assert!(unit.proof.is_some());
    verify_proof(&unit, canonical(&unit)).expect("verification should succeed");
}

#[test]
fn already_signed_returns_error() {
    let (seed, did) = test_key();
    let mut unit = test_unit();
    let payload = canonical(&unit);
    sign_unit(&mut unit, &seed, &did, payload).unwrap();
    let payload = canonical(&unit);
    let result = sign_unit(&mut unit, &seed, &did, payload);
    assert!(matches!(result, Err(SigningError::AlreadySigned)));
}

#[test]
fn tamper_content_then_verify_fails() {
    let (seed, did) = test_key();
    let mut unit = test_unit();
    let payload = canonical(&unit);
    sign_unit(&mut unit, &seed, &did, payload).unwrap();
    unit.content = "tampered content".into();
    let result = verify_proof(&unit, canonical(&unit));
    assert!(matches!(result, Err(ProofError::VerificationFailed)));
}

#[test]
fn tamper_signature_then_verify_fails() {
    let (seed, did) = test_key();
    let mut unit = test_unit();
    let payload = canonical(&unit);
    sign_unit(&mut unit, &seed, &did, payload).unwrap();
    if let Some(ref mut proof) = unit.proof {
        let mut corrupted = proof.value.clone();
        let last = corrupted.pop().unwrap_or('A');
        corrupted.push(if last == 'A' { 'B' } else { 'A' });
        proof.value = corrupted;
    }
    let result = verify_proof(&unit, canonical(&unit));
    assert!(matches!(
        result,
        Err(ProofError::VerificationFailed) | Err(ProofError::DecodingFailed(_))
    ));
}

#[test]
fn missing_proof_returns_proof_missing() {
    let unit = test_unit();
    assert_eq!(verify_proof(&unit, canonical(&unit)), Err(ProofError::ProofMissing));
}

#[test]
fn proof_method_and_value_shape() {
    let (seed, did) = test_key();
    let mut unit = test_unit();
    let payload = canonical(&unit);
    sign_unit(&mut unit, &seed, &did, payload).unwrap();
    let proof = unit.proof.as_ref().unwrap();
    assert_eq!(proof.method, format!("{did}#{did}"));
    assert!(proof.value.starts_with('z'));
    assert_eq!(decode_signature(&proof.value).map(|s| s.len()), Ok(64));
}

#[test]
fn canonicalisation_error_is_reported() {
    let (seed, did) = test_key();
    let mut unit = test_unit();
    let r = sign_unit(&mut unit, &seed, &did, Err("boom".to_string()));
    assert_eq!(r, Err(SigningError::Canonicalization("boom".to_string())));
    assert!(unit.proof.is_none());
}

#[test]
fn signature_by_other_key_fails() {
    let (seed, _) = test_key();
    let (_, other_did) = test_key();
    let mut unit = test_unit();
    let payload = canonical(&unit);
    sign_unit(&mut unit, &seed, &other_did, payload).unwrap();
    assert_eq!(verify_proof(&unit, canonical(&unit)), Err(ProofError::VerificationFailed));
}

#[test]
fn bad_methods_are_invalid() {
    let (seed, _) = test_key();
    let mut unit = test_unit();
    let payload = canonical(&unit);
    sign_unit(&mut unit, &seed, "did:web:example.com", payload).unwrap();
    assert!(matches!(verify_proof(&unit, canonical(&unit)), Err(ProofError::InvalidMethod(_))));
}

#[test]
fn multibase_key_decoding_errors() {
    assert_eq!(decode_ed25519_multibase("6Mk"), Err(KeyDecodeError::MissingZ));
    assert!(matches!(decode_ed25519_multibase("z0OIl"), Err(KeyDecodeError::Base58(_))));
    assert_eq!(decode_ed25519_multibase("z2"), Err(KeyDecodeError::MissingPrefix));
    let id = AgentIdentity::from_seed(&[3u8; 32]);
    assert!(decode_ed25519_multibase(&id.public_key_multibase()).is_ok());
    assert_eq!(decode_signature("abc"), Err(SigDecodeError::MissingZ));
    assert_eq!(decode_signature("z2"), Err(SigDecodeError::WrongLength));
}
