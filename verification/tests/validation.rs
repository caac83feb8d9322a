use semanticweft::types::{Proof, Reference, RelType, SemanticUnit, UnitType, Visibility};
use semanticweft::validation::{
    check_uuid_v7, confidence_in_range, valid_extension_name, validate_unit, ValidationError,
};

fn minimal() -> SemanticUnit {
    SemanticUnit::with_parts(
        "019526b2-f68a-7c3e-a0b4-1d2e3f4a5b6c".to_string(),
        UnitType::Assertion,
        "The boiling point of water at sea level is 100°C.".to_string(),
        "2026-02-18T12:00:00Z".to_string(),
        "agent-weathersim-v2".to_string(),
    )
}

#[test]
fn valid_minimal_unit() {
    assert_eq!(validate_unit(&minimal()), Ok(()));
}

#[test]
fn invalid_id_not_uuid() {
    let mut u = minimal();
    u.id = "not-a-uuid".into();
    assert!(matches!(validate_unit(&u), Err(ValidationError::InvalidId(_))));
}

#[test]
fn invalid_id_wrong_version() {
    let mut u = minimal();
    u.id = "550e8400-e29b-41d4-a716-446655440000".into();
    assert!(matches!(validate_unit(&u), Err(ValidationError::InvalidId(_))));
}

#[test]
fn empty_content_rejected() {
    let mut u = minimal();
    u.content = String::new();
    assert_eq!(validate_unit(&u), Err(ValidationError::EmptyContent));
}

#[test]
fn empty_author_rejected() {
    let mut u = minimal();
    u.author = String::new();
    assert_eq!(validate_unit(&u), Err(ValidationError::EmptyAuthor));
}

#[test]
fn invalid_timestamp() {
    let mut u = minimal();
    u.created_at = "not-a-date".into();
    assert!(matches!(validate_unit(&u), Err(ValidationError::InvalidTimestamp(_))));
}

#[test]
fn confidence_out_of_range() {
    let mut u = minimal();
    u.confidence = Some(1.1f64.to_bits());
    assert!(matches!(validate_unit(&u), Err(ValidationError::InvalidConfidence(_))));
    u.confidence = Some((-0.1f64).to_bits());
    assert!(matches!(validate_unit(&u), Err(ValidationError::InvalidConfidence(_))));
}

#[test]
fn confidence_boundary_values_valid() {
    let mut u = minimal();
    u.confidence = Some(0.0f64.to_bits());
    assert_eq!(validate_unit(&u), Ok(()));
    u.confidence = Some(1.0f64.to_bits());
    assert_eq!(validate_unit(&u), Ok(()));
}

#[test]
fn empty_assumptions_array_rejected() {
    let mut u = minimal();
    u.assumptions = Some(vec![]);
    assert_eq!(validate_unit(&u), Err(ValidationError::EmptyAssumptions));
}

#[test]
fn empty_string_in_assumptions_rejected() {
    let mut u = minimal();
    u.assumptions = Some(vec!["valid".into(), String::new()]);
    assert_eq!(validate_unit(&u), Err(ValidationError::EmptyAssumptionItem(1)));
}

#[test]
fn empty_references_array_rejected() {
    let mut u = minimal();
    u.references = Some(vec![]);
    assert_eq!(validate_unit(&u), Err(ValidationError::EmptyReferences));
}

#[test]
fn invalid_reference_id_rejected() {
    let mut u = minimal();
    u.references = Some(vec![Reference { id: "not-a-uuid".into(), rel: RelType::Supports }]);
    assert!(matches!(validate_unit(&u), Err(ValidationError::InvalidReferenceId(0, _))));
}

#[test]
fn valid_reference() {
    let mut u = minimal();
    u.references = Some(vec![Reference {
        id: "019526b2-f68a-7c3e-a0b4-1d2e3f4a5b6d".into(),
        rel: RelType::DerivesFrom,
    }]);
    assert_eq!(validate_unit(&u), Ok(()));
}

#[test]
fn invalid_extension_field_name() {
    let mut u = minimal();
    u.extensions.insert("foo".into(), "\"bar\"".into());
    assert!(matches!(
        validate_unit(&u),
        Err(ValidationError::InvalidExtensionFieldName(_))
    ));
}

#[test]
fn valid_extension_field() {
    let mut u = minimal();
    u.extensions.insert("x-org.semanticweft.priority".into(), "\"high\"".into());
    assert_eq!(validate_unit(&u), Ok(()));
}

#[test]
fn limited_visibility_requires_audience() {
    let mut u = minimal();
    u.visibility = Some(Visibility::Limited);
    assert_eq!(validate_unit(&u), Err(ValidationError::AudienceRequiredForLimited));
}

#[test]
fn limited_visibility_empty_audience_rejected() {
    let mut u = minimal();
    u.visibility = Some(Visibility::Limited);
    u.audience = Some(vec![]);
    assert_eq!(validate_unit(&u), Err(ValidationError::AudienceRequiredForLimited));
}

#[test]
fn limited_visibility_with_valid_audience_accepted() {
    let mut u = minimal();
    u.visibility = Some(Visibility::Limited);
    u.audience = Some(vec!["did:key:z6MkHaXXX".into()]);
    assert_eq!(validate_unit(&u), Ok(()));
}

#[test]
fn limited_visibility_empty_audience_item_rejected() {
    let mut u = minimal();
    u.visibility = Some(Visibility::Limited);
    u.audience = Some(vec!["did:key:z6Mk".into(), String::new()]);
    assert_eq!(validate_unit(&u), Err(ValidationError::EmptyAudienceItem(1)));
}

#[test]
fn public_visibility_with_audience_rejected() {
    let mut u = minimal();
    u.visibility = Some(Visibility::Public);
    u.audience = Some(vec!["did:key:z6Mk".into()]);
    assert_eq!(validate_unit(&u), Err(ValidationError::AudienceForbiddenForNonLimited));
}

#[test]
fn network_visibility_with_audience_rejected() {
    let mut u = minimal();
    u.visibility = Some(Visibility::Network);
    u.audience = Some(vec!["did:key:z6Mk".into()]);
    assert_eq!(validate_unit(&u), Err(ValidationError::AudienceForbiddenForNonLimited));
}

#[test]
fn no_visibility_with_audience_rejected() {
    let mut u = minimal();
    u.audience = Some(vec!["did:key:z6Mk".into()]);
    assert_eq!(validate_unit(&u), Err(ValidationError::AudienceForbiddenForNonLimited));
}

#[test]
fn proof_absent_unit_is_valid() {
    let u = minimal();
    assert_eq!(validate_unit(&u), Ok(()));
}

#[test]
fn proof_present_and_valid() {
    let mut u = minimal();
    u.proof = Some(Proof {
        method: "did:key:z6MkHaXXX#z6MkHaXXX".into(),
        created: "2026-02-18T12:00:00Z".into(),
        value: "zSomeBase58Signature".into(),
    });
    assert_eq!(validate_unit(&u), Ok(()));
}

#[test]
fn proof_bad_value_prefix_rejected() {
    let mut u = minimal();
    u.proof = Some(Proof {
        method: "did:key:z6MkHaXXX#z6MkHaXXX".into(),
        created: "2026-02-18T12:00:00Z".into(),
        value: "BadPrefix".into(),
    });
    assert!(matches!(validate_unit(&u), Err(ValidationError::InvalidProofShape(_))));
}

#[test]
fn proof_empty_method_rejected() {
    let mut u = minimal();
    u.proof = Some(Proof {
        method: String::new(),
        created: "2026-02-18T12:00:00Z".into(),
        value: "zSomeBase58Signature".into(),
    });
    assert!(matches!(validate_unit(&u), Err(ValidationError::InvalidProofShape(_))));
}

#[test]
fn proof_bad_created_timestamp_rejected() {
    let mut u = minimal();
    u.proof = Some(Proof {
        method: "did:key:z6MkHaXXX#z6MkHaXXX".into(),
        created: "not-a-date".into(),
        value: "zSomeBase58Signature".into(),
    });
    assert!(matches!(validate_unit(&u), Err(ValidationError::InvalidProofShape(_))));
}

#[test]
fn new_unit_is_conformant() {
    let u = SemanticUnit::new(UnitType::Inference, "derived", "did:key:z6MkA");
    assert!(check_uuid_v7(&u.id));
    assert_eq!(validate_unit(&u), Ok(()));
}

#[test]
fn first_broken_rule_is_reported() {
    let mut u = minimal();
    u.content = String::new();
    u.author = String::new();
    assert_eq!(validate_unit(&u), Err(ValidationError::EmptyContent));
}

#[test]
fn extension_name_pattern() {
    assert!(valid_extension_name("x-org.example"));
    assert!(valid_extension_name("x-a1.b2.c3"));
    assert!(!valid_extension_name("x-org"));
    assert!(!valid_extension_name("x-Org.example"));
    assert!(!valid_extension_name("x-org..example"));
    assert!(!valid_extension_name("y-org.example"));
}

#[test]
fn confidence_range_on_bits() {
    assert!(confidence_in_range(0.5f64.to_bits()));
    assert!(confidence_in_range((-0.0f64).to_bits()));
    assert!(!confidence_in_range(f64::NAN.to_bits()));
    assert!(!confidence_in_range(1.0000001f64.to_bits()));
}

#[test]
fn leap_second_timestamp_is_valid() {
    let mut u = minimal();
    u.created_at = "2015-02-18T23:59:60.234567+05:00".into();
    assert_eq!(validate_unit(&u), Ok(()));
}
