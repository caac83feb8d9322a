use semanticweft::embed::{new_unit, render_units, NewUnitError, RenderError, UnitOptions};
use semanticweft::render::has_short_id;
use semanticweft::types::{SemanticUnit, Source, UnitType};
use semanticweft::validation::ValidationError;

fn options() -> UnitOptions {
    UnitOptions { confidence: None, assumptions: vec![], source: None }
}

#[test]
fn new_unit_applies_options() {
    let opts = UnitOptions {
        confidence: Some(0.7f64.to_bits()),
        assumptions: vec!["a".into()],
        source: Some("https://example.org".into()),
    };
    let u = new_unit("inference", "derived claim", "did:key:z6MkA", opts).unwrap();
    assert_eq!(u.unit_type, UnitType::Inference);
    assert_eq!(u.content, "derived claim");
    assert_eq!(u.confidence, Some(0.7f64.to_bits()));
    assert_eq!(u.assumptions, Some(vec!["a".to_string()]));
    assert!(matches!(u.source, Some(Source::Uri(ref s)) if s == "https://example.org"));
    let plain = new_unit("question", "why?", "did:key:z6MkA", options()).unwrap();
    assert!(plain.assumptions.is_none());
}

#[test]
fn new_unit_errors() {
    assert_eq!(
        new_unit("opinion", "x", "y", options()).map(|_| ()),
        Err(NewUnitError::UnknownType("opinion".into()))
    );
    assert_eq!(
        new_unit("assertion", "", "y", options()).map(|_| ()),
        Err(NewUnitError::Invalid(ValidationError::EmptyContent))
    );
    let mut bad = options();
    bad.confidence = Some(2.0f64.to_bits());
    assert!(matches!(
        new_unit("assertion", "x", "y", bad),
        Err(NewUnitError::Invalid(ValidationError::InvalidConfidence(_)))
    ));
}

#[test]
fn render_units_single_and_many() {
    assert_eq!(render_units(vec![], None), Err(RenderError::Empty));
    let a = SemanticUnit::with_parts(
        "019526b2-f68a-7c3e-a0b4-000000000001".into(),
        UnitType::Assertion,
        "one".into(),
        "2026-02-18T12:00:00Z".into(),
        "did:a".into(),
    );
    let mut b = a.clone();
    b.id = "019526b2-f68a-7c3e-a0b4-000000000002".into();
    let mut c = a.clone();
    c.confidence = Some(0.5f64.to_bits());
    let single = render_units(vec![c], Some("0.50")).unwrap();
    assert!(single.starts_with("[assertion] did:a  confidence: 0.50\n"));
    let many = render_units(vec![a.clone(), b.clone()], None).unwrap();
    assert!(many.starts_with("SemanticWeft Graph  2 units\n"));
    assert!(many.contains("ASSERTIONS (2)"));
    let mut odd = b;
    odd.id = "0123456é9".into();
    assert_eq!(render_units(vec![a, odd], None), Err(RenderError::UnshortenableId("0123456é9".into())));
}

#[test]
fn short_id_boundary() {
    assert!(has_short_id("019526b2-f68a"));
    assert!(has_short_id("abc"));
    assert!(has_short_id("é"));
    assert!(!has_short_id("0123456é9"));
    assert!(has_short_id("012345é9"));
}
