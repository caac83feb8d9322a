use semanticweft::graph::Graph;
use semanticweft::types::{Reference, RelType, SemanticUnit, UnitType};

fn unit(id: &str, unit_type: UnitType, refs: Vec<(&str, RelType)>) -> SemanticUnit {
    let mut u = SemanticUnit::with_parts(
        id.to_string(),
        unit_type,
        "test".to_string(),
        "2026-02-18T12:00:00Z".to_string(),
        "test-agent".to_string(),
    );
    if !refs.is_empty() {
        u.references = Some(
            refs.into_iter()
                .map(|(id, rel)| Reference { id: id.to_string(), rel })
                .collect(),
        );
    }
    u
}

#[test]
fn add_and_get() {
    let mut g = Graph::new();
    let u = unit("019526b2-f68a-7c3e-a0b4-1d2e3f4a5b6c", UnitType::Assertion, vec![]);
    g.add(u.clone());
    assert_eq!(g.len(), 1);
    assert_eq!(
        g.get("019526b2-f68a-7c3e-a0b4-1d2e3f4a5b6c").map(|u| u.id.as_str()),
        Some("019526b2-f68a-7c3e-a0b4-1d2e3f4a5b6c")
    );
}

#[test]
fn by_type() {
    let mut g = Graph::new();
    g.add(unit("019526b2-f68a-7c3e-a0b4-1d2e3f4a5b6c", UnitType::Assertion, vec![]));
    g.add(unit("019526b2-f68a-7c3e-a0b4-1d2e3f4a5b6d", UnitType::Inference, vec![]));
    assert_eq!(g.by_type(&UnitType::Assertion).len(), 1);
    assert_eq!(g.by_type(&UnitType::Question).len(), 0);
}

#[test]
fn outgoing_and_incoming() {
    let id_a = "019526b2-f68a-7c3e-a0b4-1d2e3f4a5b6c";
    let id_b = "019526b2-f68a-7c3e-a0b4-1d2e3f4a5b6d";

    let mut g = Graph::new();
    g.add(unit(id_a, UnitType::Assertion, vec![]));
    g.add(unit(id_b, UnitType::Inference, vec![(id_a, RelType::DerivesFrom)]));

    assert_eq!(g.outgoing(id_b).len(), 1);
    assert_eq!(g.outgoing(id_b)[0].id, id_a);
    assert_eq!(g.incoming(id_a).len(), 1);
    assert_eq!(g.incoming(id_a)[0].id, id_b);
    assert_eq!(g.outgoing(id_a).len(), 0);
    assert_eq!(g.incoming(id_b).len(), 0);
}

#[test]
fn ancestors_and_descendants() {
    let ids = [
        "019526b2-f68a-7c3e-a0b4-1d2e3f4a5b6c",
        "019526b2-f68a-7c3e-a0b4-1d2e3f4a5b6d",
        "019526b2-f68a-7c3e-a0b4-1d2e3f4a5b6e",
    ];
    let mut g = Graph::new();
    g.add(unit(ids[0], UnitType::Assertion, vec![]));
    g.add(unit(ids[1], UnitType::Inference, vec![(ids[0], RelType::DerivesFrom)]));
    g.add(unit(ids[2], UnitType::Inference, vec![(ids[1], RelType::DerivesFrom)]));

    let anc = g.ancestors(ids[2]);
    assert_eq!(anc.len(), 2);

    let desc = g.descendants(ids[0]);
    assert_eq!(desc.len(), 2);
}

#[test]
fn subgraph() {
    let ids = [
        "019526b2-f68a-7c3e-a0b4-1d2e3f4a5b6c",
        "019526b2-f68a-7c3e-a0b4-1d2e3f4a5b6d",
        "019526b2-f68a-7c3e-a0b4-1d2e3f4a5b6e",
        "019526b2-f68a-7c3e-a0b4-1d2e3f4a5b6f",
    ];
    let mut g = Graph::new();
    g.add(unit(ids[0], UnitType::Assertion, vec![]));
    g.add(unit(ids[1], UnitType::Inference, vec![(ids[0], RelType::DerivesFrom)]));
    g.add(unit(ids[2], UnitType::Challenge, vec![(ids[1], RelType::Rebuts)]));
    g.add(unit(ids[3], UnitType::Question, vec![]));

    let sg = g.subgraph(ids[1]);
    assert_eq!(sg.len(), 3);
}

#[test]
fn adding_same_id_replaces_unit() {
    let id = "019526b2-f68a-7c3e-a0b4-1d2e3f4a5b6c";
    let mut g = Graph::new();
    g.add(unit(id, UnitType::Assertion, vec![]));
    g.add(unit(id, UnitType::Question, vec![]));
    assert_eq!(g.len(), 1);
    assert_eq!(g.get(id).unwrap().unit_type, UnitType::Question);
}

#[test]
fn ancestor_iff_descendant_on_a_diamond() {
    let ids = [
        "019526b2-f68a-7c3e-a0b4-1d2e3f4a5b61",
        "019526b2-f68a-7c3e-a0b4-1d2e3f4a5b62",
        "019526b2-f68a-7c3e-a0b4-1d2e3f4a5b63",
        "019526b2-f68a-7c3e-a0b4-1d2e3f4a5b64",
    ];
    let mut g = Graph::new();
    g.add(unit(ids[0], UnitType::Assertion, vec![]));
    g.add(unit(ids[1], UnitType::Inference, vec![(ids[0], RelType::Supports)]));
    g.add(unit(ids[2], UnitType::Inference, vec![(ids[0], RelType::Refines)]));
    g.add(unit(
        ids[3],
        UnitType::Challenge,
        vec![(ids[1], RelType::Rebuts), (ids[2], RelType::Questions)],
    ));
    let anc: Vec<&str> = g.ancestors(ids[3]).iter().map(|u| u.id.as_str()).collect();
    assert_eq!(anc.len(), 3);
    for a in &anc {
        let desc: Vec<String> = g.descendants(a).iter().map(|u| u.id.clone()).collect();
        assert!(desc.iter().any(|d| d == ids[3]));
    }
    assert!(g.ancestors(ids[0]).is_empty());
    assert_eq!(g.descendants(ids[0]).len(), 3);
}

#[test]
fn references_to_missing_units_are_skipped() {
    let a = "019526b2-f68a-7c3e-a0b4-1d2e3f4a5b6c";
    let missing = "019526b2-f68a-7c3e-a0b4-1d2e3f4a5b99";
    let mut g = Graph::new();
    g.add(unit(a, UnitType::Inference, vec![(missing, RelType::DerivesFrom)]));
    assert!(g.outgoing(a).is_empty());
    assert!(g.ancestors(a).is_empty());
    assert_eq!(g.subgraph(a).len(), 1);
    // The unit that cites the absent id is its descendant.
    assert_eq!(g.subgraph(missing).len(), 1);
    assert_eq!(g.descendants(missing).len(), 1);
}

#[test]
fn references_of_and_absorb_step_a_walk() {
    let a = unit(
        "019526b2-0000-7000-8000-00000000000a",
        UnitType::Assertion,
        vec![("019526b2-0000-7000-8000-00000000000b", RelType::Supports)],
    );
    let b = unit("019526b2-0000-7000-8000-00000000000b", UnitType::Assertion, vec![]);
    let mut g = Graph::new();
    g.add(a.clone());
    assert_eq!(g.references_of(&a.id), vec![b.id.clone()]);
    assert_eq!(g.references_of("missing"), Vec::<String>::new());
    let mut next = Vec::new();
    assert!(g.absorb(&mut next, b.clone()));
    assert!(!g.absorb(&mut next, b.clone()));
    assert_eq!(next, vec![b.id.clone()]);
    assert_eq!(g.len(), 2);
}
