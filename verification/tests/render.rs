use semanticweft::graph::Graph;
use semanticweft::render::{render_graph, render_unit, short_id, truncate, wrap_content};
use semanticweft::types::{Reference, RelType, SemanticUnit, Source, UnitType};

fn minimal_unit() -> SemanticUnit {
    SemanticUnit::with_parts(
        "019526b2-f68a-7c3e-a0b4-1d2e3f4a5b6c".to_string(),
        UnitType::Assertion,
        "The boiling point of water at sea level is 100°C.".to_string(),
        "2026-02-18T12:00:00Z".to_string(),
        "agent-weathersim-v2".to_string(),
    )
}

#[test]
fn render_unit_contains_key_fields() {
    let rendered = render_unit(&minimal_unit(), None);
    assert!(rendered.contains("[assertion]"));
    assert!(rendered.contains("agent-weathersim-v2"));
    assert!(rendered.contains("boiling point"));
    assert!(rendered.contains("019526b2"));
}

#[test]
fn render_graph_groups_by_type() {
    let mut g = Graph::new();
    g.add(minimal_unit());
    let rendered = render_graph(&g);
    assert!(rendered.contains("ASSERTIONS (1)"));
    assert!(rendered.contains("1 unit"));
}

#[test]
fn render_unit_exact_text() {
    let mut u = minimal_unit();
    u.source = Some(Source::Labeled { label: "WMO".to_string(), uri: Some("https://wmo.int".to_string()) });
    u.assumptions = Some(vec!["Sea level pressure".to_string()]);
    u.references = Some(vec![Reference {
        id: "019526b2-f68a-7c3e-a0b4-1d2e3f4a5b6d".to_string(),
        rel: RelType::DerivesFrom,
    }]);
    u.extensions.insert("x-org.b".to_string(), "2".to_string());
    u.extensions.insert("x-org.a".to_string(), "\"one\"".to_string());
    u.confidence = Some(0.74f64.to_bits());
    let rendered = render_unit(&u, Some("0.74"));
    let expected = [
        "[assertion] agent-weathersim-v2  confidence: 0.74\n",
        "\"The boiling point of water at sea level is 100°C.\"\n",
        "\n",
        "Source: WMO <https://wmo.int>\n",
        "\n",
        "Assumptions:\n",
        "  • Sea level pressure\n",
        "\n",
        "References:\n",
        "  derives-from  019526b2-f68a-7c3e-a0b4-1d2e3f4a5b6d\n",
        "\n",
        "Extensions:\n",
        "  x-org.a: \"one\"\n",
        "  x-org.b: 2\n",
        "\n",
        "id: 019526b2-f68a-7c3e-a0b4-1d2e3f4a5b6c  created: 2026-02-18T12:00:00Z\n",
    ]
    .concat();
    assert_eq!(rendered, expected);
}

#[test]
fn render_graph_exact_text() {
    let mut g = Graph::new();
    g.add(minimal_unit());
    let mut q = minimal_unit();
    q.id = "019526b2-f68a-7c3e-a0b4-1d2e3f4a5b70".to_string();
    q.unit_type = UnitType::Question;
    q.content = "  Why?  ".to_string();
    g.add(q);
    let rendered = render_graph(&g);
    let header = "SemanticWeft Graph  2 units";
    let expected = format!(
        "{header}\n{}\n\nASSERTIONS (1)\n  [019526b2]  \"The boiling point of water at sea level is 100°C.\"\n\nQUESTIONS (1)\n  [019526b2]  \"Why?\"\n",
        "─".repeat(header.len())
    );
    assert_eq!(rendered, expected);
}

#[test]
fn wrap_content_wraps_long_text() {
    assert_eq!(wrap_content("short", 80), "\"short\"");
    let long = "aaaa bbbb cccc";
    assert_eq!(wrap_content(long, 10), "\"aaaa bbbb\n cccc\"");
}

#[test]
fn truncate_and_short_id() {
    assert_eq!(truncate("  hello  ", 72), "hello");
    assert_eq!(truncate("abcdefgh", 5), "abcd…");
    assert_eq!(short_id("019526b2-f68a"), "019526b2");
    assert_eq!(short_id("abc"), "abc");
}
