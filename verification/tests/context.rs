use sem::context::{build_context, estimate_tokens, signature_only};
use sem::model::{EntityGraph, EntityInfo, EntityRef, RefType, SemanticEntity};

fn entity(id: &str, name: &str, content: &str) -> SemanticEntity {
    SemanticEntity {
        id: id.to_string(),
        file_path: "a.py".to_string(),
        entity_type: "function".to_string(),
        name: name.to_string(),
        parent_id: None,
        content: content.to_string(),
        content_hash: String::new(),
        structural_hash: None,
        start_line: 1,
        end_line: 1,
        metadata_json: None,
    }
}

fn info(id: &str) -> EntityInfo {
    EntityInfo {
        id: id.to_string(),
        name: id.to_string(),
        entity_type: "function".to_string(),
        file_path: "a.py".to_string(),
        start_line: 1,
        end_line: 1,
        parent_id: None,
    }
}

fn edge(from: &str, to: &str) -> EntityRef {
    EntityRef { from_entity: from.to_string(), to_entity: to.to_string(), ref_type: RefType::Calls }
}

#[test]
fn test_estimate_tokens() {
    assert_eq!(estimate_tokens("hello world"), 2);
    assert_eq!(estimate_tokens("fn foo(a: i32, b: i32) -> bool {"), 10);
}

#[test]
fn test_signature_only() {
    assert_eq!(signature_only("fn foo(a: i32) {\n    a + 1\n}"), "fn foo(a: i32) {");
}

#[test]
fn estimate_tokens_counts_unicode_whitespace_runs() {
    assert_eq!(estimate_tokens(""), 0);
    assert_eq!(estimate_tokens("  \t\n "), 0);
    assert_eq!(estimate_tokens("a\u{3000}b\u{A0}c d e f g h i j"), 13);
}

#[test]
fn signature_only_drops_carriage_return_before_newline() {
    assert_eq!(signature_only("def f():\r\n    pass"), "def f():");
    assert_eq!(signature_only("single line\r"), "single line\r");
    assert_eq!(signature_only(""), "");
}

fn graph() -> (EntityGraph, Vec<SemanticEntity>) {
    // c calls b, b calls a; d calls a.
    let g = EntityGraph {
        entities: vec![info("a"), info("b"), info("c"), info("d")],
        edges: vec![edge("b", "a"), edge("c", "b"), edge("d", "a")],
    };
    let all = vec![
        entity("a", "a", "def a():\n    return 1"),
        entity("b", "b", "def b():\n    return a()"),
        entity("c", "c", "def c():\n    return b()"),
        entity("d", "d", "def d():\n    return a()"),
    ];
    (g, all)
}

#[test]
fn build_context_orders_target_direct_then_transitive() {
    let (g, all) = graph();
    let ctx = build_context(&g, "a", &all, 1000);
    let roles: Vec<(&str, &str)> = ctx.iter().map(|e| (e.entity_id.as_str(), e.role.as_str())).collect();
    assert_eq!(
        roles,
        vec![("a", "target"), ("b", "direct_dependent"), ("d", "direct_dependent"), ("c", "transitive_dependent")]
    );
    assert_eq!(ctx[3].content, "def c():");
    assert_eq!(ctx[0].estimated_tokens, 5);
}

#[test]
fn build_context_keeps_target_signature_when_over_budget() {
    let (g, all) = graph();
    let ctx = build_context(&g, "a", &all, 2);
    assert_eq!(ctx.len(), 1);
    assert_eq!(ctx[0].role, "target");
    assert_eq!(ctx[0].content, "def a():");
    assert_eq!(ctx[0].estimated_tokens, 2);
}

#[test]
fn build_context_skips_what_does_not_fit_and_unknown_targets() {
    let (g, all) = graph();
    // Target takes 5, each dependent 5: only one direct dependent fits in 10.
    let ctx = build_context(&g, "a", &all, 10);
    assert_eq!(ctx.len(), 2);
    assert_eq!(ctx[1].entity_id, "b");
    assert!(build_context(&g, "zzz", &all, 100).is_empty());
}
