use sem::listing::{edge_listing, entity_listing, ref_less_than, text_less_than};
use sem::model::{EntityInfo, EntityRef, RefType};

fn info(id: &str, name: &str) -> EntityInfo {
    EntityInfo {
        id: id.to_string(),
        name: name.to_string(),
        entity_type: "function".to_string(),
        file_path: "a.py".to_string(),
        start_line: 1,
        end_line: 2,
        parent_id: None,
    }
}

fn edge(from: &str, to: &str, ref_type: RefType) -> EntityRef {
    EntityRef { from_entity: from.to_string(), to_entity: to.to_string(), ref_type }
}

#[test]
fn texts_are_ordered_like_strings() {
    let words = ["", "a", "a.py::one", "a.py::three", "ab", "b", "é", "Z"];
    for x in words {
        for y in words {
            assert_eq!(text_less_than(x, y), x < y, "{x:?} < {y:?}");
        }
    }
}

#[test]
fn entities_are_listed_by_id_once_each() {
    let entities = vec![
        info("a.py::two", "two"),
        info("a.py::one", "one"),
        info("a.py::three", "old"),
        info("a.py::four", "four"),
        info("a.py::three", "three"),
    ];
    let order = entity_listing(&entities);
    let ids: Vec<&str> = order.iter().map(|&k| entities[k].id.as_str()).collect();
    assert_eq!(ids, vec!["a.py::four", "a.py::one", "a.py::three", "a.py::two"]);
    assert_eq!(entities[order[2]].name, "three");
    assert!(entity_listing(&[]).is_empty());
}

#[test]
fn edges_are_listed_by_ends_and_kind() {
    let edges = vec![
        edge("b", "a", RefType::Calls),
        edge("a", "c", RefType::TypeRef),
        edge("a", "c", RefType::Calls),
        edge("a", "b", RefType::Imports),
        edge("a", "c", RefType::Imports),
    ];
    let order = edge_listing(&edges);
    let keys: Vec<String> = order
        .iter()
        .map(|&k| format!("{}\0{}\0{}", edges[k].from_entity, edges[k].to_entity, sem::store::ref_type_name(edges[k].ref_type)))
        .collect();
    let mut sorted = keys.clone();
    sorted.sort();
    assert_eq!(keys, sorted);
    assert_eq!(order, vec![3, 2, 4, 1, 0]);
    assert!(ref_less_than(&edges[2], &edges[4]));
    assert!(!ref_less_than(&edges[4], &edges[4]));
}

#[test]
fn equal_edges_keep_their_order() {
    let edges = vec![edge("b", "a", RefType::Calls), edge("a", "c", RefType::Calls), edge("b", "a", RefType::Calls), edge("a", "c", RefType::Calls)];
    assert_eq!(edge_listing(&edges), vec![1, 3, 0, 2]);
}
