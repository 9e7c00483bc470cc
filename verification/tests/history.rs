use sem::git::CommitInfo;
use sem::history::{
    classify_found_files, display_file, first_seen, log_column_widths, search_entity_cross_file,
    was_file, ChangedFile, EntityChangeType, EntityTracker, FindResult, LogEntry,
};
use sem::model::SemanticEntity;
use sem::tools::EntitiesParams;

fn commit(sha: &str, date: &str, message: &str) -> CommitInfo {
    CommitInfo {
        sha: sha.to_string(),
        short_sha: sha[..3.min(sha.len())].to_string(),
        author: "Ada".to_string(),
        date: date.to_string(),
        message: message.to_string(),
    }
}

fn entity(name: &str, content: &str, structural: Option<&str>) -> SemanticEntity {
    SemanticEntity {
        id: format!("a.py::{name}"),
        file_path: "a.py".to_string(),
        entity_type: "function".to_string(),
        name: name.to_string(),
        parent_id: None,
        content: content.to_string(),
        content_hash: format!("h:{content}"),
        structural_hash: structural.map(|s| s.to_string()),
        start_line: 1,
        end_line: 2,
        metadata_json: None,
    }
}

#[test]
fn a_history_of_additions_edits_renames_and_deletion() {
    let mut t = EntityTracker::new("foo");
    let mut entries: Vec<LogEntry> = Vec::new();

    let v1 = vec![entity("foo", "def foo(): 1", Some("s1"))];
    assert!(!t.observe_commit(&mut entries, &commit("c1", "0", "first\nbody"), "a.py", Some(&v1)));
    assert_eq!(entries.len(), 1);
    assert_eq!(entries[0].change_type, EntityChangeType::Added);
    assert_eq!(entries[0].message, "first");
    assert_eq!(entries[0].date, "1970-01-01");

    // The same content: nothing new.
    assert!(!t.observe_commit(&mut entries, &commit("c2", "86400", "noop"), "a.py", Some(&v1)));
    assert_eq!(entries.len(), 1);

    // A change of form only.
    let v2 = vec![entity("foo", "def foo():  1", Some("s1"))];
    t.observe_commit(&mut entries, &commit("c3", "86400", "fmt"), "a.py", Some(&v2));
    assert_eq!(entries[1].change_type, EntityChangeType::ModifiedCosmetic);
    assert_eq!(entries[1].prev_content.as_deref(), Some("def foo(): 1"));

    // A change of logic.
    let v3 = vec![entity("foo", "def foo(): 2", Some("s2"))];
    t.observe_commit(&mut entries, &commit("c4", "not a number", "logic"), "a.py", Some(&v3));
    assert_eq!(entries[2].change_type, EntityChangeType::ModifiedLogic);
    assert_eq!(entries[2].date, "1970-01-01");

    // Renamed within the file: found by structural hash.
    let v4 = vec![entity("bar", "def bar(): 2", Some("s2"))];
    assert!(!t.observe_commit(&mut entries, &commit("c5", "0", "rename"), "a.py", Some(&v4)));
    assert_eq!(entries[3].change_type, EntityChangeType::Renamed);
    assert_eq!(t.tracked_name, "bar");

    // Gone from the file: the caller searches elsewhere, and finds nothing.
    let empty: Vec<SemanticEntity> = Vec::new();
    assert!(t.observe_commit(&mut entries, &commit("c6", "0", "remove"), "a.py", Some(&empty)));
    t.observe_elsewhere(&mut entries, &commit("c6", "0", "remove"), "a.py", None);
    assert_eq!(entries[4].change_type, EntityChangeType::Deleted);
    assert!(entries[4].content.is_none());

    // Back again.
    t.observe_commit(&mut entries, &commit("c7", "0", "back"), "a.py", Some(&vec![entity("bar", "x", None)]));
    assert_eq!(entries[5].change_type, EntityChangeType::Reappeared);
    assert_eq!(first_seen(&entries), "1970-01-01");
    assert_eq!(display_file(&entries, "default.py"), "a.py");
    assert_eq!(was_file(&entries), None);
    let (w_author, w_change) = log_column_widths(&entries);
    assert_eq!((w_author, w_change), (3, "modified (cosmetic)".len()));
}

#[test]
fn moves_are_found_by_name_then_by_hash() {
    let files = vec![
        ChangedFile { file_path: "a.py".to_string(), entities: Some(vec![entity("foo", "x", Some("s"))]) },
        ChangedFile { file_path: "b.py".to_string(), entities: None },
        ChangedFile { file_path: "c.py".to_string(), entities: Some(vec![entity("baz", "y", Some("s"))]) },
        ChangedFile { file_path: "d.py".to_string(), entities: Some(vec![entity("foo", "z", None)]) },
    ];
    assert_eq!(search_entity_cross_file(&files, "foo", Some("s"), "a.py"), Some((3, 0)));
    assert_eq!(search_entity_cross_file(&files, "qux", Some("s"), "a.py"), Some((2, 0)));
    assert_eq!(search_entity_cross_file(&files, "qux", None, "a.py"), None);

    let mut t = EntityTracker::new("foo");
    let mut entries = Vec::new();
    t.observe_commit(&mut entries, &commit("c1", "0", "m"), "a.py", Some(&vec![entity("foo", "x", Some("s"))]));
    let moved = entity("foo", "x", Some("s"));
    t.observe_elsewhere(&mut entries, &commit("c2", "0", "move"), "a.py", Some(("d.py", &moved)));
    assert_eq!(entries[1].change_type, EntityChangeType::Moved);
    assert_eq!(was_file(&entries), Some("a.py".to_string()));
    assert_eq!(display_file(&entries, "x"), "d.py");
}

#[test]
fn found_files_are_classified() {
    assert!(matches!(classify_found_files(vec![]), FindResult::NotFound));
    assert!(matches!(classify_found_files(vec!["a.py".to_string()]), FindResult::Found(f) if f == "a.py"));
    assert!(matches!(classify_found_files(vec!["a".to_string(), "b".to_string()]), FindResult::Ambiguous(v) if v.len() == 2));
}

#[test]
fn labels_of_changes() {
    assert_eq!(EntityChangeType::ModifiedLogic.label(), "modified (logic)");
    assert!(EntityChangeType::Added.is_structural());
    assert!(!EntityChangeType::Moved.is_structural());
}

#[test]
fn entities_params_path_ignores_empty_paths() {
    assert_eq!(EntitiesParams { path: Some("src/lib.rs".to_string()) }.path(), Some("src/lib.rs"));
    assert_eq!(EntitiesParams { path: Some(String::new()) }.path(), None);
    assert_eq!(EntitiesParams { path: None }.path(), None);
}

#[test]
fn a_walk_opens_with_one_added_line() {
    let mut t = EntityTracker::new("foo");
    let mut entries: Vec<LogEntry> = Vec::new();
    let none: Vec<SemanticEntity> = Vec::new();
    // Before the entity exists, commits add nothing and ask for no search.
    assert!(!t.observe_commit(&mut entries, &commit("c1", "0", "start"), "a.py", Some(&none)));
    assert!(!t.observe_commit(&mut entries, &commit("c2", "0", "unreadable"), "a.py", None));
    assert!(entries.is_empty());
    let v1 = vec![entity("foo", "1", Some("s1"))];
    let v2 = vec![entity("foo", "2", Some("s2"))];
    for (i, v) in [&v1, &v2, &v1].iter().enumerate() {
        let before = entries.len();
        t.observe_commit(&mut entries, &commit(&format!("d{i}"), "0", "edit"), "a.py", Some(v));
        assert!(entries.len() <= before + 1);
    }
    assert!(t.observe_commit(&mut entries, &commit("d9", "0", "gone"), "a.py", Some(&none)));
    t.observe_elsewhere(&mut entries, &commit("d9", "0", "gone"), "a.py", None);
    let kinds: Vec<EntityChangeType> = entries.iter().map(|e| e.change_type).collect();
    assert_eq!(
        kinds,
        vec![
            EntityChangeType::Added,
            EntityChangeType::ModifiedLogic,
            EntityChangeType::ModifiedLogic,
            EntityChangeType::Deleted
        ]
    );
}
