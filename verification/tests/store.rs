use std::collections::hash_map::DefaultHasher;
use std::hash::Hasher;

use sem::cache::{manifest_is_stale, ManifestState};
use sem::model::{EntityGraph, EntityRef, RefType, SemanticEntity};
use sem::store::{
    cache_indexes, check_cache_current, compute_manifest_hash, file_rows_to_save, plan_incremental_save,
    plan_partial_load, ref_type_from_name, ref_type_name, reset_sql, schema_needs_reset,
    schema_sql, FileStamp, PartialCache,
};

fn entity(id: &str, file_path: &str, name: &str, content: &str) -> SemanticEntity {
    SemanticEntity {
        id: id.to_string(),
        file_path: file_path.to_string(),
        entity_type: "function".to_string(),
        name: name.to_string(),
        parent_id: None,
        content: content.to_string(),
        content_hash: format!("hash:{content}"),
        structural_hash: None,
        start_line: 1,
        end_line: 1,
        metadata_json: None,
    }
}

fn stamp(path: &str, secs: i64, nanos: i64) -> FileStamp {
    FileStamp { path: path.to_string(), secs, nanos }
}

fn strings(v: &[&str]) -> Vec<String> {
    v.iter().map(|s| s.to_string()).collect()
}

#[test]
fn ref_types_round_trip_through_their_names() {
    for t in [RefType::Calls, RefType::TypeRef, RefType::Imports] {
        assert_eq!(ref_type_from_name(ref_type_name(t)), t);
    }
    assert_eq!(ref_type_name(RefType::TypeRef), "typeref");
    assert_eq!(ref_type_from_name("anything"), RefType::TypeRef);
}

#[test]
fn full_loads_need_every_source_unchanged() {
    let rows = vec![stamp("a.rs", 1, 0), stamp("b.rs", 2, 0), stamp("\0sem-manifest:.semrc", 5, 0)];
    let files = strings(&["a.rs", "b.rs", ".semrc"]);
    let now = vec![Some((1, 0)), Some((2, 0)), None];
    assert!(check_cache_current(false, &rows, &files, &now));
    assert!(!check_cache_current(true, &rows, &files, &now));
    let touched = vec![Some((1, 0)), Some((2, 1)), None];
    assert!(!check_cache_current(false, &rows, &files, &touched));
    let unreadable = vec![Some((1, 0)), None, None];
    assert!(!check_cache_current(false, &rows, &files, &unreadable));
    let more = strings(&["a.rs", "b.rs", "c.rs"]);
    assert!(!check_cache_current(false, &rows, &more, &[Some((1, 0)), Some((2, 0)), Some((3, 0))]));
}

#[test]
fn partial_loads_split_stale_and_deleted_files() {
    let rows = vec![stamp("a.rs", 1, 0), stamp("b.rs", 2, 0), stamp("gone.rs", 3, 0)];
    let files = strings(&["a.rs", "b.rs", "new.rs"]);
    let now = vec![Some((1, 0)), Some((2, 9)), Some((4, 0))];
    let (stale, deleted) = plan_partial_load(false, &rows, &files, &now).unwrap();
    assert_eq!(stale, strings(&["b.rs", "new.rs"]));
    assert_eq!(deleted, strings(&["gone.rs"]));

    let entities = vec![
        entity("a", "a.rs", "a", "a"),
        entity("b", "b.rs", "b", "b"),
        entity("g", "gone.rs", "g", "g"),
    ];
    let edges = vec![EntityRef { from_entity: "a".to_string(), to_entity: "b".to_string(), ref_type: RefType::Calls }];
    let partial = PartialCache::assemble(stale, &deleted, entities, edges);
    assert_eq!(partial.stale_files, strings(&["b.rs", "new.rs"]));
    assert_eq!(partial.cached_entities.len(), 1);
    assert_eq!(partial.cached_entities[0].id, "a");
    assert_eq!(partial.stale_file_entities.len(), 2);
    assert_eq!(partial.stale_file_entities[1].id, "g");
    assert_eq!(partial.cached_edges.len(), 1);
}

#[test]
fn partial_loads_are_refused_when_nothing_or_everything_is_stale() {
    let rows = vec![stamp("a.rs", 1, 0)];
    let files = strings(&["a.rs"]);
    assert!(plan_partial_load(false, &rows, &files, &[Some((1, 0))]).is_none());
    assert!(plan_partial_load(false, &rows, &files, &[Some((7, 0))]).is_none());
    assert!(plan_partial_load(false, &[], &files, &[Some((1, 0))]).is_none());
    assert!(plan_partial_load(true, &rows, &strings(&["a.rs", "b.rs"]), &[Some((1, 0)), None]).is_none());
}

#[test]
fn save_incremental_keeps_clean_entity_rows_without_clean_id_repair() {
    let files = strings(&["stale.rs", "clean.rs"]);
    let entities = vec![
        entity("stale-id", "stale.rs", "stale", "stale new"),
        entity("clean-id", "clean.rs", "clean", "clean should stay cached"),
    ];
    let plan = plan_incremental_save(&files, &strings(&["stale.rs"]), &files, &entities, false);
    assert_eq!(plan.stale_sources, strings(&["stale.rs"]));
    assert!(plan.deleted_files.is_empty());
    assert!(!plan.clear_entities);
    assert_eq!(plan.entities_to_write, vec![0]);
}

#[test]
fn save_incremental_rewrites_entities_after_clean_id_repair() {
    let files = strings(&["stale.rs", "clean.rs"]);
    let entities = vec![
        entity("stale-id", "stale.rs", "stale", "stale new"),
        entity("clean-new-id", "clean.rs", "clean", "clean repaired"),
    ];
    let plan = plan_incremental_save(&files, &strings(&["stale.rs"]), &files, &entities, true);
    assert!(plan.clear_entities);
    assert_eq!(plan.entities_to_write, vec![0, 1]);
}

#[test]
fn incremental_saves_drop_rows_of_files_that_are_gone() {
    let all = strings(&["a.rs", ".semrc"]);
    let cached = strings(&["a.rs", "old.rs", "\0sem-manifest:.semrc", ".semrc"]);
    let plan = plan_incremental_save(&all, &strings(&["a.rs", ".semrc"]), &cached, &[], false);
    assert_eq!(plan.stale_sources, strings(&["a.rs"]));
    assert_eq!(plan.deleted_files, strings(&["old.rs"]));
}

#[test]
fn graphs_from_entities_keep_their_order() {
    let entities = vec![entity("x", "a.rs", "x", ""), entity("y", "a.rs", "y", "")];
    let g = EntityGraph::from_entities(&entities, Vec::new());
    assert_eq!(g.entities.len(), 2);
    assert_eq!(g.entities[1].id, "y");
    assert!(g.edges.is_empty());
}

#[test]
fn manifest_hash_tracks_gitattributes_changes() {
    let files = strings(&["sample.foo"]);
    let mtimes = vec![Some((10, 0))];
    let without = compute_manifest_hash(&files, &mtimes, &[(false, None), (false, None)]).unwrap();
    let with = compute_manifest_hash(&files, &mtimes, &[(false, None), (true, Some((20, 0)))]).unwrap();
    let modified = compute_manifest_hash(&files, &mtimes, &[(false, None), (true, Some((21, 0)))]).unwrap();
    assert_ne!(without, with);
    assert_ne!(with, modified);
    assert_eq!(with, compute_manifest_hash(&files, &mtimes, &[(false, None), (true, Some((20, 0)))]).unwrap());
    assert!(compute_manifest_hash(&files, &[None], &[(false, None), (false, None)]).is_none());
}

fn manifest_rows(rows: &[FileStamp], attrs: Option<(i64, i64)>) -> Vec<FileStamp> {
    let mut v: Vec<FileStamp> = rows.iter().map(|r| stamp(&r.path, r.secs, r.nanos)).collect();
    if let Some((s, n)) = attrs {
        v.push(stamp("\0sem-manifest:.gitattributes", s, n));
    }
    v
}

fn load_allowed(cached_attrs: Option<(i64, i64)>, attrs_now: Option<(i64, i64)>) -> bool {
    let semrc = ManifestState { exists: false, cached: None, current: None };
    let attrs = ManifestState { exists: attrs_now.is_some(), cached: cached_attrs, current: attrs_now };
    let stale = manifest_is_stale(&[semrc, attrs]);
    let rows = manifest_rows(&[stamp("sample.foo", 1, 0)], cached_attrs);
    let files = strings(&["sample.foo"]);
    check_cache_current(stale, &rows, &files, &[Some((1, 0))])
}

#[test]
fn load_invalidates_when_gitattributes_is_added() {
    assert!(load_allowed(None, None));
    assert!(!load_allowed(None, Some((5, 0))));
}

#[test]
fn load_invalidates_when_gitattributes_is_modified() {
    assert!(load_allowed(Some((5, 0)), Some((5, 0))));
    assert!(!load_allowed(Some((5, 0)), Some((6, 0))));
}

#[test]
fn load_invalidates_when_gitattributes_is_removed() {
    assert!(load_allowed(Some((5, 0)), Some((5, 0))));
    assert!(!load_allowed(Some((5, 0)), None));
}

#[test]
fn open_creates_schema_version_and_lookup_indexes() {
    let sql = schema_sql();
    assert!(sql.ends_with("PRAGMA user_version = 2;"));
    for (name, table, column) in cache_indexes() {
        assert!(sql.contains(&format!("CREATE INDEX IF NOT EXISTS {name} ON {table}({column});")));
    }
}

#[test]
fn open_rebuilds_cache_when_schema_version_is_unsupported() {
    for version in [0, 1, 3] {
        assert!(schema_needs_reset(version));
    }
    for table in ["files", "entities", "edges"] {
        assert!(reset_sql().contains(&format!("DROP TABLE IF EXISTS {table};")));
    }
}

#[test]
fn manifest_hash_is_fed_paths_mtimes_count_and_manifest_files() {
    let files = strings(&["src/a.rs", "b.py"]);
    let mtimes = vec![Some((10, 5)), Some((-3, 7))];
    let manifest = [(true, Some((20, 1))), (true, None)];
    let mut h = DefaultHasher::new();
    for (f, (s, n)) in [("src/a.rs", (10i64, 5i64)), ("b.py", (-3, 7))] {
        h.write(f.as_bytes());
        h.write(&[0xff]);
        h.write(&(s as u64).to_le_bytes());
        h.write(&(n as u64).to_le_bytes());
    }
    h.write(&2u64.to_le_bytes());
    h.write(b".semrc");
    h.write(&[0xff]);
    h.write(&[1]);
    h.write(&20u64.to_le_bytes());
    h.write(&1u64.to_le_bytes());
    h.write(b".gitattributes");
    h.write(&[0xff]);
    h.write(&[0]);
    assert_eq!(compute_manifest_hash(&files, &mtimes, &manifest), Some(h.finish()));
    let other_mtime = vec![Some((10, 6)), Some((-3, 7))];
    assert_ne!(compute_manifest_hash(&files, &other_mtime, &manifest), Some(h.finish()));
    let other_path = strings(&["src/b.rs", "b.py"]);
    assert_ne!(compute_manifest_hash(&other_path, &mtimes, &manifest), Some(h.finish()));
}

#[test]
fn a_full_save_read_back_is_current() {
    let files = strings(&["a.rs", ".semrc", "b.py"]);
    let mtimes = vec![Some((1, 2)), None, Some((3, 4))];
    let manifest = [Some((5, 6)), None];
    let rows = file_rows_to_save(&files, &mtimes, &manifest);
    let stamps: Vec<(&str, i64, i64)> = rows.iter().map(|r| (r.path.as_str(), r.secs, r.nanos)).collect();
    assert_eq!(stamps, vec![("a.rs", 1, 2), ("b.py", 3, 4), ("\0sem-manifest:.semrc", 5, 6)]);
    let states: Vec<ManifestState> = [("\0sem-manifest:.semrc", manifest[0]), ("\0sem-manifest:.gitattributes", manifest[1])]
        .iter()
        .map(|(key, m)| ManifestState {
            exists: m.is_some(),
            cached: rows.iter().find(|r| r.path == *key).map(|r| (r.secs, r.nanos)),
            current: *m,
        })
        .collect();
    assert!(!manifest_is_stale(&states));
    assert!(check_cache_current(false, &rows, &files, &mtimes));
    let touched = vec![Some((1, 2)), None, Some((3, 5))];
    assert!(!check_cache_current(false, &rows, &files, &touched));
}
