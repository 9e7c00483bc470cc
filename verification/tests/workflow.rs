use sem::diffview::{inline_diff, shown_changes, DiffLine, LineTag};
use sem::files::{find_supported_files_public, select_supported_files};
use sem::git::{CommitInfo, DiffScope};
use sem::hotspot::{compute_hotspots, hotspot_log_limit, hotspot_pathspecs, hotspot_ranges, EntityChange};
use sem::workflow::{git_relative_path, next_graph_action, GraphAction, GraphStage};

fn strings(v: &[&str]) -> Vec<String> {
    v.iter().map(|s| s.to_string()).collect()
}

#[test]
fn supported_files_are_filtered_and_sorted() {
    let found = strings(&["b.py", "a.rs", "Cargo.lock", "vendor/x.go", "notes.txt", "A.ts", "z/y.go"]);
    assert_eq!(find_supported_files_public(found.clone(), &[]), strings(&["A.ts", "a.rs", "b.py", "z/y.go"]));
    assert_eq!(select_supported_files(found.clone(), &strings(&[".go"]), true), strings(&["vendor/x.go", "z/y.go"]));
    assert_eq!(select_supported_files(found, &strings(&[".py", ".rs"]), false), strings(&["a.rs", "b.py"]));
}

#[test]
fn graph_steps_try_the_cache_first() {
    assert_eq!(next_graph_action(false, GraphStage::Start), GraphAction::OpenCache);
    assert_eq!(next_graph_action(false, GraphStage::CacheOpened { ok: true }), GraphAction::LoadCache);
    assert_eq!(next_graph_action(false, GraphStage::CacheLoaded { hit: true }), GraphAction::ReturnCached);
    assert_eq!(next_graph_action(false, GraphStage::CacheLoaded { hit: false }), GraphAction::LoadPartial);
    assert_eq!(next_graph_action(false, GraphStage::PartialLoaded { hit: true }), GraphAction::BuildIncremental);
    assert_eq!(next_graph_action(false, GraphStage::IncrementalBuilt), GraphAction::SaveIncremental);
    assert_eq!(next_graph_action(false, GraphStage::PartialLoaded { hit: false }), GraphAction::BuildFull);
    assert_eq!(next_graph_action(false, GraphStage::FullBuilt), GraphAction::ReopenCache);
    assert_eq!(next_graph_action(false, GraphStage::CacheReopened { ok: false }), GraphAction::ReturnBuilt);
    assert_eq!(next_graph_action(true, GraphStage::Start), GraphAction::BuildFull);
    assert_eq!(next_graph_action(true, GraphStage::FullBuilt), GraphAction::ReturnBuilt);
}

#[test]
fn git_paths_below_the_repository_root() {
    assert_eq!(git_relative_path("/repo", "/repo", "a.rs"), "a.rs");
    assert_eq!(git_relative_path("/repo/sub", "/repo", "a.rs"), "sub/a.rs");
    assert_eq!(git_relative_path("/elsewhere", "/repo", "a.rs"), "a.rs");
}

fn change(id: &str, file: &str) -> EntityChange {
    EntityChange {
        entity_id: id.to_string(),
        entity_name: id.to_string(),
        entity_type: "function".to_string(),
        file_path: file.to_string(),
    }
}

#[test]
fn hotspots_count_changes_most_changed_first() {
    let changes = vec![change("f", "a.rs"), change("g", "a.rs"), change("g", "a.rs"), change("h", "b.rs"), change("g", "a.rs")];
    let hs = compute_hotspots(&changes, None);
    assert_eq!(hs.len(), 3);
    assert_eq!((hs[0].entity_name.as_str(), hs[0].change_count), ("g", 3));
    assert_eq!(hs[1].change_count, 1);
    assert_eq!(hs[2].change_count, 1);
    let only_b = compute_hotspots(&changes, Some("b.rs"));
    assert_eq!(only_b.len(), 1);
    assert_eq!((only_b[0].entity_name.as_str(), only_b[0].file_path.as_str()), ("h", "b.rs"));
    assert!(compute_hotspots(&[], None).is_empty());
}

#[test]
fn inline_diffs_show_changed_lines_only() {
    let lines = inline_diff("a\nb\nc\n", "a\nB\nc");
    let shown: Vec<(LineTag, &str)> = lines.iter().map(|l| (l.tag, l.text.as_str())).collect();
    assert_eq!(
        shown,
        vec![(LineTag::Delete, "- b\n"), (LineTag::Delete, "- c\n"), (LineTag::Insert, "+ B\n"), (LineTag::Insert, "+ c\n")]
    );
    assert!(inline_diff("same\n", "same\n").is_empty());
}

fn commit(sha: &str) -> CommitInfo {
    CommitInfo {
        sha: sha.to_string(),
        short_sha: sha.chars().take(7).collect(),
        author: "a".to_string(),
        date: "0".to_string(),
        message: String::new(),
    }
}

#[test]
fn the_hotspot_walk_diffs_each_commit_against_the_one_before() {
    assert_eq!(hotspot_log_limit(50), 51);
    assert_eq!(hotspot_pathspecs(Some("src/a.rs")), strings(&["src/a.rs"]));
    assert!(hotspot_pathspecs(None).is_empty());
    let log = vec![commit("c3"), commit("c2"), commit("c1")];
    let ranges: Vec<(String, String)> = hotspot_ranges(&log)
        .into_iter()
        .map(|s| match s {
            DiffScope::Range { from, to } => (from, to),
            _ => panic!("not a range"),
        })
        .collect();
    assert_eq!(ranges, vec![("c2".to_string(), "c3".to_string()), ("c1".to_string(), "c2".to_string())]);
    assert!(hotspot_ranges(&log[..1]).is_empty());
    assert!(hotspot_ranges(&[]).is_empty());
}

#[test]
fn changed_lines_are_marked_and_ended() {
    let line = |tag, text: &str| DiffLine { tag, text: text.to_string() };
    let d = vec![
        line(LineTag::Equal, "keep\n"),
        line(LineTag::Delete, "old\n"),
        line(LineTag::Insert, "new"),
        line(LineTag::Insert, ""),
    ];
    let shown: Vec<(LineTag, String)> = shown_changes(&d).into_iter().map(|l| (l.tag, l.text)).collect();
    assert_eq!(
        shown,
        vec![
            (LineTag::Delete, "- old\n".to_string()),
            (LineTag::Insert, "+ new\n".to_string()),
            (LineTag::Insert, "+ \n".to_string())
        ]
    );
    assert!(shown_changes(&[]).is_empty());
}
