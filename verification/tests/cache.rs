use sem::cache::{
    cache_db_path, cache_dir_for_repo, cache_root_candidates, fallback_cache_candidates,
    is_cache_manifest_key, is_manifest_file_name, manifest_is_stale, repo_cache_key,
    source_file_count, CacheCandidate, CacheEnv, CacheSite, ManifestState, Platform,
};
use sem::lexical::{
    normalize_lexical, path_is_external_to_repo, path_join, path_parent, strip_path_prefix,
};
use sem::store::{cache_indexes, schema_needs_reset, schema_sql};

fn site(repo: &str, candidates: &[(&str, &str)]) -> CacheSite {
    let lexical = normalize_lexical(repo);
    CacheSite {
        repo_lexical: lexical.clone(),
        repo_resolved: lexical.clone(),
        repo_canonical: lexical,
        candidates: candidates
            .iter()
            .map(|(l, r)| CacheCandidate { lexical: normalize_lexical(l), resolved: normalize_lexical(r) })
            .collect(),
    }
}

#[test]
fn cache_path_is_external_and_canonicalized() {
    let root = "/tmp/sem-mcp-cache-external-path";
    let candidates = [("/tmp/sem-cache-root", "/tmp/sem-cache-root")];
    let cache_dir = cache_dir_for_repo(&site(root, &candidates)).unwrap();
    let dotted = format!("{root}/.");
    assert_eq!(cache_dir, cache_dir_for_repo(&site(&dotted, &candidates)).unwrap());
    assert!(!cache_dir.starts_with(root));
    assert_eq!(cache_db_path(&site(root, &candidates)).unwrap(), format!("{cache_dir}/cache.db"));
}

#[test]
fn candidates_inside_the_repository_are_skipped() {
    let s = site(
        "/work/repo",
        &[("/work/repo/.sem", "/work/repo/.sem"), ("/home/u/.cache/sem/repos", "/home/u/.cache/sem/repos")],
    );
    let dir = cache_dir_for_repo(&s).unwrap();
    assert!(dir.starts_with("/home/u/.cache/sem/repos/"));
    assert_eq!(dir.len(), "/home/u/.cache/sem/repos/".len() + 16);
    let inside = site("/work/repo", &[("/work/repo/cache", "/work/repo/cache")]);
    assert_eq!(cache_dir_for_repo(&inside), None);
    assert_eq!(cache_db_path(&inside), None);
}

#[test]
fn a_candidate_that_resolves_into_the_repository_is_skipped() {
    let mut s = site("/work/repo", &[("/tmp/link", "/work/repo/target")]);
    s.candidates.push(CacheCandidate { lexical: "/var/cache".to_string(), resolved: "/var/cache".to_string() });
    assert!(cache_dir_for_repo(&s).unwrap().starts_with("/var/cache/"));
}

#[test]
fn repo_keys_are_fnv1a_in_hex() {
    assert_eq!(repo_cache_key(""), "cbf29ce484222325");
    assert_eq!(repo_cache_key("a"), "af63dc4c8601ec8c");
    assert_eq!(repo_cache_key("/work/repo").len(), 16);
    assert_ne!(repo_cache_key("/work/repo"), repo_cache_key("/work/repo2"));
}

#[test]
fn lexical_normalisation_folds_dots() {
    assert_eq!(normalize_lexical("/a/./b/../c"), "/a/c");
    assert_eq!(normalize_lexical("a/../../b"), "../b");
    assert_eq!(normalize_lexical("/.."), "/");
    assert_eq!(normalize_lexical("./a//b/"), "a/b");
    assert_eq!(normalize_lexical(""), "");
    assert_eq!(normalize_lexical("../../x"), "../../x");
}

#[test]
fn joins_and_prefixes_follow_path_semantics() {
    assert_eq!(path_join("/a", "b"), "/a/b");
    assert_eq!(path_join("/a/", "b"), "/a/b");
    assert_eq!(path_join("", "b"), "b");
    assert_eq!(path_join("/a", "/b"), "/b");
    assert_eq!(path_join("a", ""), "a/");
    assert_eq!(strip_path_prefix("/a/b/c", "/a"), Some("b/c".to_string()));
    assert_eq!(strip_path_prefix("/a/b", "/a/b"), Some("".to_string()));
    assert_eq!(strip_path_prefix("/ab/c", "/a"), None);
    assert!(path_is_external_to_repo("/x/cache", "/x/cache", "/r", "/r"));
    assert!(!path_is_external_to_repo("/r/cache", "/x/cache", "/r", "/r"));
    assert!(!path_is_external_to_repo("/x/cache", "/real/cache", "/r", "/real"));
    assert!(path_is_external_to_repo("/rx", "/rx", "/r", "/r"));
}

#[test]
fn manifest_names_and_keys() {
    assert!(is_manifest_file_name(".gitattributes"));
    assert!(is_manifest_file_name(".semrc"));
    assert!(!is_manifest_file_name("src/.semrc"));
    assert!(is_cache_manifest_key("\0sem-manifest:.gitattributes"));
    assert!(!is_cache_manifest_key(".gitattributes"));
    let files = vec![".semrc".to_string(), "a.rs".to_string(), ".gitattributes".to_string(), "b.py".to_string()];
    assert_eq!(source_file_count(&files), 2);
}

#[test]
fn manifest_staleness() {
    let fresh = ManifestState { exists: true, cached: Some((1, 2)), current: Some((1, 2)) };
    let absent = ManifestState { exists: false, cached: None, current: None };
    assert!(!manifest_is_stale(&[fresh, absent]));
    let added = ManifestState { exists: true, cached: None, current: Some((1, 2)) };
    assert!(manifest_is_stale(&[added]));
    let removed = ManifestState { exists: false, cached: Some((1, 2)), current: None };
    assert!(manifest_is_stale(&[removed]));
    let touched = ManifestState { exists: true, cached: Some((1, 2)), current: Some((1, 3)) };
    assert!(manifest_is_stale(&[touched]));
}

#[test]
fn candidate_roots_follow_the_environment() {
    let env = CacheEnv {
        sem_cache_dir: Some(String::new()),
        local_app_data: None,
        app_data: Some("C:/AppData".to_string()),
        xdg_cache_home: Some("/xdg".to_string()),
        home: Some("/home/u".to_string()),
        user_profile: None,
        temp_dir: "/tmp".to_string(),
    };
    assert_eq!(
        cache_root_candidates(&env, Platform::OtherUnix),
        vec!["/xdg/sem/repos", "/home/u/.cache/sem/repos", "/tmp/sem/repos"]
    );
    assert_eq!(
        cache_root_candidates(&env, Platform::MacOs),
        vec!["/xdg/sem/repos", "/home/u/Library/Caches/sem/repos", "/home/u/.cache/sem/repos", "/tmp/sem/repos"]
    );
    assert_eq!(
        cache_root_candidates(&env, Platform::Windows),
        vec!["C:/AppData/sem/repos", "/home/u/.cache/sem/repos", "/tmp/sem/repos"]
    );
    let set = CacheEnv { sem_cache_dir: Some("/c".to_string()), ..env };
    assert_eq!(cache_root_candidates(&set, Platform::OtherUnix)[0], "/c");
    assert_eq!(fallback_cache_candidates("/work/repo", "/tmp"), vec!["/work/.sem-cache/repos", "/tmp/sem/repos"]);
    assert_eq!(fallback_cache_candidates("/", "/tmp"), vec!["/tmp/sem/repos"]);
}

#[test]
fn parents_of_paths() {
    assert_eq!(path_parent("/a/b"), Some("/a".to_string()));
    assert_eq!(path_parent("/a"), Some("/".to_string()));
    assert_eq!(path_parent("/"), None);
    assert_eq!(path_parent(""), None);
    assert_eq!(path_parent("a"), Some("".to_string()));
    assert_eq!(path_parent("./a"), Some(".".to_string()));
}

#[test]
fn schema_script_sets_up_tables_indexes_and_version() {
    let sql = schema_sql();
    assert!(sql.starts_with("\nCREATE TABLE IF NOT EXISTS files ("));
    assert!(sql.contains(" CREATE INDEX IF NOT EXISTS idx_entities_file_path ON entities(file_path);\nCREATE INDEX IF NOT EXISTS idx_entities_name ON entities(name);"));
    assert!(sql.ends_with("CREATE INDEX IF NOT EXISTS idx_edges_to_entity ON edges(to_entity); PRAGMA user_version = 2;"));
    assert_eq!(cache_indexes().len(), 5);
    assert!(!schema_needs_reset(2));
    assert!(schema_needs_reset(0));
    assert!(schema_needs_reset(3));
}

#[test]
fn repo_keys_are_sixteen_lower_case_hex_digits() {
    for p in ["", "/", "/work/repo", "C:\\repo", "/tmp/ünïcode"] {
        let k = repo_cache_key(p);
        assert_eq!(k.len(), 16);
        assert!(k.chars().all(|c| c.is_ascii_digit() || ('a'..='f').contains(&c)));
    }
}

#[test]
fn a_root_and_the_root_joined_with_dot_share_a_cache_dir() {
    let candidates = || {
        vec![
            CacheCandidate { lexical: "/work/repo/.sem".to_string(), resolved: "/work/repo/.sem".to_string() },
            CacheCandidate { lexical: "/var/cache/sem".to_string(), resolved: "/var/cache/sem".to_string() },
        ]
    };
    let plain = CacheSite {
        repo_lexical: "/work/repo".to_string(),
        repo_resolved: "/work/repo".to_string(),
        repo_canonical: "/work/repo".to_string(),
        candidates: candidates(),
    };
    let dotted = CacheSite {
        repo_lexical: "/work/repo/.".to_string(),
        repo_resolved: "/work/repo/.".to_string(),
        repo_canonical: "/work/repo".to_string(),
        candidates: candidates(),
    };
    let dir = cache_dir_for_repo(&plain).unwrap();
    assert_eq!(dir, format!("/var/cache/sem/{}", repo_cache_key("/work/repo")));
    assert_eq!(cache_dir_for_repo(&dotted).unwrap(), dir);
    assert!(!path_is_external_to_repo("/work/repo/.sem", "/work/repo/.sem", "/work/repo/.", "/work/repo/."));
}
