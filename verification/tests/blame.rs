use sem::blame::{blame_entity, column_widths, is_nested, json_author, json_commit, sha_short, EntityBlame, LineBlame};
use sem::model::SemanticEntity;
use sem::text::truncate_str;

fn entity(name: &str, start_line: usize, end_line: usize) -> SemanticEntity {
    SemanticEntity {
        id: name.to_string(),
        file_path: "a.py".to_string(),
        entity_type: "function".to_string(),
        name: name.to_string(),
        parent_id: None,
        content: String::new(),
        content_hash: String::new(),
        structural_hash: None,
        start_line,
        end_line,
        metadata_json: None,
    }
}

fn line(time: i64, author: Option<&str>, commit: &str) -> Option<LineBlame> {
    Some(LineBlame {
        time,
        author: author.map(|a| a.to_string()),
        commit: commit.to_string(),
        summary: format!("summary of {commit}"),
    })
}

#[test]
fn the_latest_line_names_the_commit() {
    let e = entity("foo", 1, 3);
    let lines = vec![line(100, Some("ann"), "c1"), line(946684800, Some("bob"), "c2"), line(946684800, Some("cy"), "c3")];
    let b = blame_entity(&e, &lines);
    assert_eq!(b.author, "bob");
    assert_eq!(b.commit_sha, "c2");
    assert_eq!(b.date, "2000-01-01");
    assert_eq!(b.summary, "summary of c2");
    assert_eq!((b.start_line, b.end_line), (1, 3));
}

#[test]
fn unnamed_signatures_and_uncommitted_lines() {
    let e = entity("foo", 1, 2);
    let b = blame_entity(&e, &[None, line(5, None, "c9")]);
    assert_eq!(b.author, "unknown");
    let none = blame_entity(&e, &[None, line(0, Some("z"), "c0")]);
    assert_eq!(none.author, "");
    assert_eq!(none.commit_sha, "");
    assert_eq!(json_author(&none), "uncommitted");
    assert_eq!(json_commit(&none), Some("uncommitted"));
    assert_eq!(json_author(&b), "unknown");
    assert_eq!(json_commit(&b), Some("c9"));
}

#[test]
fn uncommitted_latest_line_has_no_commit() {
    let e = entity("foo", 1, 2);
    let zeros = "0000000000000000000000000000000000000000";
    let lines = vec![line(946684800, Some("test"), "1f2e3d4c"), line(1700000000, Some("Not Committed Yet"), zeros)];
    let b = blame_entity(&e, &lines);
    assert_eq!(json_author(&b), "Not Committed Yet");
    assert_eq!(json_commit(&b), None);
    assert_eq!(json_commit(&result_with_sha("0000a000")), Some("0000a000"));
}

fn result_with_sha(sha: &str) -> EntityBlame {
    let mut r = result("x", 1, 1);
    r.commit_sha = sha.to_string();
    r
}

#[test]
fn short_shas() {
    assert_eq!(sha_short(""), "uncommtd");
    assert_eq!(sha_short("abc"), "abc");
    assert_eq!(sha_short("0123456789abcdef"), "01234567");
}

fn result(name: &str, start_line: usize, end_line: usize) -> EntityBlame {
    EntityBlame {
        name: name.to_string(),
        entity_type: "function".to_string(),
        start_line,
        end_line,
        author: String::new(),
        date: String::new(),
        commit_sha: String::new(),
        summary: String::new(),
    }
}

#[test]
fn nesting_and_widths() {
    let rs = vec![result("Outer", 1, 10), result("inner", 2, 5), result("same", 1, 10)];
    assert!(!is_nested(&rs, 0));
    assert!(is_nested(&rs, 1));
    assert!(!is_nested(&rs, 2));
    assert_eq!(column_widths(&rs), (5, 8));
    assert_eq!(column_widths(&[]), (10, 8));
}

#[test]
fn long_summaries_are_cut_to_the_column() {
    assert_eq!(truncate_str("short", 40), "short");
    assert_eq!(truncate_str("exactly ten", 11), "exactly ten");
    assert_eq!(truncate_str("a summary that goes on", 10), "a summa...");
    assert_eq!(truncate_str("héllo wörld", 8), "héllo...");
    assert_eq!(truncate_str("abcdef", 2), "...");
}
