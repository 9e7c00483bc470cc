use sem::calls::{count_call_arg_sites_ts, count_call_args_ts, extract_param_info_ts, CallArgCount};
use sem::mismatch::{find_arity_mismatches, find_broken_callers};
use sem::model::{EntityGraph, EntityInfo, EntityRef, RefType, SemanticEntity};
use sem::params::self_pattern;

#[test]
fn test_extract_param_info_python() {
    let info = extract_param_info_ts("def foo(a, b, c=3):\n    pass", "test.py").unwrap();
    assert_eq!(info.min_params, 2);
    assert_eq!(info.max_params, 3);
    assert!(!info.is_variadic);
}

#[test]
fn test_extract_param_info_python_self() {
    let info = extract_param_info_ts("def foo(self, a, b):\n    pass", "test.py").unwrap();
    assert_eq!(info.min_params, 2);
    assert_eq!(info.max_params, 2);
}

#[test]
fn test_extract_param_info_python_variadic() {
    let info = extract_param_info_ts("def foo(a, *args, **kwargs):\n    pass", "test.py").unwrap();
    assert!(info.is_variadic);
}

#[test]
fn test_extract_param_info_typescript() {
    let info = extract_param_info_ts(
        "function foo(a: number, b: string, c?: boolean): void {}",
        "test.ts",
    )
    .unwrap();
    assert_eq!(info.min_params, 2);
    assert_eq!(info.max_params, 3);
    assert!(!info.is_variadic);
}

#[test]
fn test_extract_param_info_typescript_default_parameter() {
    let info = extract_param_info_ts(
        "function foo(a: number, b = 1): number { return a + b; }",
        "test.ts",
    )
    .unwrap();
    assert_eq!(info.min_params, 1);
    assert_eq!(info.max_params, 2);
    assert!(!info.is_variadic);
}

#[test]
fn test_extract_param_info_javascript_default_parameter() {
    let info =
        extract_param_info_ts("function foo(a, b = 1) { return a + b; }", "test.js").unwrap();
    assert_eq!(info.min_params, 1);
    assert_eq!(info.max_params, 2);
    assert!(!info.is_variadic);
}

#[test]
fn test_extract_param_info_javascript_required_parameters() {
    let info = extract_param_info_ts("function foo(a, b) { return a + b; }", "test.js").unwrap();
    assert_eq!(info.min_params, 2);
    assert_eq!(info.max_params, 2);
    assert!(!info.is_variadic);
}

#[test]
fn test_extract_param_info_typescript_arrow_default_parameter() {
    let info = extract_param_info_ts(
        "const foo = (a: number, b = 1): number => a + b;",
        "test.ts",
    )
    .unwrap();
    assert_eq!(info.min_params, 1);
    assert_eq!(info.max_params, 2);
    assert!(!info.is_variadic);
}

#[test]
fn test_extract_param_info_rust() {
    let info = extract_param_info_ts(
        "fn foo(&self, a: i32, b: String) -> bool { true }",
        "test.rs",
    )
    .unwrap();
    assert_eq!(info.min_params, 2);
    assert_eq!(info.max_params, 2);
}

#[test]
fn test_extract_param_info_go() {
    let info = extract_param_info_ts(
        "func foo(a string, b int) error { return nil }",
        "test.go",
    )
    .unwrap();
    assert_eq!(info.min_params, 2);
    assert_eq!(info.max_params, 2);
}

#[test]
fn test_extract_param_info_go_grouped_params() {
    let info = extract_param_info_ts(
        "func foo(a, b int, c string) int { return a + b }",
        "test.go",
    )
    .unwrap();
    assert_eq!(info.min_params, 3);
    assert_eq!(info.max_params, 3);
}

#[test]
fn test_extract_param_info_go_unnamed_params() {
    let info = extract_param_info_ts("func foo(int, string) bool { return true }", "test.go")
        .unwrap();
    assert_eq!(info.min_params, 2);
    assert_eq!(info.max_params, 2);
}

#[test]
fn test_count_call_args_ts() {
    let count = count_call_args_ts("function bar() { foo(1, 2, 3); }", "foo", "test.ts");
    assert_eq!(count, Some(3));
}

#[test]
fn test_count_call_args_ts_method() {
    let count = count_call_args_ts("function bar() { obj.foo(1, 2); }", "foo", "test.ts");
    assert_eq!(count, Some(2));
}

#[test]
fn test_count_call_arg_sites_ts_repeated_calls() {
    let sites =
        count_call_arg_sites_ts("def bar():\n    foo(1, 2)\n    foo(1)\n", "foo", "test.py");
    assert_eq!(
        sites,
        vec![
            CallArgCount { actual_args: 2, line_offset: 1 },
            CallArgCount { actual_args: 1, line_offset: 2 },
        ]
    );
}

#[test]
fn verify_param_info_extraction() {
    let info = extract_param_info_ts("def foo(a, b, c=3):\n    pass", "test.py").unwrap();
    assert_eq!(info.min_params, 2, "python min_params");
    assert_eq!(info.max_params, 3, "python max_params");
    assert!(!info.is_variadic, "python not variadic");

    let info = extract_param_info_ts("def bar(self, x, y):\n    pass", "test.py").unwrap();
    assert_eq!(info.min_params, 2, "python self excluded");

    let info = extract_param_info_ts("def baz(a, *args):\n    pass", "test.py").unwrap();
    assert!(info.is_variadic, "python variadic");

    let info = extract_param_info_ts(
        "function greet(name: string, greeting?: string): void {}",
        "test.ts",
    )
    .unwrap();
    assert_eq!(info.min_params, 1, "ts min_params");
    assert_eq!(info.max_params, 2, "ts max_params");

    let info =
        extract_param_info_ts("fn process(&self, data: Vec<u8>) -> Result<()> {}", "test.rs")
            .unwrap();
    assert_eq!(info.min_params, 1, "rust self excluded");
    assert_eq!(info.max_params, 1, "rust max_params");

    let info = extract_param_info_ts(
        "func handler(w http.ResponseWriter, r *http.Request) {}",
        "test.go",
    )
    .unwrap();
    assert_eq!(info.min_params, 2, "go params");
}

#[test]
fn param_info_is_none_without_a_known_extension_or_function() {
    assert!(extract_param_info_ts("def foo(a):\n    pass", "test").is_none());
    assert!(extract_param_info_ts("def foo(a):\n    pass", "test.txt").is_none());
    assert!(extract_param_info_ts("x = 1\n", "test.py").is_none());
}

#[test]
fn param_info_of_other_languages() {
    let info = extract_param_info_ts("def m(cls, a: int, b: str = 'x'):\n    pass", "m.pyi").unwrap();
    assert_eq!((info.min_params, info.max_params, info.is_variadic), (1, 2, false));
    let info = extract_param_info_ts("function f(...rest) {}", "f.mjs").unwrap();
    assert!(info.is_variadic);
    let info = extract_param_info_ts("function f(a: number, b?: string) {}", "f.tsx").unwrap();
    assert_eq!((info.min_params, info.max_params, info.is_variadic), (1, 2, false));
    let info = extract_param_info_ts("func f(a int, b, c string) {}", "f.go").unwrap();
    assert_eq!((info.min_params, info.max_params, info.is_variadic), (3, 3, false));
    let info = extract_param_info_ts("fn f(mut self, a: u8) {}", "f.rs").unwrap();
    assert_eq!((info.min_params, info.max_params), (1, 1));
}

#[test]
fn self_patterns_of_rust() {
    assert!(self_pattern("self"));
    assert!(self_pattern("&self"));
    assert!(self_pattern("&mut self"));
    assert!(self_pattern("&mut  self "));
    assert!(!self_pattern(" & mut  self "));
    assert!(!self_pattern("selfish"));
    assert!(!self_pattern("mut other"));
}

#[test]
fn call_sites_by_scoped_and_selector_names() {
    assert_eq!(count_call_args_ts("fn main() { a::b::foo(1, 2); }", "foo", "m.rs"), Some(2));
    assert_eq!(count_call_args_ts("func main() { pkg.Foo(1) }", "Foo", "m.go"), Some(1));
    assert_eq!(count_call_args_ts("function b() { foo(/* c */ 1); }", "foo", "m.js"), Some(1));
    assert_eq!(count_call_args_ts("function b() { bar(1); }", "foo", "m.js"), None);
    assert_eq!(count_call_args_ts("foo(1)", "foo", "m.unknown"), None);
}

fn entity(id: &str, name: &str, path: &str, content: &str, start_line: usize) -> SemanticEntity {
    SemanticEntity {
        id: id.to_string(),
        file_path: path.to_string(),
        entity_type: "function".to_string(),
        name: name.to_string(),
        parent_id: None,
        content: content.to_string(),
        content_hash: String::new(),
        structural_hash: None,
        start_line,
        end_line: start_line,
        metadata_json: None,
    }
}

fn info_of(e: &SemanticEntity) -> EntityInfo {
    EntityInfo {
        id: e.id.clone(),
        name: e.name.clone(),
        entity_type: e.entity_type.clone(),
        file_path: e.file_path.clone(),
        start_line: e.start_line,
        end_line: e.end_line,
        parent_id: None,
    }
}

fn call(from: &str, to: &str) -> EntityRef {
    EntityRef { from_entity: from.to_string(), to_entity: to.to_string(), ref_type: RefType::Calls }
}

fn graph_of(entities: &[SemanticEntity], edges: Vec<EntityRef>) -> EntityGraph {
    EntityGraph { entities: entities.iter().map(info_of).collect(), edges }
}

#[test]
fn repeated_call_sites_report_the_bad_second_call_on_its_line() {
    let entities = vec![
        entity("app.py::foo", "foo", "app.py", "def foo(a, b):\n    return a + b", 1),
        entity("app.py::bar", "bar", "app.py", "def bar():\n    foo(1, 2)\n    foo(1)", 5),
    ];
    let graph = graph_of(&entities, vec![call("app.py::bar", "app.py::foo")]);
    let mismatches = find_arity_mismatches(&graph, &entities);
    assert_eq!(mismatches.len(), 1);
    let m = &mismatches[0];
    assert_eq!((m.caller_entity.as_str(), m.callee_entity.as_str()), ("bar", "foo"));
    assert_eq!((m.expected_min, m.expected_max, m.actual_args, m.line), (2, 2, 1, 7));
    assert!(!m.is_variadic);
}

#[test]
fn default_valued_typescript_params_are_optional() {
    let entities = vec![
        entity("app.ts::foo", "foo", "app.ts", "function foo(a: number, b = 1): number { return a + b; }", 1),
        entity("app.ts::bar", "bar", "app.ts", "function bar(): number { return foo(1); }", 2),
    ];
    let graph = graph_of(&entities, vec![call("app.ts::bar", "app.ts::foo")]);
    assert!(find_arity_mismatches(&graph, &entities).is_empty());
}

#[test]
fn grouped_go_params_count_each_name() {
    let entities = vec![
        entity("main.go::foo", "foo", "main.go", "func foo(a, b int) int { return a + b }", 3),
        entity("main.go::bar", "bar", "main.go", "func bar() int { return foo(1) }", 4),
    ];
    let graph = graph_of(&entities, vec![call("main.go::bar", "main.go::foo")]);
    let mismatches = find_arity_mismatches(&graph, &entities);
    assert_eq!(mismatches.len(), 1);
    assert_eq!((mismatches[0].expected_min, mismatches[0].expected_max, mismatches[0].actual_args), (2, 2, 1));
}

#[test]
fn mismatches_skip_tests_ambiguous_shared_and_variadic_callees() {
    let entities = vec![
        entity("a.py::new", "new", "a.py", "def new(a):\n    pass", 1),
        entity("a.py::log", "log", "a.py", "def log(*args):\n    pass", 3),
        entity("tests/t.py::chk", "chk", "tests/t.py", "def chk(a):\n    pass", 1),
        entity("a.py::dup", "dup", "a.py", "def dup(a):\n    pass", 5),
        entity("b.py::dup", "dup", "b.py", "def dup(a, b):\n    pass", 1),
        entity("a.py::use", "use", "a.py", "def use():\n    new()\n    log()\n    chk()\n    dup()", 7),
    ];
    let graph = graph_of(
        &entities,
        vec![
            call("a.py::use", "a.py::new"),
            call("a.py::use", "a.py::log"),
            call("a.py::use", "tests/t.py::chk"),
            call("a.py::use", "a.py::dup"),
        ],
    );
    assert!(find_arity_mismatches(&graph, &entities).is_empty());
}

#[test]
fn broken_callers_after_a_signature_change() {
    let old = vec![entity("a.py::f", "f", "a.py", "def f(a):\n    pass", 1)];
    let new = vec![
        entity("a.py::f", "f", "a.py", "def f(a, b):\n    pass", 1),
        entity("a.py::g", "g", "a.py", "def g():\n    f(1)\n    f(1, 2)", 4),
    ];
    let graph = graph_of(&new, vec![call("a.py::g", "a.py::f")]);
    let broken = find_broken_callers(&old, &graph, &new);
    assert_eq!(broken.len(), 1);
    assert_eq!((broken[0].caller_entity.as_str(), broken[0].actual_args, broken[0].line), ("g", 1, 5));
    assert!(find_broken_callers(&new, &graph, &new).is_empty());
}

#[test]
fn languages_by_extension() {
    assert_eq!(sem::calls::lang_from_ext(".pyi"), "python");
    assert_eq!(sem::calls::lang_from_ext(".tsx"), "typescript");
    assert_eq!(sem::calls::lang_from_ext(".cjs"), "javascript");
    assert_eq!(sem::calls::lang_from_ext(".rs"), "rust");
    assert_eq!(sem::calls::lang_from_ext(".go"), "go");
    assert_eq!(sem::calls::lang_from_ext(".java"), "unknown");
    assert_eq!(sem::calls::lang_from_ext("py"), "unknown");
}
