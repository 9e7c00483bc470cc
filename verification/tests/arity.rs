use sem::arity::{count_all_call_args, count_call_args, extract_param_count};

#[test]
fn test_extract_param_count_basic() {
    assert_eq!(extract_param_count("function foo(a, b, c) {"), 3);
    assert_eq!(extract_param_count("function foo() {"), 0);
    assert_eq!(extract_param_count("def bar(self, x):"), 2);
    assert_eq!(extract_param_count("fn baz(a: i32) -> bool {"), 1);
}

#[test]
fn test_extract_param_count_nested() {
    assert_eq!(extract_param_count("function foo(a, fn(x, y), c) {"), 3);
}

#[test]
fn test_count_call_args() {
    assert_eq!(count_call_args("let x = foo(1, 2, 3);", "foo"), Some(3));
    assert_eq!(count_call_args("foo()", "foo"), Some(0));
    assert_eq!(count_call_args("bar(1)", "foo"), None);
    assert_eq!(count_call_args("foo(a, b)", "foo"), Some(2));
}

#[test]
fn test_count_all_call_args() {
    assert_eq!(count_all_call_args("foo(1, 2); foo(1);", "foo"), vec![2, 1]);
}

#[test]
fn test_count_all_call_args_resumes_after_unclosed_candidate() {
    assert_eq!(count_all_call_args("foo(\nfoo(1, 2)", "foo"), vec![2]);
}

#[test]
fn test_count_call_args_multibyte_utf8() {
    assert_eq!(count_call_args("let café = foo(1, 2);", "foo"), Some(2));
    assert_eq!(count_call_args("let É = 1; bar(x)", "bar"), Some(1));
    assert_eq!(count_call_args("// 日本語コメント\nfoo(a, b, c)", "foo"), Some(3));
}

#[test]
fn param_count_reads_only_the_first_line() {
    assert_eq!(extract_param_count("fn f(a,\n b)"), 0);
    assert_eq!(extract_param_count("fn f(a, b)\r\nbody(x, y, z)"), 2);
    assert_eq!(extract_param_count("no parens here"), 0);
    assert_eq!(extract_param_count(""), 0);
}

#[test]
fn param_count_ignores_commas_inside_generics_and_brackets() {
    assert_eq!(extract_param_count("fn f(a: HashMap<K, V>, b: [u8; 2], c: (i32, i32))"), 3);
    assert_eq!(extract_param_count("fn f(   )"), 0);
}

#[test]
fn call_args_skip_identifier_suffixes_and_spaced_calls() {
    assert_eq!(count_all_call_args("xfoo(1) foo (2) _foo(3) foo(4)", "foo"), vec![1]);
    assert_eq!(count_all_call_args("foo(bar(1, 2), [3, 4])", "foo"), vec![2]);
    assert_eq!(count_all_call_args("foo(foo(1))", "foo"), vec![1]);
}
