use sicompass_sdk::tags;
use texteditor_plugin::parse::{navigate_path, parse_file, parse_file_ext};

fn strip_src(s: &str) -> &str {
    tags::extract_src(s).map(|(_, rest)| rest).unwrap_or(s)
}

// --- generic FFON ---

#[test]
fn parse_file_splits_on_newline() {
    let elements = parse_file("line1\nline2\nline3");
    assert_eq!(elements.len(), 3);
    assert_eq!(strip_src(elements[0].as_str().unwrap()), "line1");
    assert_eq!(strip_src(elements[1].as_str().unwrap()), "line2");
    assert_eq!(strip_src(elements[2].as_str().unwrap()), "line3");
}

#[test]
fn parse_file_skips_blank_lines() {
    let elements = parse_file("a\n\nb");
    assert_eq!(elements.len(), 2);
}

#[test]
fn parse_file_colon_suffix_without_body_is_str() {
    // A bare "section:" with no `{ }` body has nothing to navigate into,
    // so it renders as a Str (`-i`) rather than an empty Obj (`+i`).
    let elements = parse_file("section:");
    assert_eq!(elements.len(), 1);
    assert!(elements[0].is_str());
    assert_eq!(strip_src(elements[0].as_str().unwrap()), "section:");
}

#[test]
fn parse_file_colon_suffix_with_body_is_obj() {
    let elements = parse_file("section:\n{\n  child\n}");
    assert_eq!(elements.len(), 1);
    assert!(elements[0].is_obj());
    assert_eq!(strip_src(elements[0].as_obj().unwrap().key.as_str()), "section:");
}

#[test]
fn parse_file_colon_suffix_with_empty_braces_is_str() {
    // `{` followed immediately by `}` is not a real body — the header
    // should still collapse to Str.
    let elements = parse_file("section:\n{\n}");
    assert_eq!(elements.len(), 1);
    assert!(elements[0].is_str());
}

#[test]
fn cbrace_empty_block_collapses_to_str() {
    // `struct Foo {` with an immediate `}` has no body, so the opener is a
    // Str sibling of the closing brace rather than an empty Obj.
    let elements = parse_file_ext("struct Foo {\n}", "rs");
    assert_eq!(elements.len(), 2);
    assert!(elements[0].is_str(), "empty-body opener must be Str");
    assert_eq!(strip_src(elements[0].as_str().unwrap()), "struct Foo {");
    assert_eq!(strip_src(elements[1].as_str().unwrap()), "}");
}

#[test]
fn python_empty_def_collapses_to_str() {
    // `def foo():` with no indented body is a Str.
    let elements = parse_file_ext("def foo():\nx = 1\n", "py");
    assert_eq!(elements.len(), 2);
    assert!(elements[0].is_str(), "empty-body def must be Str");
    assert_eq!(strip_src(elements[0].as_str().unwrap()), "def foo():");
}

#[test]
fn parse_file_handles_nested_braces() {
    let src = "section:\n{\n  child1\n  child2\n}\nplain";
    let elements = parse_file(src);
    assert_eq!(elements.len(), 2);
    let obj = elements[0].as_obj().unwrap();
    assert_eq!(strip_src(&obj.key), "section:");
    assert_eq!(obj.children.len(), 2);
    assert_eq!(strip_src(elements[1].as_str().unwrap()), "plain");
}

#[test]
fn parse_file_handles_deep_nesting() {
    let src = "outer:\n{\n  inner:\n  {\n    deep\n  }\n}";
    let elements = parse_file(src);
    assert_eq!(elements.len(), 1);
    let outer = elements[0].as_obj().unwrap();
    let inner = outer.children[0].as_obj().unwrap();
    assert_eq!(strip_src(&inner.key), "inner:");
    assert_eq!(strip_src(inner.children[0].as_str().unwrap()), "deep");
}

#[test]
fn parse_file_colon_in_value_is_leaf() {
    let elements = parse_file("name: Alice");
    assert_eq!(elements.len(), 1);
    assert!(elements[0].is_str());
}

#[test]
fn parse_file_src_annotations_correct() {
    let elements = parse_file("alpha\n\nbeta\ngamma");
    // alpha → line 0, blank skipped, beta → line 2, gamma → line 3
    assert_eq!(elements[0].as_str().map(|s| tags::extract_src(s).map(|(n,_)| n)), Some(Some(0)));
    assert_eq!(elements[1].as_str().map(|s| tags::extract_src(s).map(|(n,_)| n)), Some(Some(2)));
    assert_eq!(elements[2].as_str().map(|s| tags::extract_src(s).map(|(n,_)| n)), Some(Some(3)));
}

// --- C-brace parser ---

#[test]
fn cbrace_function_becomes_obj() {
    let src = "void foo() {\n    return;\n}";
    let elements = parse_file_ext(src, "c");
    // Obj at index 0, closing "}" at index 1 (one layer to the left of the body)
    assert_eq!(elements.len(), 2);
    let obj = elements[0].as_obj().unwrap();
    assert_eq!(strip_src(&obj.key), "void foo() {");
    assert_eq!(obj.children.len(), 1);
    assert_eq!(strip_src(obj.children[0].as_str().unwrap()), "return;");
    assert_eq!(strip_src(elements[1].as_str().unwrap()), "}");
}

#[test]
fn cbrace_plain_line_is_leaf() {
    let src = "int x = 1;";
    let elements = parse_file_ext(src, "c");
    assert_eq!(elements.len(), 1);
    assert!(elements[0].is_str());
}

#[test]
fn cbrace_nested_blocks() {
    let src = "fn outer() {\n    fn inner() {\n        x\n    }\n}";
    let elements = parse_file_ext(src, "rs");
    // outer Obj + outer's closing "}" at top level
    assert_eq!(elements.len(), 2);
    let outer = elements[0].as_obj().unwrap();
    assert_eq!(strip_src(&outer.key), "fn outer() {");
    // inner Obj + inner's closing "}" inside outer's body
    assert_eq!(outer.children.len(), 2);
    let inner = outer.children[0].as_obj().unwrap();
    assert_eq!(strip_src(&inner.key), "fn inner() {");
    assert_eq!(outer.children.len(), 2);
    assert_eq!(strip_src(inner.children[0].as_str().unwrap()), "x");
    assert_eq!(strip_src(outer.children[1].as_str().unwrap()), "}");
    assert_eq!(strip_src(elements[1].as_str().unwrap()), "}");
}

#[test]
fn cbrace_else_block_becomes_sibling() {
    let src = "if (x) {\n    a;\n} else {\n    b;\n}";
    let elements = parse_file_ext(src, "c");
    // if Obj, else Obj (continuation), then the closing "}"
    assert_eq!(elements.len(), 3);
    assert_eq!(strip_src(elements[0].as_obj().unwrap().key.as_str()), "if (x) {");
    assert_eq!(strip_src(elements[1].as_obj().unwrap().key.as_str()), "} else {");
    assert_eq!(strip_src(elements[2].as_str().unwrap()), "}");
}

#[test]
fn cbrace_ts_extension_works() {
    let src = "function foo() {\n  return 1;\n}";
    let elements = parse_file_ext(src, "ts");
    // Obj + closing "}"
    assert_eq!(elements.len(), 2);
    assert!(elements[0].is_obj());
    assert_eq!(strip_src(elements[1].as_str().unwrap()), "}");
}

// --- Python indent parser ---

#[test]
fn python_function_becomes_obj() {
    let src = "def foo():\n    return 1\n";
    let elements = parse_file_ext(src, "py");
    assert_eq!(elements.len(), 1);
    let obj = elements[0].as_obj().unwrap();
    assert_eq!(strip_src(&obj.key), "def foo():");
    assert_eq!(obj.children.len(), 1);
    assert_eq!(strip_src(obj.children[0].as_str().unwrap()), "return 1");
}

#[test]
fn python_class_with_methods() {
    let src = "class Foo:\n    def bar(self):\n        pass\n";
    let elements = parse_file_ext(src, "py");
    assert_eq!(elements.len(), 1);
    let cls = elements[0].as_obj().unwrap();
    assert_eq!(strip_src(&cls.key), "class Foo:");
    assert_eq!(cls.children.len(), 1);
    let method = cls.children[0].as_obj().unwrap();
    assert_eq!(strip_src(&method.key), "def bar(self):");
    assert_eq!(strip_src(method.children[0].as_str().unwrap()), "pass");
}

#[test]
fn python_dedent_ends_block() {
    let src = "def foo():\n    x = 1\ntop = 2\n";
    let elements = parse_file_ext(src, "py");
    assert_eq!(elements.len(), 2);
    assert!(elements[0].is_obj());
    assert_eq!(strip_src(elements[1].as_str().unwrap()), "top = 2");
}

#[test]
fn python_else_becomes_sibling() {
    let src = "if True:\n    a = 1\nelse:\n    b = 2\n";
    let elements = parse_file_ext(src, "py");
    assert_eq!(elements.len(), 2);
    assert_eq!(strip_src(elements[0].as_obj().unwrap().key.as_str()), "if True:");
    assert_eq!(strip_src(elements[1].as_obj().unwrap().key.as_str()), "else:");
}

// --- navigate_path with src annotations ---

#[test]
fn navigate_path_empty_returns_all() {
    let elems = parse_file("a\nb");
    assert_eq!(navigate_path(&elems, &[]).len(), 2);
}

#[test]
fn navigate_path_finds_section_children() {
    let src = "section:\n{\n  child\n}";
    let elems = parse_file(src);
    // Path uses plain key (no <src=N> prefix) — navigate_path strips it internally.
    let result = navigate_path(&elems, &["section:".to_string()]);
    assert_eq!(result.len(), 1);
    assert_eq!(strip_src(result[0].as_str().unwrap()), "child");
}

#[test]
fn navigate_path_unknown_returns_empty() {
    let elems = parse_file("line");
    assert!(navigate_path(&elems, &["nonexistent:".to_string()]).is_empty());
}
