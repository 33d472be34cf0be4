use texteditor_plugin::editor::{home_dir, FetchStep, HistoryStep, Step, TextEditorProvider};
use texteditor_plugin::ffon::{wrap_ffon_in_input, FfonElement, FfonObject};
use texteditor_plugin::listing::{list_directory, order_of};
use texteditor_plugin::parse::{navigate_path, parse_file, parse_file_ext};
use texteditor_plugin::settings::{saved_start_folder, start_folder_in};
use texteditor_plugin::text::{
    build_indented_lines, is_whitespace, leading_whitespace, measure_indent,
};
use texteditor_plugin::timeline::{
    decode_line_payload, FsOpKind, FsSideEffect, TimelineEntry, TrashedTree,
};

fn leaf(s: &str) -> FfonElement {
    FfonElement::Str(s.to_owned())
}

fn branch(key: &str, children: Vec<FfonElement>) -> FfonElement {
    FfonElement::Obj(FfonObject { key: key.to_owned(), children })
}

fn open_file(path: &str, contents: &str) -> TextEditorProvider {
    let mut p = TextEditorProvider::new("/root".to_owned());
    p.set_current_path(path);
    assert!(p.load_file(Some(contents)));
    p
}

fn content_of(step: Step) -> String {
    match step {
        Step::WriteFile { content, .. } => content,
        other => panic!("expected a write, got {other:?}"),
    }
}

// ---- texts ------------------------------------------------------------------

#[test]
fn white_space_is_that_of_unicode() {
    for n in 0..=0x10ffffu32 {
        if let Some(c) = char::from_u32(n) {
            assert_eq!(is_whitespace(c), c.is_whitespace(), "U+{n:04X}");
        }
    }
}

#[test]
fn indents_are_measured_in_characters() {
    assert_eq!(measure_indent(""), 0);
    assert_eq!(measure_indent("x"), 0);
    assert_eq!(measure_indent("\t x"), 2);
    assert_eq!(measure_indent("\u{3000}\u{a0}x"), 2);
    assert_eq!(measure_indent("   "), 3);
}

#[test]
fn blank_lines_have_no_leading_white_space() {
    assert_eq!(leading_whitespace("  x y "), "  ");
    assert_eq!(leading_whitespace("\t\u{3000}x"), "\t\u{3000}");
    assert_eq!(leading_whitespace("x"), "");
    assert_eq!(leading_whitespace("   "), "");
    assert_eq!(leading_whitespace(""), "");
}

#[test]
fn typed_lines_are_indented_unless_empty() {
    assert_eq!(build_indented_lines("", "  "), [""]);
    assert_eq!(build_indented_lines("a", "  "), ["  a"]);
    assert_eq!(build_indented_lines("\na\n\n b\n", "\t"), ["", "\ta", "", "\t b", ""]);
}

// ---- elements ---------------------------------------------------------------

#[test]
fn every_text_becomes_a_field() {
    let list = vec![leaf("<src=0>a"), branch("<src=1>b:", vec![leaf("c")])];
    assert_eq!(
        wrap_ffon_in_input(&list),
        vec![
            leaf("<input><src=0>a</input>"),
            branch("<input><src=1>b:</input>", vec![leaf("<input>c</input>")]),
        ]
    );
}

#[test]
fn elements_tell_what_they_are() {
    let l = FfonElement::new_str("a".to_owned());
    let b = FfonElement::new_obj("b".to_owned());
    assert!(l.is_str() && !l.is_obj() && b.is_obj() && !b.is_str());
    assert_eq!((l.as_str(), b.as_str()), (Some("a"), None));
    assert!(l.as_obj().is_none());
    assert_eq!(b.as_obj().unwrap().key, "b");
    assert!(b.as_obj().unwrap().children.is_empty());
    assert_eq!((l.text(), b.text()), ("a", "b"));
}

// ---- parsing ----------------------------------------------------------------

#[test]
fn extensions_pick_the_parser_without_regard_to_case() {
    let src = "if x {\n  y\n}";
    for ext in ["rs", "RS", "c", "Cpp", "go", "java", "js", "ts", "tsx"] {
        assert_eq!(
            parse_file_ext(src, ext),
            vec![branch("<src=0>if x {", vec![leaf("<src=1>y")]), leaf("<src=2>}")],
            "{ext}"
        );
    }
    assert_eq!(
        parse_file_ext("a:\n  b", "PYW"),
        vec![branch("<src=0>a:", vec![leaf("<src=1>b")])]
    );
    assert_eq!(parse_file_ext(src, "txt"), parse_file(src));
    assert_eq!(parse_file_ext("a:\n  b", ""), vec![leaf("<src=0>a:"), leaf("<src=1>b")]);
}

#[test]
fn lines_end_with_a_newline_or_a_carriage_return_and_a_newline() {
    assert_eq!(parse_file("a\r\nb\n"), vec![leaf("<src=0>a"), leaf("<src=1>b")]);
    assert!(parse_file("").is_empty());
    assert!(parse_file("\n\n").is_empty());
}

#[test]
fn sections_are_found_by_what_is_seen_of_them() {
    let list = vec![
        leaf("<input><src=0>x:</input>"),
        branch("<input><src=1>x:</input>", vec![branch("<src=2>y:", vec![leaf("z")])]),
        branch("<input><src=3>x:</input>", vec![]),
    ];
    assert_eq!(navigate_path(&list, &["x:".to_owned()]), &[branch("<src=2>y:", vec![leaf("z")])]);
    assert_eq!(navigate_path(&list, &["x:".to_owned(), "y:".to_owned()]), &[leaf("z")]);
    assert!(navigate_path(&list, &["x:".to_owned(), "x:".to_owned()]).is_empty());
}

fn flat(list: &[FfonElement], out: &mut Vec<String>) {
    for e in list {
        out.push(e.text().to_owned());
        if let Some(obj) = e.as_obj() {
            flat(&obj.children, out);
        }
    }
}

#[test]
fn elements_are_the_lines_of_the_file_in_order() {
    let shown = |src: &str, ext: &str| {
        let mut out = Vec::new();
        flat(&parse_file_ext(src, ext), &mut out);
        out
    };
    assert_eq!(
        shown("class A:\n\n  def f():\n    x\n  y\nz\n", "py"),
        ["<src=0>class A:", "<src=2>def f():", "<src=3>x", "<src=4>y", "<src=5>z"]
    );
    assert_eq!(
        shown("if a {\n  b\n} else {\n  c\n}\n}\nd", "js"),
        ["<src=0>if a {", "<src=1>b", "<src=2>} else {", "<src=3>c", "<src=4>}", "<src=6>d"]
    );
    assert_eq!(
        shown("a:\n{\n  b:\n  {\n    c\n  }\n  d\n}\ne\n}\nf", "txt"),
        ["<src=0>a:", "<src=2>b:", "<src=4>c", "<src=6>d", "<src=8>e", "<src=9>}", "<src=10>f"]
    );
}

#[test]
fn a_brace_that_closes_nothing_is_a_line() {
    assert_eq!(
        parse_file("a\n}\nb"),
        vec![leaf("<src=0>a"), leaf("<src=1>}"), leaf("<src=2>b")]
    );
    assert_eq!(
        parse_file("}\n{\nx:\n{\n  {\n}\n}\n}"),
        vec![
            leaf("<src=0>}"),
            leaf("<src=1>{"),
            branch("<src=2>x:", vec![leaf("<src=4>{")]),
            leaf("<src=6>}"),
            leaf("<src=7>}"),
        ]
    );
}

#[test]
fn deeper_lines_are_below_their_headers() {
    assert_eq!(
        parse_file_ext("a:\n    b:\n      c\n    d\n  e\nf", "py"),
        vec![
            branch(
                "<src=0>a:",
                vec![branch("<src=1>b:", vec![leaf("<src=2>c")]), leaf("<src=3>d")]
            ),
            leaf("<src=4>e"),
            leaf("<src=5>f"),
        ]
    );
    assert_eq!(
        parse_file_ext("f {\n g {\n  x\n }\n}", "c"),
        vec![
            branch(
                "<src=0>f {",
                vec![branch("<src=1>g {", vec![leaf("<src=2>x")]), leaf("<src=3>}")]
            ),
            leaf("<src=4>}"),
        ]
    );
}

// ---- directories -------------------------------------------------------------

#[test]
fn folders_come_first_and_case_does_not_matter() {
    let list = |names: &[(bool, &str)]| {
        let entries = names.iter().map(|(d, n)| (*d, n.to_string())).collect();
        let shown = list_directory(Some(entries));
        shown.iter().map(|e| e.text().to_owned()).collect::<Vec<_>>()
    };
    assert_eq!(
        list(&[(false, "b"), (true, "Z"), (false, "A"), (true, "a"), (false, "Ä"), (false, "aa")]),
        [
            "<dir><input>a</input>",
            "<dir><input>Z</input>",
            "<file><input>A</input>",
            "<file><input>aa</input>",
            "<file><input>b</input>",
            "<file><input>Ä</input>",
        ]
    );
    assert_eq!(
        list(&[(false, "x"), (false, "X"), (false, "É"), (false, "é")]),
        [
            "<file><input>x</input>",
            "<file><input>X</input>",
            "<file><input>É</input>",
            "<file><input>é</input>",
        ]
    );
}

#[test]
fn entries_with_equal_keys_keep_their_order() {
    let key = |is_dir: bool, name: &str| (is_dir, name.to_owned());
    let keys = vec![key(false, "b"), key(true, "b"), key(false, "a"), key(false, "b"), key(true, "")];
    assert_eq!(order_of(&keys), [4, 1, 2, 0, 3]);
    assert!(order_of(&vec![]).is_empty());
}

#[test]
fn an_unreadable_folder_is_shown_as_empty() {
    assert!(list_directory(None).is_empty());
    assert!(list_directory(Some(vec![])).is_empty());
}

// ---- settings ----------------------------------------------------------------

#[test]
fn the_start_folder_is_read_from_the_settings() {
    let saved = |s: &str| saved_start_folder(s);
    assert_eq!(
        saved(r#"{"text editor":{"textEditorPath":"/srv/notes"}}"#),
        Some("/srv/notes".to_owned())
    );
    assert_eq!(saved(r#"{"text editor":{"textEditorPath":""}}"#), None);
    assert_eq!(saved(r#"{"text editor":{"textEditorPath":7}}"#), None);
    assert_eq!(saved(r#"{"text editor":"/srv/notes"}"#), None);
    assert_eq!(saved(r#"{"other":{"textEditorPath":"/srv/notes"}}"#), None);
    assert_eq!(saved("not json"), None);
}

#[test]
fn the_start_folder_is_found_in_a_json_value() {
    let mut section = serde_json::Map::new();
    section.insert("textEditorPath".to_owned(), serde_json::Value::from("/srv"));
    let mut root = serde_json::Map::new();
    root.insert("text editor".to_owned(), serde_json::Value::Object(section));
    assert_eq!(start_folder_in(&serde_json::Value::Object(root)), Some("/srv".to_owned()));
    assert_eq!(start_folder_in(&serde_json::Value::Null), None);
}

#[test]
fn the_editor_starts_where_the_settings_say() {
    let mut p = open_file("/root/a.txt", "x");
    p.on_setting_change("textEditorPath", "/other");
    p.init(Some(r#"{"text editor":{"textEditorPath":"/srv/notes"}}"#));
    assert_eq!(p.text_editor_path(), "/srv/notes");
    assert_eq!(p.current_path(), "/srv/notes");
    assert!(!p.needs_refresh());
    assert!(p.at_root());
    p.set_current_path("/srv/notes/deep");
    assert!(!p.at_root());
    p.init(None);
    assert_eq!(p.current_path(), "/srv/notes");
    p.init(Some("{}"));
    assert_eq!(p.current_path(), "/srv/notes");
}

#[test]
fn the_home_folder_comes_from_the_environment() {
    let path = |s: &str| Some(s.to_owned());
    assert_eq!(home_dir(path("/home/a"), path("C:\\a")), "/home/a");
    assert_eq!(home_dir(path(""), path("C:\\a")), "");
    assert_eq!(home_dir(None, path("C:\\a")), "C:\\a");
    assert_eq!(home_dir(None, None), "");
}

// ---- moving about --------------------------------------------------------------

#[test]
fn paths_are_joined_and_left_part_by_part() {
    let mut p = TextEditorProvider::new("/root".to_owned());
    assert_eq!(p.push_path("<dir><input>sub</input>", false), Some("/root/sub".to_owned()));
    assert_eq!(p.push_path("sub/", false), Some("/root/sub".to_owned()));
    assert_eq!(p.push_path("/abs", false), Some("/abs".to_owned()));
    assert_eq!(p.current_path(), "/root");
    p.enter_path("/root/sub".to_owned());
    p.enter_path("/root/sub/a.rs".to_owned());
    assert_eq!(p.push_path("<input><src=0>fn f() {</input>", true), None);
    assert_eq!(p.push_path("x:/", true), None);
    assert_eq!(p.current_path(), "/root/sub/a.rs/fn f() {/x:");
    p.pop_path();
    assert_eq!(p.current_path(), "/root/sub/a.rs/fn f() {");
    p.pop_path();
    assert_eq!(p.current_path(), "/root/sub/a.rs");
    p.pop_path();
    assert_eq!(p.current_path(), "/root/sub");
    p.pop_path();
    assert_eq!(p.current_path(), "/root");
    p.pop_path();
    assert_eq!(p.current_path(), "/root");
}

#[test]
fn outside_the_start_folder_the_way_up_ends_at_the_root_of_the_disk() {
    let mut p = TextEditorProvider::new("/root".to_owned());
    p.set_current_path("/etc");
    p.pop_path();
    assert_eq!(p.current_path(), "/");
    p.pop_path();
    assert_eq!(p.current_path(), "/");
}

#[test]
fn equal_paths_need_not_be_written_alike() {
    let mut p = TextEditorProvider::new("/root/./notes/".to_owned());
    p.set_current_path("/root/notes");
    assert!(p.at_root());
    p.pop_path();
    assert_eq!(p.current_path(), "/root/notes");
}

#[test]
fn the_way_up_leads_to_the_parent() {
    let mut p = TextEditorProvider::new("/root".to_owned());
    p.enter_path("/root/a".to_owned());
    assert_eq!(p.push_shown("b/", true), None);
    p.leave_to(false, Some("/elsewhere".to_owned()));
    assert_eq!(p.current_path(), "/root/a");
    p.leave_to(true, Some("/elsewhere".to_owned()));
    assert_eq!(p.current_path(), "/root/a");
    p.leave_to(false, Some("/elsewhere".to_owned()));
    assert_eq!(p.current_path(), "/elsewhere");
    p.leave_to(false, None);
    assert_eq!(p.current_path(), "/elsewhere");
    assert_eq!(p.push_shown("b//", false), Some("/elsewhere/b".to_owned()));
    p.restart(Some("/saved".to_owned()));
    assert_eq!((p.text_editor_path(), p.current_path()), ("/saved", "/saved"));
    p.enter_path("/saved/a".to_owned());
    p.restart(None);
    assert_eq!(p.current_path(), "/saved");
}

#[test]
fn a_read_file_is_not_read_again() {
    let mut p = TextEditorProvider::new("/root".to_owned());
    p.enter_path("/root/a.txt".to_owned());
    assert_eq!(p.fetch(true), FetchStep::ReadFile { path: "/root/a.txt".to_owned() });
    let shown = p.fetch_file_content(Some("one\ntwo"));
    assert_eq!(shown, vec![leaf("<input><src=0>one</input>"), leaf("<input><src=1>two</input>")]);
    assert_eq!(p.fetch_file_content(None), shown);
    assert_eq!(p.fetch(true), FetchStep::Show(shown));
    p.pop_path();
    assert_eq!(p.fetch(false), FetchStep::ListDirectory { path: "/root".to_owned() });
}

#[test]
fn a_file_that_cannot_be_read_changes_nothing() {
    let mut p = open_file("/root/a.txt", "x");
    p.set_current_path("/root/b.txt");
    assert!(!p.load_file(None));
    assert_eq!(p.fetch(true), FetchStep::ReadFile { path: "/root/b.txt".to_owned() });
    assert_eq!(p.fetch_file_content(None), vec![leaf("(binary or unreadable file)")]);
}

#[test]
fn a_blank_start_folder_gives_the_hint() {
    let p = TextEditorProvider::new(" \t".to_owned());
    assert_eq!(p.fetch(true), FetchStep::Show(vec![leaf("set text editor path in settings")]));
}

// ---- editing ---------------------------------------------------------------------

#[test]
fn an_edit_reaches_the_line_whatever_it_holds() {
    let mut p = open_file("/root/a.html", "<input>a</input>\n<b>\\</b>\n");
    let step = p.commit_edit("<input><src=1><b>\\</b></input>", "x", true);
    assert_eq!(content_of(step), "<input>a</input>\nx\n");
    let mut p = open_file("/root/a.html", "<input>a</input>\n<b>\\</b>\n");
    let step = p.commit_edit("<input><src=0><input>a</input></input>", "x", true);
    assert_eq!(content_of(step), "x\n<b>\\</b>\n");
}

#[test]
fn code_is_taken_as_it_was_typed() {
    for typed in ["let v: Vec<u8> = f(a < b && c > d);", "x = \"\\n\"", "</div>", "a \\ b", "<b>"] {
        let mut p = open_file("/root/a.rs", "  old\n");
        let step = p.commit_edit("<input><src=0>old</input>", typed, true);
        assert_eq!(content_of(step), format!("  {typed}\n"));
        let mut p = open_file("/root/a.rs", "  old\n");
        let field = format!("<input><src=0>{typed}</input>");
        assert_eq!(content_of(p.commit_edit("<src=0>old", &field, true)), format!("  {typed}\n"));
    }
    let mut p = open_file("/root/a.rs", "old");
    assert_eq!(content_of(p.commit_edit("<src=0>old", "\\<b\\> \\\\<", true)), "<b> \\<");
}

#[test]
fn lines_out_of_range_are_refused() {
    let mut p = open_file("/root/a.txt", "one\ntwo");
    assert_eq!(p.commit_edit("<src=2>x", "y", true), Step::Done(false));
    assert_eq!(p.commit_edit("<src=0>one", "<srcins=2>", true), Step::Done(false));
    assert_eq!(p.delete_item("<src=2>x"), Step::Done(false));
    assert_eq!(p.replace_line(9, "x", "x"), Step::Done(false));
    assert_eq!(p.commit_edit("", "", true), Step::Done(false));
    assert_eq!(p.commit_edit("one", "two", true), Step::Done(false));
    assert_eq!(p.append_text(""), Step::Done(false));
}

#[test]
fn an_unchanged_line_is_not_written() {
    let mut p = open_file("/root/a.txt", "  one\ntwo");
    assert_eq!(p.commit_edit("<input><src=0>one</input>", "one", true), Step::Done(true));
    assert_eq!(p.replace_line(1, "two", "two"), Step::Done(true));
}

#[test]
fn the_end_of_the_file_is_kept() {
    let mut p = open_file("/root/a.txt", "a\nb\n");
    assert_eq!(content_of(p.commit_edit("<src=0>a", "x", true)), "x\nb\n");
    let mut p = open_file("/root/a.txt", "a\nb");
    assert_eq!(content_of(p.commit_edit("<src=0>a", "x", true)), "x\nb");
    let mut p = open_file("/root/a.txt", "\n a\n\n");
    assert_eq!(content_of(p.commit_edit("<src=1>a", "x", true)), "\n x\n\n");
}

#[test]
fn an_insertion_behind_the_end_takes_the_last_indentation() {
    let mut p = open_file("/root/a.py", "if x:\n    a\n");
    assert_eq!(
        content_of(p.commit_edit("<srcins=99>", "b\n\nc", true)),
        "if x:\n    a\n    b\n\n    c\n"
    );
    let mut p = open_file("/root/a.py", "");
    assert_eq!(content_of(p.insert_text(3, "a")), "a");
}

#[test]
fn insertions_are_recorded() {
    let mut p = open_file("/root/a.txt", "a\nb");
    match p.insert_text(1, "x\ny") {
        Step::WriteFile { path, content, entry } => {
            assert_eq!(path, "/root/a.txt");
            assert_eq!(content, "a\nx\ny\nb");
            assert_eq!(
                entry,
                Some(TimelineEntry::ProviderOp {
                    provider_idx: 0,
                    command: "texteditor.insert_lines".to_owned(),
                    payload: leaf("<src=1>x\ny"),
                    label: "insert 2 lines at 2".to_owned(),
                })
            );
            assert!(p.edit_written(true, entry));
        }
        other => panic!("expected a write, got {other:?}"),
    }
    assert_eq!(p.take_timeline_entries().len(), 1);
    assert!(p.take_timeline_entries().is_empty());
    match p.insert_text(9, "z") {
        Step::WriteFile { entry: Some(TimelineEntry::ProviderOp { label, .. }), .. } => {
            assert_eq!(label, "insert line 5")
        }
        other => panic!("expected a write, got {other:?}"),
    }
}

#[test]
fn deletions_are_recorded() {
    let mut p = open_file("/root/a.txt", "a\n  b");
    match p.delete_item("<input><src=1>b</input>") {
        Step::WriteFile { content, entry, .. } => {
            assert_eq!(content, "a");
            assert_eq!(
                entry,
                Some(TimelineEntry::ProviderOp {
                    provider_idx: 0,
                    command: "texteditor.delete_line".to_owned(),
                    payload: leaf("<src=1>  b"),
                    label: "delete line 2".to_owned(),
                })
            );
        }
        other => panic!("expected a write, got {other:?}"),
    }
}

#[test]
fn a_trashed_item_is_recorded_as_a_section() {
    let mut p = TextEditorProvider::new("/root".to_owned());
    assert_eq!(
        p.delete_item("<dir><input>sub</input>"),
        Step::Trash { path: "/root/sub".to_owned(), name: "sub".to_owned() }
    );
    let record = FsSideEffect::TrashedDir {
        original_path: "/root/sub".to_owned(),
        content_tree: TrashedTree::Dir(vec![("a".to_owned(), TrashedTree::File(vec![1, 2]))]),
    };
    assert!(!p.item_trashed(false, "sub", FsSideEffect::Nothing));
    assert!(p.item_trashed(true, "sub", record));
    let entries = p.take_timeline_entries();
    assert_eq!(entries.len(), 1);
    match &entries[0] {
        TimelineEntry::FsOp { provider_idx, id, op, before, after, .. } => {
            assert_eq!((*provider_idx, id.len(), *op), (0, 0, FsOpKind::Delete));
            assert_eq!(*before, Some(branch("sub", vec![])));
            assert_eq!(*after, None);
        }
        other => panic!("expected FsOp, got {other:?}"),
    }
    p.set_current_path("/far/away");
    assert_eq!(p.undo(&entries[0], None), HistoryStep::Restore);
    assert_eq!(p.redo(&entries[0], None), HistoryStep::Trash { path: "/root/sub".to_owned() });
    assert_eq!(p.current_path(), "/far/away");
}

#[test]
fn steps_for_files_and_folders() {
    let p = TextEditorProvider::new("/root".to_owned());
    assert_eq!(
        p.rename_fs_item("<file><input>a.txt</input>", "b.txt/"),
        Step::Rename { from: "/root/a.txt".to_owned(), to: "/root/b.txt".to_owned() }
    );
    assert_eq!(
        p.rename_shown("a\\/", "b"),
        Step::Rename { from: "/root/a".to_owned(), to: "/root/b".to_owned() }
    );
    assert_eq!(p.rename_shown("a", "a"), Step::Done(false));
    assert_eq!(p.create_file("x", false), Step::CreateFile { path: "/root/x".to_owned() });
    assert_eq!(
        p.create_directory("y", false),
        Step::CreateDirectory { path: "/root/y".to_owned() }
    );
    assert_eq!(p.create_file("x", true), Step::Done(false));
    assert_eq!(p.delete_shown("/"), Step::Done(false));
}

// ---- undoing and redoing ------------------------------------------------------------

#[test]
fn payloads_are_read_as_fields_or_as_they_are() {
    assert_eq!(decode_line_payload(&leaf("<src=3>  x")), Some((3, "  x".to_owned())));
    assert_eq!(
        decode_line_payload(&branch("<input><src=3>x</input>", vec![])),
        Some((3, "x".to_owned()))
    );
    assert_eq!(
        decode_line_payload(&leaf("<src=3><input>y</input>")),
        Some((3, "<input>y</input>".to_owned()))
    );
    assert_eq!(decode_line_payload(&leaf("x")), None);
    assert_eq!(decode_line_payload(&leaf("<src=x>y")), None);
    assert_eq!(decode_line_payload(&leaf("<src=+7>")), Some((7, String::new())));
}

fn line_entry(command: &str, payload: &str) -> TimelineEntry {
    TimelineEntry::ProviderOp {
        provider_idx: 0,
        command: command.to_owned(),
        payload: leaf(payload),
        label: String::new(),
    }
}

fn history_content(step: HistoryStep) -> String {
    match step {
        HistoryStep::WriteFile { content, .. } => content,
        other => panic!("expected a write, got {other:?}"),
    }
}

#[test]
fn line_numbers_beyond_the_end_are_clamped() {
    let mut p = open_file("/root/a.txt", "a");
    let entry = line_entry("texteditor.delete_line", "<src=5>b");
    assert_eq!(history_content(p.undo(&entry, None)), "a\nb");
    let mut p = open_file("/root/a.txt", "a");
    assert_eq!(p.redo(&entry, None), HistoryStep::Nothing);
    let entry = line_entry("texteditor.insert_lines", "<src=0>a\nb\nc");
    assert_eq!(history_content(p.undo(&entry, None)), "");
    assert_eq!(history_content(p.redo(&entry, None)), "a\nb\nc");
}

#[test]
fn other_changes_are_left_alone() {
    let mut p = open_file("/root/a.txt", "a");
    for entry in [
        line_entry("texteditor.other", "<src=0>a"),
        line_entry("texteditor.delete_line", "no number"),
        line_entry("texteditor.insert_lines", "no number"),
        TimelineEntry::Other,
        TimelineEntry::FsOp {
            provider_idx: 0,
            id: vec![],
            op: FsOpKind::Rename,
            before: None,
            after: None,
            side_effect: FsSideEffect::Nothing,
        },
    ] {
        assert!(!p.needs_file(&entry));
        assert_eq!(p.undo(&entry, None), HistoryStep::Nothing);
        assert_eq!(p.redo(&entry, None), HistoryStep::Nothing);
    }
}

#[test]
fn a_redone_deletion_starts_from_where_the_item_stood() {
    let mut p = TextEditorProvider::new("/root".to_owned());
    let fs = |side_effect: FsSideEffect| TimelineEntry::FsOp {
        provider_idx: 0,
        id: vec![],
        op: FsOpKind::Delete,
        before: None,
        after: None,
        side_effect,
    };
    let moved = fs(FsSideEffect::RenameOnly { from: "/a".to_owned(), to: "/b".to_owned() });
    assert_eq!(p.redo(&moved, None), HistoryStep::Trash { path: "/a".to_owned() });
    let file = fs(FsSideEffect::TrashedFile {
        original_path: "/c".to_owned(),
        content_snapshot: vec![],
    });
    assert_eq!(p.redo(&file, None), HistoryStep::Trash { path: "/c".to_owned() });
    assert_eq!(p.redo(&fs(FsSideEffect::Nothing), None), HistoryStep::Nothing);
}

// ---- commands ---------------------------------------------------------------------------

#[test]
fn commands_make_empty_elements() {
    let p = TextEditorProvider::new("/root".to_owned());
    assert_eq!(p.commands(false), ["create directory", "create file"]);
    assert!(p.commands(true).is_empty());
    assert_eq!(p.handle_command("create directory"), Some(branch("<input></input>", vec![])));
    assert_eq!(p.handle_command("create file"), Some(leaf("<input></input>")));
    assert_eq!(p.handle_command("other"), None);
}

#[test]
fn the_editor_tells_what_it_is() {
    let p = TextEditorProvider::new("/root".to_owned());
    assert_eq!(p.name(), "texteditor");
    assert_eq!(p.display_name(), "text editor");
    assert!(p.stable_root_key() && p.path_is_filesystem() && p.has_editor_semantics());
    assert!(!p.is_in_file_view(false));
    assert!(p.is_in_file_view(true));
}
