use sicompass_sdk::placeholders::I_PLACEHOLDER;
use sicompass_sdk::tags;
use std::collections::{BTreeMap, BTreeSet};
use texteditor_plugin::editor::{
    trash_failure, FetchStep, HistoryStep, Step, TextEditorProvider,
};
use texteditor_plugin::ffon::FfonElement;
use texteditor_plugin::listing::list_directory;
use texteditor_plugin::timeline::{FsOpKind, FsSideEffect, TimelineEntry, TrashedTree};

// ---- an editor on a disk in memory ------------------------------------------

const ROOT: &str = "/tmp/work";

struct Host {
    files: BTreeMap<String, Vec<u8>>,
    dirs: BTreeSet<String>,
    writable: bool,
    editor: TextEditorProvider,
}

fn parent(path: &str) -> String {
    path[..path.rfind('/').unwrap_or(0)].to_owned()
}

fn base_name(path: &str) -> String {
    path[path.rfind('/').map(|i| i + 1).unwrap_or(0)..].to_owned()
}

fn at(name: &str) -> String {
    format!("{ROOT}/{name}")
}

impl Host {
    fn new() -> Host {
        let mut editor = TextEditorProvider::new("/home/user".to_owned());
        editor.on_setting_change("textEditorPath", ROOT);
        let mut dirs = BTreeSet::new();
        dirs.insert(ROOT.to_owned());
        Host { files: BTreeMap::new(), dirs, writable: true, editor }
    }

    fn with_file(name: &str, contents: &str) -> Host {
        let mut host = Host::new();
        host.put(&at(name), contents.as_bytes());
        host
    }

    fn put(&mut self, path: &str, contents: &[u8]) {
        self.files.insert(path.to_owned(), contents.to_vec());
    }

    fn put_dir(&mut self, path: &str) {
        self.dirs.insert(path.to_owned());
    }

    fn has(&self, path: &str) -> bool {
        self.files.contains_key(path) || self.dirs.contains(path)
    }

    fn text(&self, path: &str) -> Option<String> {
        let bytes = self.files.get(path)?;
        String::from_utf8(bytes.clone()).ok()
    }

    fn at_file(&self) -> bool {
        self.files.contains_key(self.editor.current_fs_path())
    }

    fn list(&self, dir: &str) -> Option<Vec<(bool, String)>> {
        if !self.dirs.contains(dir) {
            return None;
        }
        let mut out = Vec::new();
        for path in self.files.keys() {
            if parent(path) == dir {
                out.push((false, base_name(path)));
            }
        }
        for path in &self.dirs {
            if parent(path) == dir {
                out.push((true, base_name(path)));
            }
        }
        Some(out)
    }

    fn write(&mut self, path: &str, content: &str) -> bool {
        if !self.writable || self.dirs.contains(path) || !self.dirs.contains(&parent(path)) {
            return false;
        }
        self.put(path, content.as_bytes());
        true
    }

    fn tree(&self, dir: &str) -> TrashedTree {
        let mut out = Vec::new();
        for (is_dir, name) in self.list(dir).unwrap_or_default() {
            let path = format!("{dir}/{name}");
            let tree = if is_dir {
                self.tree(&path)
            } else {
                TrashedTree::File(self.files[&path].clone())
            };
            out.push((name, tree));
        }
        TrashedTree::Dir(out)
    }

    fn snapshot(&self, path: &str) -> FsSideEffect {
        if let Some(bytes) = self.files.get(path) {
            FsSideEffect::TrashedFile {
                original_path: path.to_owned(),
                content_snapshot: bytes.clone(),
            }
        } else if self.dirs.contains(path) {
            FsSideEffect::TrashedDir {
                original_path: path.to_owned(),
                content_tree: self.tree(path),
            }
        } else {
            FsSideEffect::Nothing
        }
    }

    fn trash(&mut self, path: &str) -> Result<(), String> {
        if !self.has(path) {
            return Err("nothing there".to_owned());
        }
        let below = format!("{path}/");
        self.files.retain(|p, _| p != path && !p.starts_with(&below));
        self.dirs.retain(|p| p != path && !p.starts_with(&below));
        Ok(())
    }

    fn restore_tree(&mut self, path: &str, tree: &TrashedTree) {
        match tree {
            TrashedTree::File(bytes) => self.put(path, bytes),
            TrashedTree::Dir(children) => {
                self.put_dir(path);
                for (name, child) in children {
                    self.restore_tree(&format!("{path}/{name}"), child);
                }
            }
        }
    }

    fn fetch(&mut self) -> Vec<FfonElement> {
        let at_file = self.at_file();
        match self.editor.fetch(at_file) {
            FetchStep::Show(list) => list,
            FetchStep::ReadFile { path } => {
                let text = self.text(&path);
                self.editor.fetch_file_content(text.as_deref())
            }
            FetchStep::ListDirectory { path } => list_directory(self.list(&path)),
        }
    }

    fn push_path(&mut self, segment: &str) {
        let at_file = self.at_file();
        if let Some(path) = self.editor.push_path(segment, at_file) {
            if self.has(&path) {
                self.editor.enter_path(path);
            }
        }
    }

    fn run(&mut self, step: Step) -> bool {
        match step {
            Step::Done(ok) => ok,
            Step::WriteFile { path, content, entry } => {
                let ok = self.write(&path, &content);
                self.editor.edit_written(ok, entry)
            }
            Step::CreateFile { path } => self.write(&path, ""),
            Step::CreateDirectory { path } => {
                if self.has(&path) || !self.dirs.contains(&parent(&path)) {
                    return false;
                }
                self.put_dir(&path);
                true
            }
            Step::Rename { from, to } => match self.files.remove(&from) {
                Some(bytes) => {
                    self.files.insert(to, bytes);
                    true
                }
                None => false,
            },
            Step::Trash { path, name } => {
                let side_effect = self.snapshot(&path);
                let ok = self.trash(&path).is_ok();
                self.editor.item_trashed(ok, &name, side_effect)
            }
        }
    }

    fn commit_edit(&mut self, old: &str, new: &str) -> bool {
        let at_file = self.at_file();
        let step = self.editor.commit_edit(old, new, at_file);
        self.run(step)
    }

    fn create_file(&mut self, name: &str) -> bool {
        let at_file = self.at_file();
        let step = self.editor.create_file(name, at_file);
        self.run(step)
    }

    fn create_directory(&mut self, name: &str) -> bool {
        let at_file = self.at_file();
        let step = self.editor.create_directory(name, at_file);
        self.run(step)
    }

    fn delete_item(&mut self, name: &str) -> bool {
        let step = self.editor.delete_item(name);
        self.run(step)
    }

    fn run_history(&mut self, step: HistoryStep, entry: &TimelineEntry, error: &mut String) {
        match step {
            HistoryStep::Nothing => {}
            HistoryStep::Restore => {
                if let TimelineEntry::FsOp { side_effect, .. } = entry {
                    match side_effect {
                        FsSideEffect::TrashedFile { original_path, content_snapshot } => {
                            self.put(original_path, content_snapshot)
                        }
                        FsSideEffect::TrashedDir { original_path, content_tree } => {
                            self.restore_tree(original_path, content_tree)
                        }
                        FsSideEffect::RenameOnly { .. } | FsSideEffect::Nothing => {
                            *error = "nothing to restore".to_owned()
                        }
                    }
                }
            }
            HistoryStep::Trash { path } => {
                if let Err(reason) = self.trash(&path) {
                    *error = trash_failure(&reason);
                }
            }
            HistoryStep::WriteFile { path, content, failure } => {
                let ok = self.write(&path, &content);
                if !self.editor.edit_written(ok, None) {
                    *error = failure;
                }
            }
        }
    }

    fn disk_for(&self, entry: &TimelineEntry) -> Option<String> {
        if self.editor.needs_file(entry) {
            self.text(self.editor.current_fs_path())
        } else {
            None
        }
    }

    fn undo(&mut self, entry: &TimelineEntry, error: &mut String) {
        let disk = self.disk_for(entry);
        let step = self.editor.undo(entry, disk.as_deref());
        self.run_history(step, entry, error);
    }

    fn redo(&mut self, entry: &TimelineEntry, error: &mut String) {
        let disk = self.disk_for(entry);
        let step = self.editor.redo(entry, disk.as_deref());
        self.run_history(step, entry, error);
    }
}

fn key(item: &FfonElement) -> &str {
    match item {
        FfonElement::Obj(o) => o.key.as_str(),
        FfonElement::Str(s) => s.as_str(),
    }
}

// ---- basic fetch / navigation ------------------------------------------------

#[test]
fn fetch_with_empty_path_returns_hint() {
    let p = TextEditorProvider::new(String::new());
    match p.fetch(false) {
        FetchStep::Show(items) => {
            assert_eq!(items.len(), 1);
            assert!(items[0].as_str().unwrap().contains("set text editor path"));
        }
        other => panic!("expected a hint, got {other:?}"),
    }
}

#[test]
fn on_setting_change_updates_text_editor_path() {
    let mut p = TextEditorProvider::new("/home/user".to_owned());
    p.on_setting_change("textEditorPath", "/tmp/test");
    assert_eq!(p.text_editor_path(), "/tmp/test");
    assert_eq!(p.current_fs_path(), "/tmp/test");
}

#[test]
fn on_setting_change_sets_refresh_pending() {
    let mut p = TextEditorProvider::new("/home/user".to_owned());
    assert!(!p.needs_refresh());
    p.on_setting_change("textEditorPath", "/tmp/newpath");
    assert!(p.needs_refresh(), "changing the path must set refresh_pending");
}

#[test]
fn on_setting_change_same_path_does_not_set_refresh() {
    let mut p = TextEditorProvider::new("/home/user".to_owned());
    let same = p.text_editor_path().to_owned();
    p.on_setting_change("textEditorPath", &same);
    assert!(!p.needs_refresh(), "same path must not trigger a refresh");
}

#[test]
fn clear_needs_refresh_clears_flag() {
    let mut p = TextEditorProvider::new("/home/user".to_owned());
    p.on_setting_change("textEditorPath", "/tmp/other");
    assert!(p.needs_refresh());
    p.clear_needs_refresh();
    assert!(!p.needs_refresh());
}

#[test]
fn on_setting_change_ignores_other_keys() {
    let mut p = TextEditorProvider::new("/home/user".to_owned());
    let original = p.text_editor_path().to_owned();
    p.on_setting_change("someOtherKey", "/etc");
    assert_eq!(p.text_editor_path(), original);
    assert!(!p.needs_refresh());
}

#[test]
fn current_path_includes_ffon_sub_path() {
    let mut p = Host::with_file("data.txt", "section:\n{\n  child\n}");
    p.push_path("data.txt");
    let path_at_file = p.editor.current_path().to_string();

    p.push_path("section:");
    let path_at_section = p.editor.current_path().to_string();

    assert_ne!(path_at_file, path_at_section);
    assert!(
        path_at_section.contains("section:"),
        "current_path should include the FFON segment, got: {}",
        path_at_section
    );

    p.editor.pop_path();
    assert_eq!(
        p.editor.current_path(),
        path_at_file,
        "popping the FFON segment must restore the file path"
    );
}

#[test]
fn push_pop_navigates_directories() {
    let mut p = Host::new();
    p.put_dir(&at("inner"));
    p.push_path("inner");
    assert!(p.editor.current_fs_path().ends_with("/inner"));
    p.editor.pop_path();
    assert_eq!(p.editor.current_fs_path(), ROOT);
}

#[test]
fn pop_path_cannot_go_above_root() {
    let mut p = Host::new();
    p.editor.pop_path();
    assert_eq!(p.editor.current_fs_path(), ROOT);
}

#[test]
fn fetch_lists_directory_entries_with_input_wrappers() {
    let mut p = Host::with_file("hello.txt", "hi");
    p.put_dir(&at("subdir"));
    let items = p.fetch();
    assert!(!items.is_empty());
    // All entries must be wrapped in <input>
    for item in &items {
        let key = key(item);
        if key == I_PLACEHOLDER {
            continue;
        }
        assert!(tags::has_input(key), "directory entry '{}' must be wrapped in <input>", key);
    }
    // File and directory names must appear somewhere
    let all_text: Vec<String> = items.iter().map(|e| key(e).to_owned()).collect();
    assert!(all_text.iter().any(|n| n.contains("hello.txt")));
    assert!(all_text.iter().any(|n| n.contains("subdir")));
}

#[test]
fn list_directory_tags_dirs_and_files() {
    let mut p = Host::with_file("hello.txt", "hi");
    p.put_dir(&at("subdir"));
    let items = p.fetch();

    let mut saw_dir = false;
    let mut saw_file = false;
    for item in &items {
        let key = key(item);
        if key == I_PLACEHOLDER {
            continue;
        }
        if key.contains("subdir") {
            assert!(tags::has_dir(key), "subdir entry must carry <dir>: {key}");
            assert!(!tags::has_file(key), "subdir entry must not carry <file>: {key}");
            saw_dir = true;
        }
        if key.contains("hello.txt") {
            assert!(tags::has_file(key), "hello.txt entry must carry <file>: {key}");
            assert!(!tags::has_dir(key), "hello.txt entry must not carry <dir>: {key}");
            saw_file = true;
        }
    }
    assert!(saw_dir && saw_file, "expected both dir and file entries");
}

#[test]
fn fetch_file_returns_annotated_content() {
    let mut p = Host::with_file("code.txt", "section:\n{\n  line1\n}\nplain");
    p.push_path("code.txt");
    let items = p.fetch();
    assert_eq!(items.len(), 2);
    assert!(items[0].is_obj());
    assert!(items[1].is_str());
    // All items must be <input>-wrapped and carry <src=N>
    for item in &items {
        let key = key(item);
        assert!(tags::has_input(key), "element must have <input> wrapper");
        let inner = tags::extract_input(key).unwrap();
        assert!(
            tags::extract_src(&inner).is_some(),
            "inner content must have <src=N>, got: {}",
            inner
        );
    }
}

#[test]
fn push_into_ffon_section_navigates_sub_path() {
    let mut p = Host::with_file("data.txt", "section:\n{\n  child\n}");
    p.push_path("data.txt");
    p.push_path("section:");
    let items = p.fetch();
    assert_eq!(items.len(), 1);
    // Child element must carry <src=N>
    let inner = tags::extract_input(items[0].as_str().unwrap()).unwrap();
    assert!(tags::extract_src(&inner).is_some());
}

#[test]
fn text_editor_provider_has_editor_semantics() {
    let p = TextEditorProvider::new("/home/user".to_owned());
    assert!(p.has_editor_semantics());
}

// ---- directory create / delete / rename ---------------------------------------

#[test]
fn create_file_creates_on_disk() {
    let mut p = Host::new();
    assert!(p.create_file("new.txt"));
    assert!(p.has(&at("new.txt")));
}

#[test]
fn create_directory_creates_on_disk() {
    let mut p = Host::new();
    assert!(p.create_directory("mydir"));
    assert!(p.dirs.contains(&at("mydir")));
}

#[test]
fn create_file_rejects_empty_name() {
    let mut p = Host::new();
    assert!(!p.create_file(""));
}

#[test]
fn create_directory_rejects_empty_name() {
    let mut p = Host::new();
    assert!(!p.create_directory(""));
}

#[test]
fn delete_item_moves_file_to_trash() {
    let mut p = Host::with_file("bye.txt", "");
    assert!(p.delete_item("<input>bye.txt</input>"));
    assert!(!p.has(&at("bye.txt")));
}

#[test]
fn commit_edit_renames_file() {
    let mut p = Host::with_file("old.txt", "");
    assert!(p.commit_edit("<input>old.txt</input>", "<input>new.txt</input>"));
    assert!(!p.has(&at("old.txt")));
    assert!(p.has(&at("new.txt")));
}

// ---- file content editing -------------------------------------------------------

#[test]
fn commit_edit_replaces_line_on_disk() {
    let mut p = Host::with_file("sample.txt", "alpha\nbeta\ngamma");
    p.push_path("sample.txt");
    p.fetch();

    let old = format!("<input>{}beta</input>", tags::format_src(1));
    let ok = p.commit_edit(&old, "BETA");
    assert!(ok);

    assert_eq!(p.text(&at("sample.txt")).unwrap(), "alpha\nBETA\ngamma");
}

#[test]
fn commit_edit_preserves_indentation() {
    let mut p = Host::with_file("py.py", "def foo():\n    pass\n");
    p.push_path("py.py");
    p.fetch();

    // Line 1 is "    pass" (4 spaces). Editing with stripped content "pass".
    let old = format!("<input>{}pass</input>", tags::format_src(1));
    let ok = p.commit_edit(&old, "return 1");
    assert!(ok);

    assert_eq!(p.text(&at("py.py")).unwrap(), "def foo():\n    return 1\n");
}

#[test]
fn commit_edit_insert_new_line() {
    let mut p = Host::with_file("sample.txt", "alpha\ngamma");
    p.push_path("sample.txt");
    p.fetch();

    // Insert before line 1 ("gamma")
    let old = format!("<input>{}</input>", tags::format_src_insert(1));
    let ok = p.commit_edit(&old, "beta");
    assert!(ok);

    assert_eq!(p.text(&at("sample.txt")).unwrap(), "alpha\nbeta\ngamma");
}

#[test]
fn commit_edit_undo_of_insert_deletes_line() {
    let mut p = Host::with_file("sample.txt", "alpha\nbeta\ngamma");
    p.push_path("sample.txt");
    p.fetch();

    // Undo of an insert at line 1: old = current line 1, new = srcins placeholder
    let old = format!("<input>{}beta</input>", tags::format_src(1));
    let new = format!("<input>{}</input>", tags::format_src_insert(1));
    let ok = p.commit_edit(&old, &new);
    assert!(ok);

    assert_eq!(p.text(&at("sample.txt")).unwrap(), "alpha\ngamma");
}

#[test]
fn delete_item_removes_source_line() {
    let mut p = Host::with_file("sample.txt", "alpha\nbeta\ngamma");
    p.push_path("sample.txt");
    p.fetch();

    // Delete line 1 ("beta")
    let name = format!("<input>{}beta</input>", tags::format_src(1));
    let ok = p.delete_item(&name);
    assert!(ok);

    assert_eq!(p.text(&at("sample.txt")).unwrap(), "alpha\ngamma");
}

#[test]
fn commit_edit_multiline_replace_writes_each_line_with_indent() {
    let mut p = Host::with_file("py.py", "def foo():\n    pass\n");
    p.push_path("py.py");
    p.fetch();

    // Replace line 1 ("    pass") with two lines.
    let old = format!("<input>{}pass</input>", tags::format_src(1));
    let ok = p.commit_edit(&old, "x = 1\ny = 2");
    assert!(ok);

    assert_eq!(p.text(&at("py.py")).unwrap(), "def foo():\n    x = 1\n    y = 2\n");
}

#[test]
fn commit_edit_after_multiline_replace_keeps_subsequent_edits_aligned() {
    let mut p = Host::with_file("sample.txt", "alpha\nbeta\ngamma\n");
    p.push_path("sample.txt");
    p.fetch();

    // Replace line 1 ("beta") with two lines.
    let old = format!("<input>{}beta</input>", tags::format_src(1));
    assert!(p.commit_edit(&old, "b1\nb2"));

    // After re-parsing, "gamma" is now at src=3. Editing it must succeed.
    let old_gamma = format!("<input>{}gamma</input>", tags::format_src(3));
    assert!(p.commit_edit(&old_gamma, "GAMMA"));

    assert_eq!(p.text(&at("sample.txt")).unwrap(), "alpha\nb1\nb2\nGAMMA\n");
}

#[test]
fn commit_edit_insert_empty_line() {
    let mut p = Host::with_file("sample.txt", "alpha\ngamma\n");
    p.push_path("sample.txt");
    p.fetch();

    let old = format!("<input>{}</input>", tags::format_src_insert(1));
    assert!(p.commit_edit(&old, ""));

    assert_eq!(p.text(&at("sample.txt")).unwrap(), "alpha\n\ngamma\n");
}

#[test]
fn commit_edit_insert_multiline() {
    let mut p = Host::with_file("py.py", "def foo():\n    pass\n");
    p.push_path("py.py");
    p.fetch();

    let old = format!("<input>{}</input>", tags::format_src_insert(1));
    assert!(p.commit_edit(&old, "a = 1\nb = 2\nc = 3"));

    assert_eq!(
        p.text(&at("py.py")).unwrap(),
        "def foo():\n    a = 1\n    b = 2\n    c = 3\n    pass\n"
    );
}

#[test]
fn commit_edit_writes_first_line_to_empty_file() {
    let mut p = Host::with_file("new.txt", "");
    p.push_path("new.txt");
    p.fetch();

    assert!(p.commit_edit("", "hello"));

    assert_eq!(p.text(&at("new.txt")).unwrap(), "hello");
}

#[test]
fn commit_edit_writes_multiline_to_empty_file() {
    let mut p = Host::with_file("new.txt", "");
    p.push_path("new.txt");
    p.fetch();

    assert!(p.commit_edit("", "first\n\nthird"));

    assert_eq!(p.text(&at("new.txt")).unwrap(), "first\n\nthird");
}

#[test]
fn commit_edit_after_first_write_can_edit_following_lines() {
    let mut p = Host::with_file("new.txt", "");
    p.push_path("new.txt");
    p.fetch();

    assert!(p.commit_edit("", "first\nsecond"));

    // After the placeholder commit the file has two lines (src=0,1).
    let old = format!("<input>{}second</input>", tags::format_src(1));
    assert!(p.commit_edit(&old, "SECOND"));

    assert_eq!(p.text(&at("new.txt")).unwrap(), "first\nSECOND");
}

#[test]
fn commit_edit_replace_with_empty_string_blanks_line() {
    let mut p = Host::with_file("sample.txt", "alpha\nbeta\ngamma\n");
    p.push_path("sample.txt");
    p.fetch();

    let old = format!("<input>{}beta</input>", tags::format_src(1));
    assert!(p.commit_edit(&old, ""));

    assert_eq!(p.text(&at("sample.txt")).unwrap(), "alpha\n\ngamma\n");
}

// ---- delete timeline emission + undo/redo -----------------------------------------

#[test]
fn delete_item_emits_fsop_with_file_snapshot() {
    let mut p = Host::with_file("doomed.txt", "important content");

    assert!(p.delete_item("<input>doomed.txt</input>"));
    assert!(!p.has(&at("doomed.txt")));

    let entries = p.editor.take_timeline_entries();
    assert_eq!(entries.len(), 1);
    match &entries[0] {
        TimelineEntry::FsOp { op, side_effect, before, .. } => {
            assert_eq!(*op, FsOpKind::Delete);
            // The text editor lists files as navigable `Obj`s, so the
            // restore element must be an `Obj` (not a bare `Str`).
            assert!(matches!(before, Some(FfonElement::Obj(_))));
            match side_effect {
                FsSideEffect::TrashedFile { content_snapshot, .. } => {
                    assert_eq!(content_snapshot, b"important content");
                }
                other => panic!("expected TrashedFile, got {other:?}"),
            }
        }
        other => panic!("expected FsOp, got {other:?}"),
    }
}

#[test]
fn delete_item_emits_fsop_with_dir_snapshot() {
    let mut p = Host::new();
    p.put_dir(&at("doomed_dir"));
    p.put(&at("doomed_dir/inner.txt"), b"nested");

    assert!(p.delete_item("<input>doomed_dir</input>"));
    assert!(!p.has(&at("doomed_dir")));

    let entries = p.editor.take_timeline_entries();
    assert_eq!(entries.len(), 1);
    match &entries[0] {
        TimelineEntry::FsOp { op, side_effect, before, .. } => {
            assert_eq!(*op, FsOpKind::Delete);
            assert!(matches!(before, Some(FfonElement::Obj(_))));
            assert!(matches!(side_effect, FsSideEffect::TrashedDir { .. }));
        }
        other => panic!("expected FsOp, got {other:?}"),
    }
}

#[test]
fn undo_fsop_delete_restores_file() {
    let mut p = Host::with_file("doomed.txt", "restore me");

    assert!(p.delete_item("<input>doomed.txt</input>"));
    assert!(!p.has(&at("doomed.txt")));

    let entries = p.editor.take_timeline_entries();
    let mut err = String::new();
    p.undo(&entries[0], &mut err);
    assert!(err.is_empty(), "undo error: {err}");
    assert_eq!(p.files[&at("doomed.txt")], b"restore me");
}

#[test]
fn undo_fsop_delete_restores_directory_tree() {
    let mut p = Host::new();
    p.put_dir(&at("a"));
    p.put(&at("a/inner.txt"), b"nested");
    p.put_dir(&at("a/sub"));
    p.put(&at("a/sub/deep.txt"), b"deeper");

    assert!(p.delete_item("<input>a</input>"));
    assert!(!p.has(&at("a")));
    assert!(!p.has(&at("a/sub/deep.txt")));

    let entries = p.editor.take_timeline_entries();
    let mut err = String::new();
    p.undo(&entries[0], &mut err);
    assert!(err.is_empty(), "undo error: {err}");
    assert!(p.dirs.contains(&at("a")));
    assert_eq!(p.files[&at("a/inner.txt")], b"nested");
    assert_eq!(p.files[&at("a/sub/deep.txt")], b"deeper");
}

#[test]
fn redo_fsop_delete_removes_file_again() {
    let mut p = Host::with_file("doomed.txt", "x");

    assert!(p.delete_item("<input>doomed.txt</input>"));
    let entries = p.editor.take_timeline_entries();
    let mut err = String::new();
    p.undo(&entries[0], &mut err);
    assert!(p.has(&at("doomed.txt")));
    p.redo(&entries[0], &mut err);
    assert!(err.is_empty(), "redo error: {err}");
    assert!(!p.has(&at("doomed.txt")), "redo deletes the file again");
}

#[test]
fn delete_item_line_emits_provider_op() {
    let mut p = Host::with_file("sample.txt", "alpha\nbeta\ngamma");
    p.push_path("sample.txt");
    p.fetch();

    let name = format!("<input>{}beta</input>", tags::format_src(1));
    assert!(p.delete_item(&name));
    assert_eq!(p.text(&at("sample.txt")).unwrap(), "alpha\ngamma");

    let entries = p.editor.take_timeline_entries();
    assert_eq!(entries.len(), 1);
    match &entries[0] {
        TimelineEntry::ProviderOp { command, .. } => {
            assert_eq!(command, "texteditor.delete_line");
        }
        other => panic!("expected ProviderOp, got {other:?}"),
    }
}

#[test]
fn undo_line_delete_restores_line_verbatim() {
    // The deleted line carries indentation — undo must restore it exactly,
    // without routing through commit_edit (which re-applies indent).
    let mut p = Host::with_file("py.py", "def foo():\n    pass\n    return 1\n");
    p.push_path("py.py");
    p.fetch();

    // Delete line 1 ("    pass").
    let name = format!("<input>{}pass</input>", tags::format_src(1));
    assert!(p.delete_item(&name));
    assert_eq!(p.text(&at("py.py")).unwrap(), "def foo():\n    return 1\n");

    let entries = p.editor.take_timeline_entries();
    let mut err = String::new();
    p.undo(&entries[0], &mut err);
    assert!(err.is_empty(), "undo error: {err}");
    assert_eq!(p.text(&at("py.py")).unwrap(), "def foo():\n    pass\n    return 1\n");
}

#[test]
fn redo_line_delete_removes_line_again() {
    let mut p = Host::with_file("sample.txt", "alpha\nbeta\ngamma");
    p.push_path("sample.txt");
    p.fetch();

    let name = format!("<input>{}beta</input>", tags::format_src(1));
    assert!(p.delete_item(&name));
    let entries = p.editor.take_timeline_entries();
    let mut err = String::new();
    p.undo(&entries[0], &mut err);
    assert_eq!(p.text(&at("sample.txt")).unwrap(), "alpha\nbeta\ngamma");
    p.redo(&entries[0], &mut err);
    assert!(err.is_empty(), "redo error: {err}");
    assert_eq!(p.text(&at("sample.txt")).unwrap(), "alpha\ngamma");
}

#[test]
fn line_delete_undo_redo_round_trip() {
    let mut p = Host::with_file("sample.txt", "a\nb\nc");
    p.push_path("sample.txt");
    p.fetch();

    let name = format!("<input>{}b</input>", tags::format_src(1));
    assert!(p.delete_item(&name));
    assert_eq!(p.text(&at("sample.txt")).unwrap(), "a\nc");

    let entries = p.editor.take_timeline_entries();
    let mut err = String::new();
    p.undo(&entries[0], &mut err);
    assert_eq!(p.text(&at("sample.txt")).unwrap(), "a\nb\nc");
    p.redo(&entries[0], &mut err);
    assert_eq!(p.text(&at("sample.txt")).unwrap(), "a\nc");
    p.undo(&entries[0], &mut err);
    assert_eq!(p.text(&at("sample.txt")).unwrap(), "a\nb\nc");
    assert!(err.is_empty(), "undo/redo error: {err}");
}

// ---- line-insert timeline emission + undo/redo ---------------------------------------

#[test]
fn commit_edit_insert_emits_provider_op() {
    let mut p = Host::with_file("sample.txt", "alpha\ngamma");
    p.push_path("sample.txt");
    p.fetch();

    let old = format!("<input>{}</input>", tags::format_src_insert(1));
    assert!(p.commit_edit(&old, "beta"));
    assert_eq!(p.text(&at("sample.txt")).unwrap(), "alpha\nbeta\ngamma");

    let entries = p.editor.take_timeline_entries();
    assert_eq!(entries.len(), 1);
    match &entries[0] {
        TimelineEntry::ProviderOp { command, .. } => {
            assert_eq!(command, "texteditor.insert_lines");
        }
        other => panic!("expected ProviderOp, got {other:?}"),
    }
}

#[test]
fn undo_line_insert_removes_line() {
    let mut p = Host::with_file("sample.txt", "alpha\ngamma");
    p.push_path("sample.txt");
    p.fetch();

    let old = format!("<input>{}</input>", tags::format_src_insert(1));
    assert!(p.commit_edit(&old, "beta"));
    let entries = p.editor.take_timeline_entries();
    let mut err = String::new();
    p.undo(&entries[0], &mut err);
    assert!(err.is_empty(), "undo error: {err}");
    assert_eq!(p.text(&at("sample.txt")).unwrap(), "alpha\ngamma");
}

#[test]
fn redo_line_insert_re_adds_line() {
    let mut p = Host::with_file("sample.txt", "alpha\ngamma");
    p.push_path("sample.txt");
    p.fetch();

    let old = format!("<input>{}</input>", tags::format_src_insert(1));
    assert!(p.commit_edit(&old, "beta"));
    let entries = p.editor.take_timeline_entries();
    let mut err = String::new();
    p.undo(&entries[0], &mut err);
    assert_eq!(p.text(&at("sample.txt")).unwrap(), "alpha\ngamma");
    p.redo(&entries[0], &mut err);
    assert!(err.is_empty(), "redo error: {err}");
    assert_eq!(p.text(&at("sample.txt")).unwrap(), "alpha\nbeta\ngamma");
}

#[test]
fn line_insert_undo_redo_multiline() {
    let mut p = Host::with_file("sample.txt", "alpha\ngamma");
    p.push_path("sample.txt");
    p.fetch();

    let old = format!("<input>{}</input>", tags::format_src_insert(1));
    assert!(p.commit_edit(&old, "b1\nb2"));
    assert_eq!(p.text(&at("sample.txt")).unwrap(), "alpha\nb1\nb2\ngamma");

    let entries = p.editor.take_timeline_entries();
    let mut err = String::new();
    p.undo(&entries[0], &mut err);
    assert_eq!(p.text(&at("sample.txt")).unwrap(), "alpha\ngamma");
    p.redo(&entries[0], &mut err);
    assert_eq!(p.text(&at("sample.txt")).unwrap(), "alpha\nb1\nb2\ngamma");
    assert!(err.is_empty(), "undo/redo error: {err}");
}

#[test]
fn insert_blank_line_undo_redo() {
    // Inserting with no text inserts one blank line; undo/redo must treat the
    // empty payload as exactly one line.
    let mut p = Host::with_file("sample.txt", "alpha\ngamma\n");
    p.push_path("sample.txt");
    p.fetch();

    let old = format!("<input>{}</input>", tags::format_src_insert(1));
    assert!(p.commit_edit(&old, ""));
    assert_eq!(p.text(&at("sample.txt")).unwrap(), "alpha\n\ngamma\n");

    let entries = p.editor.take_timeline_entries();
    let mut err = String::new();
    p.undo(&entries[0], &mut err);
    assert_eq!(p.text(&at("sample.txt")).unwrap(), "alpha\ngamma\n");
    p.redo(&entries[0], &mut err);
    assert_eq!(p.text(&at("sample.txt")).unwrap(), "alpha\n\ngamma\n");
    assert!(err.is_empty(), "undo/redo error: {err}");
}

#[test]
fn commit_edit_first_line_of_empty_file_emits_provider_op() {
    let mut p = Host::with_file("new.txt", "");
    p.push_path("new.txt");
    p.fetch();

    assert!(p.commit_edit("", "hello"));
    assert_eq!(p.text(&at("new.txt")).unwrap(), "hello");

    let entries = p.editor.take_timeline_entries();
    assert_eq!(entries.len(), 1);
    match &entries[0] {
        TimelineEntry::ProviderOp { command, .. } => {
            assert_eq!(command, "texteditor.insert_lines");
        }
        other => panic!("expected ProviderOp, got {other:?}"),
    }
}

#[test]
fn first_line_write_undo_redo() {
    let mut p = Host::with_file("new.txt", "");
    p.push_path("new.txt");
    p.fetch();

    assert!(p.commit_edit("", "hello"));
    let entries = p.editor.take_timeline_entries();
    let mut err = String::new();
    p.undo(&entries[0], &mut err);
    assert!(err.is_empty(), "undo error: {err}");
    assert_eq!(p.text(&at("new.txt")).unwrap(), "");
    p.redo(&entries[0], &mut err);
    assert!(err.is_empty(), "redo error: {err}");
    assert_eq!(p.text(&at("new.txt")).unwrap(), "hello");
}

// ---- undoing after the file was left ----------------------------------------------------

#[test]
fn undo_after_leaving_the_file_reads_it_again() {
    let mut p = Host::with_file("sample.txt", "a\n  b\nc\n");
    p.push_path("<file><input>sample.txt</input>");
    p.fetch();
    let name = format!("<input>{}b</input>", tags::format_src(1));
    assert!(p.delete_item(&name));
    let entries = p.editor.take_timeline_entries();
    p.editor.pop_path();
    p.push_path("sample.txt");

    assert!(p.editor.needs_file(&entries[0]));
    let mut err = String::new();
    p.undo(&entries[0], &mut err);
    assert!(err.is_empty(), "undo error: {err}");
    assert_eq!(p.text(&at("sample.txt")).unwrap(), "a\n  b\nc\n");
    assert!(!p.editor.needs_file(&entries[0]));
    p.redo(&entries[0], &mut err);
    assert_eq!(p.text(&at("sample.txt")).unwrap(), "a\nc\n");
}

#[test]
fn undo_of_insert_after_leaving_the_file() {
    let mut p = Host::with_file("sample.txt", "a\nc\n");
    p.push_path("sample.txt");
    p.fetch();
    assert!(p.commit_edit("<srcins=1>", "b1\n\nb2"));
    assert_eq!(p.text(&at("sample.txt")).unwrap(), "a\nb1\n\nb2\nc\n");
    let entries = p.editor.take_timeline_entries();
    p.editor.set_current_path("/elsewhere");
    p.editor.set_current_path(&at("sample.txt"));
    let mut err = String::new();
    p.undo(&entries[0], &mut err);
    assert_eq!(p.text(&at("sample.txt")).unwrap(), "a\nc\n");
    p.editor.set_current_path(&at("sample.txt"));
    p.redo(&entries[0], &mut err);
    assert_eq!(p.text(&at("sample.txt")).unwrap(), "a\nb1\n\nb2\nc\n");
    assert!(err.is_empty(), "undo/redo error: {err}");
}

#[test]
fn appended_text_undo_redo() {
    let mut p = Host::with_file("sample.txt", "a\n");
    p.push_path("sample.txt");
    p.fetch();
    assert!(p.commit_edit("", "b\nc"));
    assert_eq!(p.text(&at("sample.txt")).unwrap(), "a\nb\nc\n");
    let entries = p.editor.take_timeline_entries();
    let mut err = String::new();
    p.undo(&entries[0], &mut err);
    assert_eq!(p.text(&at("sample.txt")).unwrap(), "a\n");
    p.redo(&entries[0], &mut err);
    assert_eq!(p.text(&at("sample.txt")).unwrap(), "a\nb\nc\n");
    assert!(err.is_empty(), "undo/redo error: {err}");
}

#[test]
fn replaced_line_comes_back() {
    let mut p = Host::with_file("sample.rs", "fn f() {\n    one();\n}\n");
    p.push_path("sample.rs");
    p.fetch();
    let one = format!("<input>{}one();</input>", tags::format_src(1));
    let two = format!("<input>{}two();</input>", tags::format_src(1));
    assert!(p.commit_edit(&one, &two));
    assert_eq!(p.text(&at("sample.rs")).unwrap(), "fn f() {\n    two();\n}\n");
    assert!(p.commit_edit(&two, &one));
    assert_eq!(p.text(&at("sample.rs")).unwrap(), "fn f() {\n    one();\n}\n");
}

#[test]
fn inserted_line_taken_back_by_an_edit() {
    let mut p = Host::with_file("sample.txt", "a\nc");
    p.push_path("sample.txt");
    p.fetch();
    assert!(p.commit_edit("<input><srcins=1></input>", "b"));
    assert_eq!(p.text(&at("sample.txt")).unwrap(), "a\nb\nc");
    assert!(p.commit_edit("<input><src=1>b</input>", "<input><srcins=1></input>"));
    assert_eq!(p.text(&at("sample.txt")).unwrap(), "a\nc");
}

// ---- the end of the file ---------------------------------------------------------------

#[test]
fn a_blank_last_line_outlives_the_next_edit() {
    let mut p = Host::with_file("sample.txt", "alpha");
    p.push_path("sample.txt");
    p.fetch();
    assert!(p.commit_edit("<input><srcins=1></input>", ""));
    assert_eq!(p.text(&at("sample.txt")).unwrap(), "alpha\n");
    assert!(p.commit_edit("<input><src=0>alpha</input>", "ALPHA"));
    assert_eq!(p.text(&at("sample.txt")).unwrap(), "ALPHA\n");

    let entries = p.editor.take_timeline_entries();
    assert_eq!(entries.len(), 1);
    let mut err = String::new();
    p.undo(&entries[0], &mut err);
    assert_eq!(p.text(&at("sample.txt")).unwrap(), "ALPHA");
    p.redo(&entries[0], &mut err);
    assert_eq!(p.text(&at("sample.txt")).unwrap(), "ALPHA\n");
    assert!(err.is_empty(), "undo/redo error: {err}");
}

#[test]
fn undo_gives_the_only_line_back() {
    let mut p = Host::with_file("sample.txt", "a\n");
    p.push_path("sample.txt");
    p.fetch();
    assert!(p.delete_item("<input><src=0>a</input>"));
    assert_eq!(p.text(&at("sample.txt")).unwrap(), "\n");
    let entries = p.editor.take_timeline_entries();
    let mut err = String::new();
    p.undo(&entries[0], &mut err);
    assert_eq!(p.text(&at("sample.txt")).unwrap(), "a\n");
    p.redo(&entries[0], &mut err);
    assert_eq!(p.text(&at("sample.txt")).unwrap(), "\n");
    assert!(p.delete_item("<src=0>"), "the one line of the file is empty");
    assert_eq!(p.text(&at("sample.txt")).unwrap(), "\n");
    let again = p.editor.take_timeline_entries();
    p.undo(&again[0], &mut err);
    assert_eq!(p.text(&at("sample.txt")).unwrap(), "\n");
    assert!(err.is_empty(), "undo/redo error: {err}");
}

#[test]
fn an_emptied_file_can_be_written_again() {
    let mut p = Host::with_file("sample.txt", "a\n");
    p.push_path("sample.txt");
    p.fetch();
    assert!(p.delete_item("<src=0>a"));
    assert!(p.commit_edit("<src=0>", "b"));
    assert_eq!(p.text(&at("sample.txt")).unwrap(), "b\n");
}

#[test]
fn undo_gives_the_last_line_back_behind_a_blank_one() {
    let mut p = Host::with_file("sample.txt", "alpha\n\nbeta");
    p.push_path("sample.txt");
    p.fetch();
    assert!(p.delete_item("<input><src=2>beta</input>"));
    assert_eq!(p.text(&at("sample.txt")).unwrap(), "alpha\n");
    let entries = p.editor.take_timeline_entries();
    let mut err = String::new();
    p.undo(&entries[0], &mut err);
    assert_eq!(p.text(&at("sample.txt")).unwrap(), "alpha\n\nbeta");
    p.redo(&entries[0], &mut err);
    assert_eq!(p.text(&at("sample.txt")).unwrap(), "alpha\n");
    assert!(err.is_empty(), "undo/redo error: {err}");
}

#[test]
fn a_line_with_a_field_of_its_own_comes_back() {
    let mut p = Host::with_file("page.html", "x\n<input>y</input>\n");
    p.push_path("page.html");
    p.fetch();
    assert!(p.delete_item("<input><src=1><input>y</input></input>"));
    assert!(p.commit_edit("<srcins=0>", "z"));
    let entries = p.editor.take_timeline_entries();
    let mut err = String::new();
    p.undo(&entries[1], &mut err);
    assert_eq!(p.text(&at("page.html")).unwrap(), "x\n");
    p.undo(&entries[0], &mut err);
    assert_eq!(p.text(&at("page.html")).unwrap(), "x\n<input>y</input>\n");
    assert!(err.is_empty(), "undo error: {err}");
}

#[test]
fn a_typed_carriage_return_is_part_of_the_line_ending() {
    let mut p = Host::with_file("sample.txt", "a\nb");
    p.push_path("sample.txt");
    p.fetch();
    assert!(p.commit_edit("<src=0>a", "x\r"));
    assert_eq!(p.text(&at("sample.txt")).unwrap(), "x\r\nb");
    assert!(p.commit_edit("<src=1>b", "c"));
    assert_eq!(p.text(&at("sample.txt")).unwrap(), "x\nc");
}

#[test]
fn text_typed_into_an_emptied_file_follows_its_newline() {
    let mut p = Host::with_file("sample.txt", "a\n");
    p.push_path("sample.txt");
    p.fetch();
    assert!(p.delete_item("<src=0>a"));
    assert_eq!(p.text(&at("sample.txt")).unwrap(), "\n");
    assert!(p.commit_edit("", "x"));
    assert_eq!(p.text(&at("sample.txt")).unwrap(), "\nx\n");
    let entries = p.editor.take_timeline_entries();
    let mut err = String::new();
    p.undo(&entries[1], &mut err);
    assert_eq!(p.text(&at("sample.txt")).unwrap(), "\n");
    p.redo(&entries[1], &mut err);
    assert_eq!(p.text(&at("sample.txt")).unwrap(), "\nx\n");
    assert!(err.is_empty(), "undo/redo error: {err}");
}

#[test]
fn an_empty_line_in_an_empty_file_leaves_it_empty() {
    let mut p = Host::with_file("new.txt", "");
    p.push_path("new.txt");
    p.fetch();
    assert!(p.commit_edit("<srcins=0>", ""));
    assert_eq!(p.text(&at("new.txt")).unwrap(), "");
    assert!(p.commit_edit("", "x"));
    assert_eq!(p.text(&at("new.txt")).unwrap(), "x");
    let entries = p.editor.take_timeline_entries();
    let mut err = String::new();
    p.undo(&entries[1], &mut err);
    assert_eq!(p.text(&at("new.txt")).unwrap(), "");
    p.redo(&entries[1], &mut err);
    assert_eq!(p.text(&at("new.txt")).unwrap(), "x");
    assert!(err.is_empty(), "undo/redo error: {err}");
}

#[test]
fn the_next_edit_starts_from_the_file() {
    // After the blank line the file is "alpha\n", and each edit does to it what it
    // does to such a file that was just opened.
    let edits: [(&str, &str, &str); 5] = [
        ("<src=0>alpha", "ALPHA", "ALPHA\n"),
        ("<srcins=0>", "x", "x\nalpha\n"),
        ("<srcins=1>", "x", "alpha\nx\n"),
        ("<srcins=2>", "x", "alpha\nx\n"),
        ("", "x", "alpha\nx\n"),
    ];
    for (old, new, expected) in edits {
        let mut p = Host::with_file("sample.txt", "alpha");
        p.push_path("sample.txt");
        p.fetch();
        assert!(p.commit_edit("<srcins=1>", ""));
        assert_eq!(p.text(&at("sample.txt")).unwrap(), "alpha\n");
        p.editor.take_timeline_entries();
        assert!(p.commit_edit(old, new));
        assert_eq!(p.text(&at("sample.txt")).unwrap(), expected);
        let mut err = String::new();
        for entry in &p.editor.take_timeline_entries() {
            p.undo(entry, &mut err);
            assert_eq!(p.text(&at("sample.txt")).unwrap(), "alpha\n");
            p.redo(entry, &mut err);
            assert_eq!(p.text(&at("sample.txt")).unwrap(), expected);
        }
        assert!(err.is_empty(), "undo/redo error: {err}");

        let mut fresh = Host::with_file("sample.txt", "alpha\n");
        fresh.push_path("sample.txt");
        fresh.fetch();
        assert!(fresh.commit_edit(old, new));
        assert_eq!(fresh.text(&at("sample.txt")).unwrap(), expected);
    }
}

#[test]
fn the_only_line_comes_back_in_front_of_a_blank_one() {
    let mut p = Host::with_file("sample.txt", "alpha");
    p.push_path("sample.txt");
    p.fetch();
    assert!(p.commit_edit("<srcins=1>", ""));
    assert!(p.delete_item("<src=0>alpha"));
    assert_eq!(p.text(&at("sample.txt")).unwrap(), "");
    let entries = p.editor.take_timeline_entries();
    let mut err = String::new();
    p.undo(&entries[1], &mut err);
    assert_eq!(p.text(&at("sample.txt")).unwrap(), "alpha\n");
    p.undo(&entries[0], &mut err);
    assert_eq!(p.text(&at("sample.txt")).unwrap(), "alpha");
    assert!(err.is_empty(), "undo error: {err}");
}

// ---- failures ------------------------------------------------------------------------------

#[test]
fn a_failed_write_fails_the_edit_and_records_nothing() {
    let mut p = Host::with_file("sample.txt", "a\nb");
    p.push_path("sample.txt");
    p.fetch();
    p.writable = false;
    assert!(!p.commit_edit("<src=0>a", "x"));
    assert!(!p.commit_edit("<srcins=0>", "x"));
    assert!(!p.delete_item("<src=0>a"));
    assert!(p.editor.take_timeline_entries().is_empty());
    assert_eq!(p.text(&at("sample.txt")).unwrap(), "a\nb");
}

#[test]
fn failed_writes_of_undo_and_redo_are_reported() {
    let mut p = Host::with_file("sample.txt", "a\nb\nc");
    p.push_path("sample.txt");
    p.fetch();
    assert!(p.delete_item("<src=0>a"));
    assert!(p.commit_edit("<srcins=0>", "x"));
    let entries = p.editor.take_timeline_entries();
    assert_eq!(entries.len(), 2);
    p.writable = false;
    let mut err = String::new();
    p.undo(&entries[0], &mut err);
    assert_eq!(err, "undo delete line: failed to write file");
    p.redo(&entries[0], &mut err);
    assert_eq!(err, "redo delete line: failed to write file");
    p.undo(&entries[1], &mut err);
    assert_eq!(err, "undo insert line: failed to write file");
    p.redo(&entries[1], &mut err);
    assert_eq!(err, "redo insert line: failed to write file");
}

#[test]
fn a_failed_trash_fails_the_deletion() {
    let mut p = Host::new();
    assert!(!p.delete_item("<file><input>missing.txt</input>"));
    assert!(p.editor.take_timeline_entries().is_empty());
    assert!(!p.delete_item("<input>/</input>"));
}

#[test]
fn a_failed_trash_on_redo_is_reported() {
    let mut p = Host::with_file("doomed.txt", "x");
    assert!(p.delete_item("doomed.txt"));
    let entries = p.editor.take_timeline_entries();
    let mut err = String::new();
    p.redo(&entries[0], &mut err);
    assert_eq!(err, "redo delete: trash failed: nothing there");
}

#[test]
fn an_unreadable_file_is_shown_as_such() {
    let mut p = Host::new();
    p.put(&at("image.bin"), &[0xff, 0xfe, 0x00]);
    p.push_path("image.bin");
    let items = p.fetch();
    assert_eq!(items.len(), 1);
    assert_eq!(items[0].as_str(), Some("(binary or unreadable file)"));
}

#[test]
fn a_missing_entry_is_not_entered() {
    let mut p = Host::new();
    p.push_path("nothing");
    assert_eq!(p.editor.current_path(), ROOT);
}

#[test]
fn no_file_is_created_inside_a_file() {
    let mut p = Host::with_file("a.txt", "x");
    p.push_path("a.txt");
    assert!(!p.create_file("b.txt"));
    assert!(!p.create_directory("d"));
    assert!(p.editor.commands(true).is_empty());
}

#[test]
fn a_placeholder_makes_files_and_folders() {
    let mut p = Host::new();
    assert!(p.commit_edit("<input></input>", "<input>notes.txt</input>"));
    assert!(p.commit_edit("", "src:"));
    assert_eq!(p.text(&at("notes.txt")).unwrap(), "");
    assert!(p.dirs.contains(&at("src")));
    assert!(!p.commit_edit("", ":"), "a folder needs a name");
}

#[test]
fn renames_without_a_new_name_are_refused() {
    let mut p = Host::with_file("a.txt", "");
    assert!(!p.commit_edit("<input>a.txt</input>", "<input>a.txt</input>"));
    assert!(!p.commit_edit("<input>a.txt</input>", "<input></input>"));
    assert!(p.commit_edit("<dir><input>a.txt/</input>", "<dir><input>b.txt/</input>"));
    assert!(p.has(&at("b.txt")));
}
