//! The editor.
//!
//! [`TextEditorProvider`] walks the folders below its start folder and, inside
//! a file, the sections of its element tree. Every element that comes from a
//! file carries the number of its source line, so that an edit goes back to
//! exactly that line.
//!
//! No method touches the disk. What a method has to know of it comes in as an
//! argument, and what is to be done comes out as a step for the caller to carry
//! out; the outcome is reported to the method that the step names.

use vstd::prelude::*;

use crate::ffon::{
    copy_elements, lemma_nodes_push, node, nodes, wrap_ffon_in_input, FfonElement, Node,
};
use crate::line_laws::lemma_joined_blank;
use crate::parse::{navigate_path, parse_file_ext, path_read};
use crate::paths::{equal_paths, extension_of, join_path, parent_of};
use crate::settings::saved_start_folder;
use crate::state::{
    at_start, bare_name, base, candidate, changed, committed, committed_as, configured, content,
    deleted, directory_created, ensured, entered, file_created, file_view, forgotten, in_file,
    indent_at, is_line_entry, item_created, item_deleted, item_renamed, left_to,
    lemma_saved_is_proper, lemma_whole_content, line_deleted, line_replaced, lines_inserted, moved,
    optional_text, popped, proper, pushed, read, redone, restarted, rewritten, saved, screen_of,
    setting_changed, shown_path, spliced, started, text_appended, text_inserted, trashed, undone,
    whole, written, Editor, Ending, HistoryRequest, Request, Screen,
};
use crate::tags::{
    display_text, extract_src, extract_src_insert, inner, inner_text, reads, src_tag, strip_display,
};
use crate::text::{
    build_indented_lines, concat, ends_with, join, leading_whitespace, lemma_texts_push, same,
    split_lines, split_newlines, texts, trim, trim_end_matches, trimmed,
};
use crate::timeline::{
    decode_line_payload, delete_line_entry, entries, entry_of, insert_lines_entry,
    lemma_commands_differ, lemma_entries_push, path_of, trashed_entry, Entry, FsOpKind,
    FsSideEffect, TimelineEntry,
};

verus! {

/// What the caller has to do to finish an action.
#[derive(Debug, PartialEq)]
pub enum Step {
    /// Nothing: the action is over, and this tells whether it succeeded.
    Done(bool),
    /// Write `content` to the file at `path`, and report the outcome and
    /// `entry` to [`TextEditorProvider::edit_written`].
    WriteFile { path: String, content: String, entry: Option<TimelineEntry> },
    /// Create an empty file at `path`. The action succeeds if that does.
    CreateFile { path: String },
    /// Create a folder at `path`. The action succeeds if that does.
    CreateDirectory { path: String },
    /// Move what is at `from` to `to`. The action succeeds if that does.
    Rename { from: String, to: String },
    /// Record what is at `path`, move it to the trash, and report the outcome,
    /// `name` and the record to [`TextEditorProvider::item_trashed`].
    Trash { path: String, name: String },
}

/// What the caller has to do to undo or redo a change.
#[derive(Debug, PartialEq)]
pub enum HistoryStep {
    /// Nothing.
    Nothing,
    /// Bring back the file or folder that the entry's side effect records.
    Restore,
    /// Move what is at `path` to the trash. When that fails, the error is
    /// [`trash_failure`].
    Trash { path: String },
    /// Write `content` to the file at `path`, and report the outcome, without
    /// an entry, to [`TextEditorProvider::edit_written`]. When the write
    /// fails, the error is `failure`.
    WriteFile { path: String, content: String, failure: String },
}

/// What the caller has to do to show where the user is.
#[derive(Debug, PartialEq)]
pub enum FetchStep {
    /// Show these elements.
    Show(Vec<FfonElement>),
    /// Read the file at `path`, and show what
    /// [`TextEditorProvider::fetch_file_content`] makes of it.
    ReadFile { path: String },
    /// Read the folder at `path`, and show what [`crate::listing::list_directory`]
    /// makes of it.
    ListDirectory { path: String },
}

/// An entry that may be absent.
pub open spec fn optional_entry(e: Option<TimelineEntry>) -> Option<Entry> {
    match e {
        Some(e) => Some(entry_of(e)),
        None => None,
    }
}

/// What `step` asks for.
pub open spec fn request(step: Step) -> Request {
    match step {
        Step::Done(ok) => Request::Done(ok),
        Step::WriteFile { path, content, entry } => Request::Write {
            path: path@,
            content: content@,
            entry: optional_entry(entry),
        },
        Step::CreateFile { path } => Request::CreateFile { path: path@ },
        Step::CreateDirectory { path } => Request::CreateDirectory { path: path@ },
        Step::Rename { from, to } => Request::Rename { from: from@, to: to@ },
        Step::Trash { path, name } => Request::Trash { path: path@, name: name@ },
    }
}

/// What `step` asks for.
pub open spec fn history_request(step: HistoryStep) -> HistoryRequest {
    match step {
        HistoryStep::Nothing => HistoryRequest::Nothing,
        HistoryStep::Restore => HistoryRequest::Restore,
        HistoryStep::Trash { path } => HistoryRequest::Trash { path: path@ },
        HistoryStep::WriteFile { path, content, failure } => HistoryRequest::Write {
            path: path@,
            content: content@,
            failure: failure@,
        },
    }
}

/// What `step` shows or asks for.
pub open spec fn screen(step: FetchStep) -> Screen {
    match step {
        FetchStep::Show(list) => Screen::Show(nodes(list@)),
        FetchStep::ReadFile { path } => Screen::ReadFile { path: path@ },
        FetchStep::ListDirectory { path } => Screen::ListDirectory { path: path@ },
    }
}

/// The lines of `lines` from `from` up to `to` give way to `new_lines`.
fn splice(lines: &mut Vec<String>, from: usize, to: usize, new_lines: Vec<String>)
    requires
        from <= to <= old(lines)@.len(),
    ensures
        texts(final(lines)@) == spliced(
            texts(old(lines)@),
            from as int,
            to as int,
            texts(new_lines@),
        ),
{
    let ghost before = lines@;
    let mut new_lines = new_lines;
    let ghost put = new_lines@;
    let mut rest = lines.split_off(to);
    lines.truncate(from);
    lines.append(&mut new_lines);
    lines.append(&mut rest);
    proof {
        assert(lines@ =~= before.take(from as int) + put + before.skip(to as int));
        assert(texts(lines@) =~= spliced(texts(before), from as int, to as int, texts(put)));
    }
}

/// The error of a redo that could not move the item to the trash.
pub fn trash_failure(reason: &str) -> (r: String)
    ensures
        r@ == "redo delete: trash failed: "@ + reason@,
{
    concat("redo delete: trash failed: ", reason)
}

/// The user's home folder, from the environment variables `HOME` and
/// `USERPROFILE`; empty when neither is set.
pub fn home_dir(home: Option<String>, profile: Option<String>) -> (r: String)
    ensures
        r@ == match home {
            Some(path) => path@,
            None => match profile {
                Some(path) => path@,
                None => Seq::empty(),
            },
        },
{
    match home {
        Some(path) => path,
        None => match profile {
            Some(path) => path,
            None => String::new(),
        },
    }
}

/// The text editor.
pub struct TextEditorProvider {
    /// The start folder.
    text_editor_path: String,
    /// The folder or file that is open.
    current_fs_path: String,
    /// The sections that are open within the file.
    ffon_sub_path: Vec<String>,
    /// Whether the start folder has changed since it was last shown.
    refresh_pending: bool,
    /// The path that the user sees.
    current_path_str: String,
    /// The lines of the open file, with their indentation.
    source_lines: Vec<String>,
    /// How the file was last written, where its lines do not tell.
    ending: Ending,
    /// The open file as it is shown.
    cached_ffon: Vec<FfonElement>,
    /// The file that the lines and the tree were read from.
    loaded_path: Option<String>,
    /// Whether a newline is written behind the last line.
    trailing_newline: bool,
    /// The changes that were made and not yet handed out.
    pending_timeline_entries: Vec<TimelineEntry>,
}

impl View for TextEditorProvider {
    type V = Editor;

    closed spec fn view(&self) -> Editor {
        Editor {
            root: self.text_editor_path@,
            path: self.current_fs_path@,
            sub: texts(self.ffon_sub_path@),
            refresh: self.refresh_pending,
            lines: texts(self.source_lines@),
            ending: self.ending,
            tree: nodes(self.cached_ffon@),
            loaded: self.loaded_path is Some,
            trailing: self.trailing_newline,
            entries: entries(self.pending_timeline_entries@),
        }
    }
}

impl TextEditorProvider {
    /// The path that the user sees is that of the open folder or file and the
    /// open sections, a file that was read is the one that is open, and what is
    /// known of how it was written fits its lines.
    pub closed spec fn wf(&self) -> bool {
        &&& self.current_path_str@ == shown_path(self@)
        &&& (self.loaded_path matches Some(path) ==> path@ == self.current_fs_path@)
        &&& proper(self@)
    }

    // -----------------------------------------------------------------------
    // Moving about
    // -----------------------------------------------------------------------

    /// An editor that starts in the folder `home`.
    pub fn new(home: String) -> (r: TextEditorProvider)
        ensures
            r.wf(),
            r@ == started(home@),
    {
        let current_fs_path = home.clone();
        let current_path_str = home.clone();
        let r = TextEditorProvider {
            text_editor_path: home,
            current_fs_path,
            ffon_sub_path: Vec::new(),
            refresh_pending: false,
            current_path_str,
            source_lines: Vec::new(),
            ending: Ending::Plain,
            cached_ffon: Vec::new(),
            loaded_path: None,
            trailing_newline: false,
            pending_timeline_entries: Vec::new(),
        };
        assert(r@ =~= started(home@));
        r
    }

    fn sync_path_str(&mut self)
        requires
            old(self).loaded_path matches Some(path) ==> path@ == old(self).current_fs_path@,
            proper(old(self)@),
        ensures
            final(self).wf(),
            final(self)@ == old(self)@,
    {
        self.current_path_str = if self.ffon_sub_path.len() == 0 {
            self.current_fs_path.clone()
        } else {
            let base = concat(self.current_fs_path.as_str(), "/");
            concat(base.as_str(), join(&self.ffon_sub_path, '/').as_str())
        };
    }

    fn forget(&mut self)
        ensures
            final(self)@ == forgotten(old(self)@),
            final(self).loaded_path is None,
    {
        self.loaded_path = None;
        self.source_lines.clear();
        self.ending = Ending::Plain;
        self.cached_ffon.clear();
        assert(self@ =~= forgotten(old(self)@));
    }

    /// Puts the editor at `path`, whatever stands there.
    pub fn set_current_path(&mut self, path: &str)
        requires
            old(self).wf(),
        ensures
            final(self).wf(),
            final(self)@ == moved(old(self)@, path@),
    {
        self.forget();
        self.current_fs_path = path.to_owned();
        self.ffon_sub_path.clear();
        assert(self@ =~= moved(old(self)@, path@));
        self.sync_path_str();
    }

    /// Goes into the folder or file at `path`, which exists.
    pub fn enter_path(&mut self, path: String)
        requires
            old(self).wf(),
        ensures
            final(self).wf(),
            final(self)@ == entered(old(self)@, path@),
    {
        self.forget();
        self.current_fs_path = path;
        self.sync_path_str();
    }

    /// Goes into what is seen as `shown`; see [`TextEditorProvider::push_path`].
    pub fn push_shown(&mut self, shown: &str, at_file: bool) -> (r: Option<String>)
        requires
            old(self).wf(),
        ensures
            final(self).wf(),
            final(self)@ == pushed(old(self)@, shown@, at_file),
            match r {
                Some(path) => candidate(old(self)@, shown@, at_file) == Some(path@),
                None => candidate(old(self)@, shown@, at_file) is None,
            },
    {
        let clean = trim_end_matches(shown, '/');
        if at_file {
            let ghost before = self.ffon_sub_path@;
            self.ffon_sub_path.push(clean);
            proof {
                lemma_texts_push(before, clean);
            }
            assert(self@ =~= pushed(old(self)@, shown@, at_file));
            self.sync_path_str();
            None
        } else {
            Some(join_path(self.current_fs_path.as_str(), clean.as_str()))
        }
    }

    /// Goes into the element `segment`. In a file, where `at_file` holds, that
    /// is a section. In a folder it is a file or folder: the result is its path,
    /// and if something exists there, [`TextEditorProvider::enter_path`] is to
    /// be called with it.
    ///
    /// A name in which no tag is opened is taken as it stands, but for its escapes,
    /// in every form in which the editor shows it.
    pub fn push_path(&mut self, segment: &str, at_file: bool) -> (r: Option<String>)
        requires
            old(self).wf(),
        ensures
            final(self).wf(),
            final(self)@ == pushed(old(self)@, display_text(segment@), at_file),
            match r {
                Some(path) => candidate(old(self)@, display_text(segment@), at_file) == Some(path@),
                None => candidate(old(self)@, display_text(segment@), at_file) is None,
            },
            forall|name: Seq<char>|
                #[trigger] reads(segment@, name) ==> display_text(segment@) == name,
    {
        let shown = strip_display(segment);
        self.push_shown(shown.as_str(), at_file)
    }

    /// Goes one level up; see [`TextEditorProvider::pop_path`].
    pub fn leave_to(&mut self, at_start: bool, parent: Option<String>)
        requires
            old(self).wf(),
        ensures
            final(self).wf(),
            final(self)@ == left_to(
                old(self)@,
                at_start,
                match parent {
                    Some(path) => Some(path@),
                    None => None,
                },
            ),
    {
        if self.ffon_sub_path.len() > 0 {
            let ghost before = self.ffon_sub_path@;
            self.ffon_sub_path.pop();
            assert(self.ffon_sub_path@ =~= before.drop_last());
            assert(texts(self.ffon_sub_path@) =~= texts(before).drop_last());
        } else if !at_start {
            self.forget();
            match parent {
                Some(path) => {
                    self.current_fs_path = path;
                },
                None => {},
            }
        }
        self.sync_path_str();
    }

    /// Goes one level up: out of the innermost section that is open, or out of
    /// the file or folder, but not above the start folder.
    pub fn pop_path(&mut self)
        requires
            old(self).wf(),
        ensures
            final(self).wf(),
            final(self)@ == popped(old(self)@),
            old(self)@.sub.len() == 0 && old(self)@.path == old(self)@.root ==> final(self)@ == old(
                self,
            )@,
    {
        let at_start = equal_paths(self.current_fs_path.as_str(), self.text_editor_path.as_str());
        let parent = parent_of(self.current_fs_path.as_str());
        self.leave_to(at_start, parent)
    }

    /// The path that the user sees.
    pub fn current_path(&self) -> (r: &str)
        requires
            self.wf(),
        ensures
            r@ == shown_path(self@),
    {
        self.current_path_str.as_str()
    }

    /// The start folder.
    pub fn text_editor_path(&self) -> (r: &str)
        ensures
            r@ == self@.root,
    {
        self.text_editor_path.as_str()
    }

    /// The folder or file that is open.
    pub fn current_fs_path(&self) -> (r: &str)
        ensures
            r@ == self@.path,
    {
        self.current_fs_path.as_str()
    }

    /// Whether the user is in the start folder.
    pub fn at_root(&self) -> (r: bool)
        ensures
            r == at_start(self@),
            self@.path == self@.root && self@.sub.len() == 0 ==> r,
    {
        equal_paths(self.current_fs_path.as_str(), self.text_editor_path.as_str())
            && self.ffon_sub_path.len() == 0
    }

    /// Whether the user is inside a file; `at_file` tells whether a file stands
    /// at the open path.
    pub fn is_in_file_view(&self, at_file: bool) -> (r: bool)
        ensures
            r == in_file(self@, at_file),
    {
        at_file || self.ffon_sub_path.len() > 0
    }

    // -----------------------------------------------------------------------
    // Showing
    // -----------------------------------------------------------------------

    /// Whether the lines and the tree were read from the open file.
    fn is_loaded(&self) -> (r: bool)
        requires
            self.wf(),
        ensures
            r == self@.loaded,
    {
        match &self.loaded_path {
            Some(path) => equal_paths(path.as_str(), self.current_fs_path.as_str()),
            None => false,
        }
    }

    /// Reads the open file; `disk` is its text, where it can be read. The result
    /// tells whether it could.
    pub fn load_file(&mut self, disk: Option<&str>) -> (r: bool)
        requires
            old(self).wf(),
        ensures
            final(self).wf(),
            r == (disk is Some),
            final(self)@ == match disk {
                Some(contents) => read(old(self)@, contents@),
                None => old(self)@,
            },
    {
        let contents = match disk {
            Some(contents) => contents,
            None => {
                return false;
            },
        };
        let ext = extension_of(self.current_fs_path.as_str());
        self.trailing_newline = ends_with(contents, '\n');
        self.source_lines = split_lines(contents);
        self.ending = Ending::Plain;
        let tree = parse_file_ext(contents, ext.as_str());
        self.cached_ffon = wrap_ffon_in_input(&tree);
        self.loaded_path = Some(self.current_fs_path.clone());
        assert(self@ =~= read(old(self)@, contents@));
        true
    }

    fn ensure_file_loaded(&mut self, disk: Option<&str>)
        requires
            old(self).wf(),
        ensures
            final(self).wf(),
            final(self)@ == ensured(old(self)@, optional_text(disk)),
    {
        if !self.is_loaded() {
            self.load_file(disk);
        }
    }

    /// What the user sees inside the open file; `disk` is its text, where it can
    /// be read. A file that was read before is not read again.
    pub fn fetch_file_content(&mut self, disk: Option<&str>) -> (r: Vec<FfonElement>)
        requires
            old(self).wf(),
        ensures
            final(self).wf(),
            final(self)@ == ensured(old(self)@, optional_text(disk)),
            nodes(r@) == file_view(old(self)@, optional_text(disk)),
            old(self)@.loaded || disk is Some ==> path_read(final(self)@.tree, old(self)@.sub),
    {
        if !self.is_loaded() {
            if !self.load_file(disk) {
                return single(FfonElement::new_str("(binary or unreadable file)".to_owned()));
            }
        }
        copy_elements(navigate_path(self.cached_ffon.as_slice(), self.ffon_sub_path.as_slice()))
    }

    /// What the user sees, or what the caller has to read first; `at_file` tells
    /// whether a file stands at the open path.
    pub fn fetch(&self, at_file: bool) -> (r: FetchStep)
        requires
            self.wf(),
        ensures
            screen(r) == screen_of(self@, at_file),
            trimmed(self@.root).len() > 0 && in_file(self@, at_file) && self@.loaded ==> path_read(
                self@.tree,
                self@.sub,
            ),
    {
        if trim(self.text_editor_path.as_str()).as_str().is_empty() {
            FetchStep::Show(
                single(FfonElement::new_str("set text editor path in settings".to_owned())),
            )
        } else if !self.is_in_file_view(at_file) {
            FetchStep::ListDirectory { path: self.current_fs_path.clone() }
        } else if self.is_loaded() {
            FetchStep::Show(
                copy_elements(
                    navigate_path(self.cached_ffon.as_slice(), self.ffon_sub_path.as_slice()),
                ),
            )
        } else {
            FetchStep::ReadFile { path: self.current_fs_path.clone() }
        }
    }

    // -----------------------------------------------------------------------
    // Editing
    // -----------------------------------------------------------------------

    /// What the open file is to hold.
    fn file_content(&self) -> (r: String)
        ensures
            r@ == content(self@),
    {
        let mut content = join(&self.source_lines, '\n');
        let blank = self.ending == Ending::Blank && self.source_lines.len() > 0;
        if blank {
            content.push('\n');
        }
        proof {
            if blank {
                lemma_joined_blank(self@.lines);
            }
        }
        if self.trailing_newline {
            content.push('\n');
        }
        content
    }

    /// Takes note of an attempt to write the open file: if it was `written`,
    /// the lines and the tree become those of what was written, so that each
    /// line has its own place. The result tells whether it was.
    fn flush_source_lines(&mut self, written: bool) -> (r: bool)
        requires
            old(self).wf(),
        ensures
            final(self).wf(),
            r == written,
            final(self)@ == if written {
                saved(old(self)@)
            } else {
                old(self)@
            },
    {
        if !written {
            return false;
        }
        let content = self.file_content();
        let ext = extension_of(self.current_fs_path.as_str());
        let any: bool = match self.ending {
            Ending::Plain => self.source_lines.len() > 0,
            Ending::Blank => true,
            Ending::Emptied => false,
        };
        proof {
            lemma_whole_content(self@);
        }
        self.ending = if self.trailing_newline {
            if any {
                Ending::Plain
            } else {
                Ending::Emptied
            }
        } else if any && (content.as_str().is_empty() || ends_with(content.as_str(), '\n')) {
            Ending::Blank
        } else {
            Ending::Plain
        };
        self.source_lines = split_lines(content.as_str());
        let tree = parse_file_ext(content.as_str(), ext.as_str());
        self.cached_ffon = wrap_ffon_in_input(&tree);
        assert(self@ =~= saved(old(self)@));
        proof {
            lemma_saved_is_proper(old(self)@);
        }
        true
    }

    /// Takes note of an attempt to write the open file, as a
    /// [`Step::WriteFile`] or a [`HistoryStep::WriteFile`] asks; `entry` is the
    /// entry of the former. The result tells whether the action succeeded.
    pub fn edit_written(&mut self, written: bool, entry: Option<TimelineEntry>) -> (r: bool)
        requires
            old(self).wf(),
        ensures
            final(self).wf(),
            r == written,
            final(self)@ == crate::state::written(old(self)@, written, optional_entry(entry)),
    {
        if !self.flush_source_lines(written) {
            return false;
        }
        match entry {
            Some(entry) => {
                let ghost before = self.pending_timeline_entries@;
                self.pending_timeline_entries.push(entry);
                proof {
                    lemma_entries_push(before, entry);
                }
            },
            None => {},
        }
        assert(self@ =~= crate::state::written(old(self)@, written, optional_entry(entry)));
        true
    }

    /// The lines that an edit starts from, from `from` up to `to`, give way to
    /// `new_lines`.
    fn edit_lines(&mut self, from: usize, to: usize, new_lines: Vec<String>)
        requires
            old(self).wf(),
            from <= to <= old(self)@.lines.len(),
        ensures
            final(self).wf(),
            final(self)@ == changed(
                old(self)@,
                spliced(base(old(self)@), from as int, to as int, texts(new_lines@)),
            ),
    {
        let ghost before = self.source_lines@;
        if self.ending == Ending::Blank && self.source_lines.len() > 0 {
            let blank = String::new();
            self.source_lines.push(blank);
            proof {
                lemma_texts_push(before, blank);
            }
        }
        splice(&mut self.source_lines, from, to, new_lines);
        self.ending = Ending::Plain;
    }

    /// The lines that the file was last written with, from `at` on, give way to
    /// `new_lines`: `count` of them, or those of them that are there.
    fn rewrite_lines(&mut self, at: usize, count: usize, new_lines: Vec<String>)
        requires
            old(self).wf(),
        ensures
            final(self).wf(),
            final(self)@ == changed(
                old(self)@,
                rewritten(whole(old(self)@), at as nat, count as nat, texts(new_lines@)),
            ),
    {
        let ghost before = self.source_lines@;
        match self.ending {
            Ending::Plain => {},
            Ending::Blank => {
                let blank = String::new();
                self.source_lines.push(blank);
                proof {
                    lemma_texts_push(before, blank);
                }
            },
            Ending::Emptied => {
                self.source_lines.clear();
                assert(texts(self.source_lines@) =~= Seq::empty());
            },
        }
        let all: usize = self.source_lines.len();
        let from: usize = if at < all {
            at
        } else {
            all
        };
        let to: usize = if count < all - from {
            from + count
        } else {
            all
        };
        splice(&mut self.source_lines, from, to, new_lines);
        self.ending = Ending::Plain;
    }

    fn write_step(&self, entry: Option<TimelineEntry>) -> (r: Step)
        ensures
            request(r) == (Request::Write {
                path: self@.path,
                content: content(self@),
                entry: optional_entry(entry),
            }),
    {
        Step::WriteFile {
            path: self.current_fs_path.clone(),
            content: self.file_content(),
            entry,
        }
    }

    /// Replaces line `line_idx` by what the user typed: `new` is the text of the
    /// edited field, and `typed` what the user sees of it. Each line that was
    /// typed gets the indentation of the line that it replaces, but for empty
    /// ones. A field with a `<srcins=N>` takes the insertion of line `N` back.
    pub fn replace_line(&mut self, line_idx: usize, new: &str, typed: &str) -> (r: Step)
        requires
            old(self).wf(),
        ensures
            final(self).wf(),
            (final(self)@, request(r)) == line_replaced(
                old(self)@,
                line_idx as nat,
                new@,
                typed@,
            ),
    {
        if line_idx >= self.source_lines.len() {
            return Step::Done(false);
        }
        if let Some(del_idx) = extract_src_insert(new) {
            if del_idx < self.source_lines.len() {
                self.remove_line(del_idx);
                return self.write_step(None);
            }
            return Step::Done(false);
        }
        let ghost line = self@.lines[line_idx as int];
        let indent = leading_whitespace(self.source_lines[line_idx].as_str());
        let new_lines = build_indented_lines(typed, indent.as_str());
        if new_lines.len() == 1 && same(
            self.source_lines[line_idx].as_str(),
            new_lines[0].as_str(),
        ) {
            assert(texts(new_lines@) =~= seq![line]);
            return Step::Done(true);
        }
        proof {
            if texts(new_lines@) == seq![line] {
                assert(texts(new_lines@).len() == 1);
                assert(texts(new_lines@)[0] == new_lines@[0]@);
            }
        }
        self.edit_lines(line_idx, line_idx + 1, new_lines);
        self.write_step(None)
    }

    fn insert_lines(&mut self, at: usize, new_lines: Vec<String>) -> (r: Step)
        requires
            old(self).wf(),
            at <= old(self)@.lines.len(),
        ensures
            final(self).wf(),
            (final(self)@, request(r)) == lines_inserted(
                old(self)@,
                at as nat,
                texts(new_lines@),
            ),
    {
        let entry = insert_lines_entry(at, &new_lines);
        self.edit_lines(at, at, new_lines);
        self.write_step(Some(entry))
    }

    /// Puts what the user typed, `typed`, in at line `insert_idx`, or behind the
    /// last line when there are fewer. Each line that was typed gets the
    /// indentation of the line it is put in front of, or of the last line, but
    /// for empty ones. Nothing typed is one empty line.
    pub fn insert_text(&mut self, insert_idx: usize, typed: &str) -> (r: Step)
        requires
            old(self).wf(),
        ensures
            final(self).wf(),
            (final(self)@, request(r)) == text_inserted(
                old(self)@,
                insert_idx as nat,
                typed@,
            ),
    {
        let count: usize = self.source_lines.len();
        let indent = if insert_idx < count {
            leading_whitespace(self.source_lines[insert_idx].as_str())
        } else if count > 0 {
            leading_whitespace(self.source_lines[count - 1].as_str())
        } else {
            String::new()
        };
        assert(indent@ == indent_at(self@.lines, insert_idx as nat));
        let new_lines = build_indented_lines(typed, indent.as_str());
        let at: usize = if insert_idx < count {
            insert_idx
        } else {
            count
        };
        self.insert_lines(at, new_lines)
    }

    /// Puts what the user typed, `typed`, behind the last line.
    pub fn append_text(&mut self, typed: &str) -> (r: Step)
        requires
            old(self).wf(),
        ensures
            final(self).wf(),
            (final(self)@, request(r)) == text_appended(old(self)@, typed@),
    {
        if typed.is_empty() {
            return Step::Done(false);
        }
        proof {
            reveal_strlit("");
            assert(""@ =~= Seq::empty());
        }
        let new_lines = build_indented_lines(typed, "");
        let at: usize = self.source_lines.len();
        self.insert_lines(at, new_lines)
    }

    /// Creates the file `name` in the open folder.
    pub fn create_file(&self, name: &str, at_file: bool) -> (r: Step)
        ensures
            request(r) == file_created(self@, name@, at_file),
    {
        if name.is_empty() || self.is_in_file_view(at_file) {
            return Step::Done(false);
        }
        Step::CreateFile { path: join_path(self.current_fs_path.as_str(), name) }
    }

    /// Creates the folder `name` in the open folder.
    pub fn create_directory(&self, name: &str, at_file: bool) -> (r: Step)
        ensures
            request(r) == directory_created(self@, name@, at_file),
    {
        if name.is_empty() || self.is_in_file_view(at_file) {
            return Step::Done(false);
        }
        Step::CreateDirectory { path: join_path(self.current_fs_path.as_str(), name) }
    }

    fn create_item(&self, typed: &str, at_file: bool) -> (r: Step)
        ensures
            request(r) == item_created(self@, typed@, at_file),
    {
        if ends_with(typed, ':') {
            let name = trim_end_matches(typed, ':');
            self.create_directory(name.as_str(), at_file)
        } else {
            self.create_file(typed, at_file)
        }
    }

    /// Renames the file or folder that is seen as `old_name` to `new_name`.
    pub fn rename_shown(&self, old_name: &str, new_name: &str) -> (r: Step)
        ensures
            request(r) == item_renamed(self@, old_name@, new_name@),
    {
        if old_name.is_empty() || new_name.is_empty() || same(old_name, new_name) {
            return Step::Done(false);
        }
        let from = bare(old_name);
        let to = bare(new_name);
        Step::Rename {
            from: join_path(self.current_fs_path.as_str(), from.as_str()),
            to: join_path(self.current_fs_path.as_str(), to.as_str()),
        }
    }

    /// Renames the file or folder of the element `old` to what `new` shows.
    pub fn rename_fs_item(&self, old: &str, new: &str) -> (r: Step)
        ensures
            request(r) == item_renamed(self@, display_text(old@), display_text(new@)),
            forall|name: Seq<char>| #[trigger] reads(old@, name) ==> display_text(old@) == name,
            forall|name: Seq<char>| #[trigger] reads(new@, name) ==> display_text(new@) == name,
    {
        let old_name = strip_display(old);
        let new_name = strip_display(new);
        self.rename_shown(old_name.as_str(), new_name.as_str())
    }

    /// Edits the element `from` to `to`; `at_file` tells whether a file stands at
    /// the open path.
    ///
    /// - An element with a `<src=N>` is a line: it is replaced.
    /// - One with a `<srcins=N>` is a line still to be inserted.
    /// - An empty one is new: inside a file it becomes the last lines, and in a
    ///   folder a file, or a folder when a colon ends its name.
    /// - Any other in a folder is a file or folder: it is renamed.
    ///
    /// Text in which no tag is opened is taken as it was typed, but for its escapes.
    pub fn commit_edit(&mut self, from: &str, to: &str, at_file: bool) -> (r: Step)
        requires
            old(self).wf(),
        ensures
            final(self).wf(),
            (final(self)@, request(r)) == committed(old(self)@, from@, to@, at_file),
            forall|typed: Seq<char>| #[trigger]
                reads(inner(to@), typed) ==> (final(self)@, request(r)) == committed_as(
                    old(self)@,
                    from@,
                    to@,
                    typed,
                    display_text(from@),
                    display_text(to@),
                    at_file,
                ),
            forall|old_name: Seq<char>, new_name: Seq<char>| #[trigger]
                reads(from@, old_name) && #[trigger] reads(to@, new_name) ==> (final(self)@, request(r))
                    == committed_as(
                    old(self)@,
                    from@,
                    to@,
                    display_text(inner(to@)),
                    old_name,
                    new_name,
                    at_file,
                ),
    {
        let old_inner = inner_text(from);
        let new_inner = inner_text(to);
        if let Some((line_idx, _)) = extract_src(old_inner.as_str()) {
            let typed = strip_display(new_inner.as_str());
            return self.replace_line(line_idx, new_inner.as_str(), typed.as_str());
        }
        if let Some(insert_idx) = extract_src_insert(old_inner.as_str()) {
            let typed = strip_display(new_inner.as_str());
            return self.insert_text(insert_idx, typed.as_str());
        }
        if old_inner.as_str().is_empty() && !new_inner.as_str().is_empty() {
            if self.is_in_file_view(at_file) {
                let typed = strip_display(new_inner.as_str());
                return self.append_text(typed.as_str());
            }
            return self.create_item(new_inner.as_str(), at_file);
        }
        if !self.is_in_file_view(at_file) {
            return self.rename_fs_item(from, to);
        }
        Step::Done(false)
    }

    fn remove_line(&mut self, i: usize)
        requires
            old(self).wf(),
            i < old(self)@.lines.len(),
        ensures
            final(self).wf(),
            final(self)@ == changed(old(self)@, base(old(self)@).remove(i as int)),
    {
        let count: usize = self.source_lines.len();
        assert(i < count);
        self.edit_lines(i, i + 1, no_texts());
        assert(self@.lines =~= base(old(self)@).remove(i as int));
    }

    /// Deletes line `line_idx`.
    fn delete_line(&mut self, line_idx: usize) -> (r: Step)
        requires
            old(self).wf(),
        ensures
            final(self).wf(),
            (final(self)@, request(r)) == line_deleted(old(self)@, line_idx as nat),
    {
        if line_idx >= self.source_lines.len() {
            return Step::Done(false);
        }
        let entry = delete_line_entry(line_idx, self.source_lines[line_idx].as_str());
        self.remove_line(line_idx);
        self.write_step(Some(entry))
    }

    /// Deletes the file or folder that is seen as `shown`.
    pub fn delete_shown(&self, shown: &str) -> (r: Step)
        ensures
            request(r) == item_deleted(self@, shown@),
    {
        let name = bare(shown);
        if name.as_str().is_empty() {
            return Step::Done(false);
        }
        let path = join_path(self.current_fs_path.as_str(), name.as_str());
        Step::Trash { path, name }
    }

    /// Deletes the element `name`: a line when it has a `<src=N>`, or else a file
    /// or folder.
    pub fn delete_item(&mut self, name: &str) -> (r: Step)
        requires
            old(self).wf(),
        ensures
            final(self).wf(),
            (final(self)@, request(r)) == deleted(old(self)@, name@),
            forall|shown: Seq<char>| #[trigger]
                reads(name@, shown) && src_tag(inner(name@)) is None ==> request(r)
                    == item_deleted(old(self)@, shown),
    {
        let text = inner_text(name);
        if let Some((line_idx, _)) = extract_src(text.as_str()) {
            return self.delete_line(line_idx);
        }
        let shown = strip_display(name);
        self.delete_shown(shown.as_str())
    }

    /// Takes note of an attempt to move the file or folder `name` to the trash,
    /// as a [`Step::Trash`] asks; `side_effect` records what was there. The
    /// result tells whether it was `trashed`.
    pub fn item_trashed(&mut self, trashed: bool, name: &str, side_effect: FsSideEffect) -> (r: bool)
        requires
            old(self).wf(),
        ensures
            final(self).wf(),
            r == trashed,
            final(self)@ == crate::state::trashed(old(self)@, trashed, name@, side_effect),
    {
        if !trashed {
            return false;
        }
        let entry = trashed_entry(name, side_effect);
        let ghost before = self.pending_timeline_entries@;
        self.pending_timeline_entries.push(entry);
        proof {
            lemma_entries_push(before, entry);
        }
        assert(self@ =~= crate::state::trashed(old(self)@, trashed, name@, side_effect));
        true
    }

    /// The changes that were made and not yet handed out, in the order in which
    /// they were made.
    pub fn take_timeline_entries(&mut self) -> (r: Vec<TimelineEntry>)
        requires
            old(self).wf(),
        ensures
            final(self).wf(),
            entries(r@) == old(self)@.entries,
            final(self)@ == (Editor { entries: Seq::empty(), ..old(self)@ }),
    {
        let mut taken: Vec<TimelineEntry> = Vec::new();
        std::mem::swap(&mut taken, &mut self.pending_timeline_entries);
        assert(self@ =~= (Editor { entries: Seq::empty(), ..old(self)@ }));
        taken
    }

    // -----------------------------------------------------------------------
    // Undoing and redoing
    // -----------------------------------------------------------------------

    fn rewrite_step(&self, failure: &str) -> (r: HistoryStep)
        ensures
            history_request(r) == (HistoryRequest::Write {
                path: self@.path,
                content: content(self@),
                failure: failure@,
            }),
    {
        HistoryStep::WriteFile {
            path: self.current_fs_path.clone(),
            content: self.file_content(),
            failure: failure.to_owned(),
        }
    }

    /// Whether undoing or redoing `entry` needs the text of the open file.
    pub fn needs_file(&self, entry: &TimelineEntry) -> (r: bool)
        requires
            self.wf(),
        ensures
            r == (!self@.loaded && is_line_entry(entry_of(*entry))),
    {
        if self.is_loaded() {
            return false;
        }
        match entry {
            TimelineEntry::ProviderOp { command, payload, .. } => {
                (same(command.as_str(), "texteditor.delete_line") || same(
                    command.as_str(),
                    "texteditor.insert_lines",
                )) && decode_line_payload(payload).is_some()
            },
            _ => false,
        }
    }

    /// Undoes the change `entry`: a deleted file or folder is brought back, a
    /// deleted line is put back as it was, and inserted lines are taken out.
    /// `disk` is the text of the open file, where it can be read; it matters
    /// only where [`TextEditorProvider::needs_file`] holds.
    pub fn undo(&mut self, entry: &TimelineEntry, disk: Option<&str>) -> (r: HistoryStep)
        requires
            old(self).wf(),
        ensures
            final(self).wf(),
            (final(self)@, history_request(r)) == undone(
                old(self)@,
                entry_of(*entry),
                optional_text(disk),
            ),
    {
        match entry {
            TimelineEntry::FsOp { op, .. } => if *op == FsOpKind::Delete {
                HistoryStep::Restore
            } else {
                HistoryStep::Nothing
            },
            TimelineEntry::ProviderOp { command, payload, .. } => if same(
                command.as_str(),
                "texteditor.delete_line",
            ) {
                proof {
                    lemma_commands_differ();
                }
                match decode_line_payload(payload) {
                    Some((idx, text)) => {
                        self.ensure_file_loaded(disk);
                        let back = one_text(text);
                        self.rewrite_lines(idx, 0, back);
                        self.rewrite_step("undo delete line: failed to write file")
                    },
                    None => HistoryStep::Nothing,
                }
            } else if same(command.as_str(), "texteditor.insert_lines") {
                match decode_line_payload(payload) {
                    Some((idx, text)) => {
                        let count: usize = split_newlines(text.as_str()).len();
                        self.ensure_file_loaded(disk);
                        self.rewrite_lines(idx, count, no_texts());
                        self.rewrite_step("undo insert line: failed to write file")
                    },
                    None => HistoryStep::Nothing,
                }
            } else {
                HistoryStep::Nothing
            },
            TimelineEntry::Other => HistoryStep::Nothing,
        }
    }

    /// Makes the change `entry` again: a deleted file or folder goes back to the
    /// trash from where it stood, a deleted line is removed again, and inserted
    /// lines are put in again. `disk` is as in [`TextEditorProvider::undo`].
    pub fn redo(&mut self, entry: &TimelineEntry, disk: Option<&str>) -> (r: HistoryStep)
        requires
            old(self).wf(),
        ensures
            final(self).wf(),
            (final(self)@, history_request(r)) == redone(
                old(self)@,
                entry_of(*entry),
                optional_text(disk),
            ),
    {
        match entry {
            TimelineEntry::FsOp { op, side_effect, .. } => if *op == FsOpKind::Delete {
                match path_of(side_effect) {
                    Some(path) => HistoryStep::Trash { path: path.clone() },
                    None => HistoryStep::Nothing,
                }
            } else {
                HistoryStep::Nothing
            },
            TimelineEntry::ProviderOp { command, payload, .. } => if same(
                command.as_str(),
                "texteditor.delete_line",
            ) {
                proof {
                    lemma_commands_differ();
                }
                match decode_line_payload(payload) {
                    Some((idx, _)) => {
                        self.ensure_file_loaded(disk);
                        if idx < self.source_lines.len() {
                            self.rewrite_lines(idx, 1, no_texts());
                            self.rewrite_step("redo delete line: failed to write file")
                        } else {
                            HistoryStep::Nothing
                        }
                    },
                    None => HistoryStep::Nothing,
                }
            } else if same(command.as_str(), "texteditor.insert_lines") {
                match decode_line_payload(payload) {
                    Some((idx, text)) => {
                        self.ensure_file_loaded(disk);
                        let lines = split_newlines(text.as_str());
                        self.rewrite_lines(idx, 0, lines);
                        self.rewrite_step("redo insert line: failed to write file")
                    },
                    None => HistoryStep::Nothing,
                }
            } else {
                HistoryStep::Nothing
            },
            TimelineEntry::Other => HistoryStep::Nothing,
        }
    }

    // -----------------------------------------------------------------------
    // Commands and settings
    // -----------------------------------------------------------------------

    /// The commands that can be given: none inside a file.
    pub fn commands(&self, at_file: bool) -> (r: Vec<String>)
        ensures
            texts(r@) == if in_file(self@, at_file) {
                Seq::empty()
            } else {
                seq!["create directory"@, "create file"@]
            },
    {
        let mut list: Vec<String> = Vec::new();
        if !self.is_in_file_view(at_file) {
            list.push("create directory".to_owned());
            list.push("create file".to_owned());
            assert(texts(list@) =~= seq!["create directory"@, "create file"@]);
        } else {
            assert(texts(list@) =~= Seq::empty());
        }
        list
    }

    /// The empty element that the command `cmd` starts with: a section for a new
    /// folder, a leaf for a new file.
    pub fn handle_command(&self, cmd: &str) -> (r: Option<FfonElement>)
        ensures
            match r {
                Some(e) => if cmd@ == "create directory"@ {
                    node(e) == Node::Branch("<input></input>"@, Seq::empty())
                } else {
                    cmd@ == "create file"@ && node(e) == Node::Leaf("<input></input>"@)
                },
                None => cmd@ != "create directory"@ && cmd@ != "create file"@,
            },
    {
        if same(cmd, "create directory") {
            Some(FfonElement::new_obj("<input></input>".to_owned()))
        } else if same(cmd, "create file") {
            Some(FfonElement::new_str("<input></input>".to_owned()))
        } else {
            None
        }
    }

    /// Starts again in the start folder, which is `saved` where that is given; see
    /// [`TextEditorProvider::init`].
    pub fn restart(&mut self, saved: Option<String>)
        requires
            old(self).wf(),
        ensures
            final(self).wf(),
            final(self)@ == restarted(
                old(self)@,
                match saved {
                    Some(path) => Some(path@),
                    None => None,
                },
            ),
    {
        match saved {
            Some(path) => {
                self.text_editor_path = path;
            },
            None => {},
        }
        self.forget();
        self.current_fs_path = self.text_editor_path.clone();
        self.ffon_sub_path.clear();
        self.refresh_pending = false;
        self.pending_timeline_entries.clear();
        assert(self@ =~= restarted(
            old(self)@,
            match saved {
                Some(path) => Some(path@),
                None => None,
            },
        ));
        self.sync_path_str();
    }

    /// Starts again in the start folder that the settings hold; `config` is the
    /// text of the settings file, where it can be read.
    pub fn init(&mut self, config: Option<&str>)
        requires
            old(self).wf(),
        ensures
            final(self).wf(),
            final(self)@ == configured(old(self)@, optional_text(config)),
    {
        let saved = match config {
            Some(data) => saved_start_folder(data),
            None => None,
        };
        self.restart(saved)
    }

    /// Takes note that the setting `key` now has the value `value`.
    pub fn on_setting_change(&mut self, key: &str, value: &str)
        requires
            old(self).wf(),
        ensures
            final(self).wf(),
            final(self)@ == setting_changed(old(self)@, key@, value@),
    {
        if same(key, "textEditorPath") && !same(value, self.text_editor_path.as_str()) {
            self.set_current_path(value);
            self.text_editor_path = value.to_owned();
            self.refresh_pending = true;
            assert(self@ =~= setting_changed(old(self)@, key@, value@));
        }
    }

    /// Whether the start folder has changed since it was last shown.
    pub fn needs_refresh(&self) -> (r: bool)
        ensures
            r == self@.refresh,
    {
        self.refresh_pending
    }

    /// Takes note that the start folder is shown.
    pub fn clear_needs_refresh(&mut self)
        requires
            old(self).wf(),
        ensures
            final(self).wf(),
            final(self)@ == (Editor { refresh: false, ..old(self)@ }),
    {
        self.refresh_pending = false;
    }

    /// The name under which the editor is registered.
    pub fn name(&self) -> (r: &'static str)
        ensures
            r@ == "texteditor"@,
    {
        "texteditor"
    }

    /// The name that the user sees.
    pub fn display_name(&self) -> (r: &'static str)
        ensures
            r@ == "text editor"@,
    {
        "text editor"
    }

    /// The root element keeps its key.
    pub fn stable_root_key(&self) -> (r: bool)
        ensures
            r,
    {
        true
    }

    /// The elements are edited as the lines of a text.
    pub fn has_editor_semantics(&self) -> (r: bool)
        ensures
            r,
    {
        true
    }

    /// The path that the user sees is one on disk.
    pub fn path_is_filesystem(&self) -> (r: bool)
        ensures
            r,
    {
        true
    }
}

/// A list of one text.
fn one_text(s: String) -> (r: Vec<String>)
    ensures
        texts(r@) == seq![s@],
{
    let mut out: Vec<String> = Vec::new();
    out.push(s);
    assert(texts(out@) =~= seq![s@]);
    out
}

/// A list of no texts.
fn no_texts() -> (r: Vec<String>)
    ensures
        texts(r@) == Seq::<Seq<char>>::empty(),
{
    let out: Vec<String> = Vec::new();
    assert(texts(out@) =~= Seq::empty());
    out
}

/// `shown` without the separators that end it.
fn bare(shown: &str) -> (r: String)
    ensures
        r@ == bare_name(shown@),
{
    let name = trim_end_matches(shown, '/');
    trim_end_matches(name.as_str(), '\\')
}

/// A list of one element.
fn single(e: FfonElement) -> (r: Vec<FfonElement>)
    ensures
        nodes(r@) == seq![node(e)],
{
    let mut out: Vec<FfonElement> = Vec::new();
    proof {
        lemma_nodes_push(out@, e);
    }
    out.push(e);
    assert(nodes(out@) =~= seq![node(e)]);
    out
}

} // verus!
