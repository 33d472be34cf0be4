//! What the editor knows, and how each action of the user changes it.
//!
//! The editor itself touches no disk. An action that needs the disk ends in a
//! request; whoever runs the editor carries it out and reports back.

use vstd::prelude::*;

use crate::ffon::{all_editable, Node};
use crate::line_laws::file_text;
use crate::parse::{file_tree, navigated};
use crate::paths::{extension, joined_path, parent_path, same_path};
use crate::settings::saved_folder;
use crate::tags::{display_text, inner, src_tag, srcins_tag};
use crate::text::{
    ends_in, indent_of, indented, joined, lines_of, pieces, trimmed, without_trailing,
};
use crate::timeline::{
    decoded, delete_entry, insert_entry, trash_entry, trashed_path, Entry, FsOpKind, FsSideEffect,
};

verus! {

/// How a file was last written, where its lines do not tell.
#[derive(Debug, PartialEq, Eq, Structural, Clone, Copy)]
pub enum Ending {
    /// With the lines that it has.
    Plain,
    /// With an empty line behind those that it has.
    Blank,
    /// Without any line, so that a newline is all that it holds.
    Emptied,
}

/// What the editor knows.
#[verifier::ext_equal]
pub struct Editor {
    /// The start folder.
    pub root: Seq<char>,
    /// The folder or file that is open.
    pub path: Seq<char>,
    /// The sections that are open within the file.
    pub sub: Seq<Seq<char>>,
    /// Whether the start folder has changed since it was last shown.
    pub refresh: bool,
    /// The lines of the open file.
    pub lines: Seq<Seq<char>>,
    /// How the file was last written, where its lines do not tell.
    pub ending: Ending,
    /// The open file as it is shown.
    pub tree: Seq<Node>,
    /// Whether the lines and the tree were read from the open file.
    pub loaded: bool,
    /// Whether a newline is written behind the last line.
    pub trailing: bool,
    /// The changes that were made and not yet handed out.
    pub entries: Seq<Entry>,
}

/// What an action asks for.
#[verifier::ext_equal]
pub enum Request {
    /// Nothing: the action is over, and this tells whether it succeeded.
    Done(bool),
    /// To write `content` to the file at `path`. Once that is done, `entry`
    /// goes on the timeline.
    Write { path: Seq<char>, content: Seq<char>, entry: Option<Entry> },
    /// To create an empty file at `path`.
    CreateFile { path: Seq<char> },
    /// To create a folder at `path`.
    CreateDirectory { path: Seq<char> },
    /// To move what is at `from` to `to`.
    Rename { from: Seq<char>, to: Seq<char> },
    /// To move what is at `path` to the trash, where it is called `name`.
    Trash { path: Seq<char>, name: Seq<char> },
}

/// What undoing or redoing a change asks for.
#[verifier::ext_equal]
pub enum HistoryRequest {
    /// Nothing.
    Nothing,
    /// To bring back the deleted file or folder of the change.
    Restore,
    /// To move what is at `path` to the trash.
    Trash { path: Seq<char> },
    /// To write `content` to the file at `path`, and to report `failure` when
    /// that cannot be done.
    Write { path: Seq<char>, content: Seq<char>, failure: Seq<char> },
}

/// A text that may be absent.
pub open spec fn optional_text(text: Option<&str>) -> Option<Seq<char>> {
    match text {
        Some(text) => Some(text@),
        None => None,
    }
}

/// What has to be known before the open folder or file can be shown.
#[verifier::ext_equal]
pub enum Screen {
    /// Nothing: this is shown.
    Show(Seq<Node>),
    /// What the file at `path` holds.
    ReadFile { path: Seq<char> },
    /// What is in the folder at `path`.
    ListDirectory { path: Seq<char> },
}

/// What is known of how the file was written fits its lines.
pub open spec fn proper(e: Editor) -> bool {
    match e.ending {
        Ending::Plain => true,
        Ending::Blank => !e.trailing,
        Ending::Emptied => e.trailing && e.lines == seq![Seq::<char>::empty()],
    }
}

// ---------------------------------------------------------------------------
// Moving about
// ---------------------------------------------------------------------------

/// The path that the user sees: that of the folder or file, and behind it the
/// sections that are open in the file.
pub open spec fn shown_path(e: Editor) -> Seq<char> {
    if e.sub.len() == 0 {
        e.path
    } else {
        e.path + "/"@ + joined(e.sub, '/')
    }
}

/// The editor when it starts, in the folder `home`.
pub open spec fn started(home: Seq<char>) -> Editor {
    Editor {
        root: home,
        path: home,
        sub: Seq::empty(),
        refresh: false,
        lines: Seq::empty(),
        ending: Ending::Plain,
        tree: Seq::empty(),
        loaded: false,
        trailing: false,
        entries: Seq::empty(),
    }
}

/// The editor with nothing known of the open file.
pub open spec fn forgotten(e: Editor) -> Editor {
    Editor {
        lines: Seq::empty(),
        ending: Ending::Plain,
        tree: Seq::empty(),
        loaded: false,
        ..e
    }
}

/// The editor at `path`, whatever stands there.
pub open spec fn moved(e: Editor, path: Seq<char>) -> Editor {
    Editor { path, sub: Seq::empty(), ..forgotten(e) }
}

/// The editor after it has read its settings; `config` is the text of the
/// settings file, where there is one.
pub open spec fn configured(e: Editor, config: Option<Seq<char>>) -> Editor {
    let saved = match config {
        Some(data) => saved_folder(data),
        None => None,
    };
    restarted(e, saved)
}

/// The editor at its start folder again, which is `saved` where that is given.
pub open spec fn restarted(e: Editor, saved: Option<Seq<char>>) -> Editor {
    let root = match saved {
        Some(folder) => folder,
        None => e.root,
    };
    Editor { root, refresh: false, entries: Seq::empty(), ..moved(e, root) }
}

/// The editor after the setting `key` was given the value `value`.
pub open spec fn setting_changed(e: Editor, key: Seq<char>, value: Seq<char>) -> Editor {
    if key == "textEditorPath"@ && value != e.root {
        Editor { root: value, refresh: true, ..moved(e, value) }
    } else {
        e
    }
}

/// The name of what the user picks, as it is seen.
pub open spec fn picked_name(shown: Seq<char>) -> Seq<char> {
    without_trailing(shown, '/')
}

/// The editor after the user has gone into the section or entry that is seen
/// as `shown`; in a folder nothing changes until it is known that the entry
/// exists.
pub open spec fn pushed(e: Editor, shown: Seq<char>, at_file: bool) -> Editor {
    if at_file {
        Editor { sub: e.sub.push(picked_name(shown)), ..e }
    } else {
        e
    }
}

/// The path that has to exist for the user to go into the entry that is seen as
/// `shown`.
pub open spec fn candidate(e: Editor, shown: Seq<char>, at_file: bool) -> Option<Seq<char>> {
    if at_file {
        None
    } else {
        Some(joined_path(e.path, picked_name(shown)))
    }
}

/// The editor in the folder or file at `path`.
pub open spec fn entered(e: Editor, path: Seq<char>) -> Editor {
    Editor { path, ..forgotten(e) }
}

/// The editor one level up; `at_start` tells whether the start folder is open,
/// and `parent` is the folder around the one that is open, where there is one.
pub open spec fn left_to(e: Editor, at_start: bool, parent: Option<Seq<char>>) -> Editor {
    if e.sub.len() > 0 {
        Editor { sub: e.sub.drop_last(), ..e }
    } else if at_start {
        e
    } else {
        match parent {
            Some(path) => entered(e, path),
            None => forgotten(e),
        }
    }
}

/// The editor one level up.
pub open spec fn popped(e: Editor) -> Editor {
    left_to(e, same_path(e.path, e.root), parent_path(e.path))
}

/// Whether the open path is that of the start folder, with no section open.
pub open spec fn at_start(e: Editor) -> bool {
    same_path(e.path, e.root) && e.sub.len() == 0
}

/// Whether the user is inside a file; `at_file` tells whether a file stands at
/// the open path.
pub open spec fn in_file(e: Editor, at_file: bool) -> bool {
    at_file || e.sub.len() > 0
}

// ---------------------------------------------------------------------------
// Showing
// ---------------------------------------------------------------------------

/// The editor after it has read the open file, whose text is `contents`.
pub open spec fn read(e: Editor, contents: Seq<char>) -> Editor {
    Editor {
        lines: lines_of(contents),
        ending: Ending::Plain,
        tree: all_editable(file_tree(lines_of(contents), extension(e.path))),
        loaded: true,
        trailing: ends_in(contents, '\n'),
        ..e
    }
}

/// The editor with the open file read, unless it was read already; `disk` is
/// what the file holds, where it can be read.
pub open spec fn ensured(e: Editor, disk: Option<Seq<char>>) -> Editor {
    if e.loaded {
        e
    } else {
        match disk {
            Some(contents) => read(e, contents),
            None => e,
        }
    }
}

/// What is shown of the open file.
pub open spec fn file_view(e: Editor, disk: Option<Seq<char>>) -> Seq<Node> {
    if !e.loaded && disk is None {
        seq![Node::Leaf("(binary or unreadable file)"@)]
    } else {
        navigated(ensured(e, disk).tree, e.sub)
    }
}

/// What is shown, or what has to be known for that.
pub open spec fn screen_of(e: Editor, at_file: bool) -> Screen {
    if trimmed(e.root).len() == 0 {
        Screen::Show(seq![Node::Leaf("set text editor path in settings"@)])
    } else if !in_file(e, at_file) {
        Screen::ListDirectory { path: e.path }
    } else if e.loaded {
        Screen::Show(navigated(e.tree, e.sub))
    } else {
        Screen::ReadFile { path: e.path }
    }
}

// ---------------------------------------------------------------------------
// Editing
// ---------------------------------------------------------------------------

/// `lines` with those from `from` up to `to` replaced by `new_lines`.
pub open spec fn spliced(
    lines: Seq<Seq<char>>,
    from: int,
    to: int,
    new_lines: Seq<Seq<char>>,
) -> Seq<Seq<char>> {
    lines.take(from) + new_lines + lines.skip(to)
}

/// The lines that an edit starts from: those of the file, and behind them an
/// empty one where the file ends with a newline that `trailing` does not tell of.
pub open spec fn base(e: Editor) -> Seq<Seq<char>> {
    if e.ending == Ending::Blank && e.lines.len() > 0 {
        e.lines.push(Seq::empty())
    } else {
        e.lines
    }
}

/// The lines that the file was last written with. Undoing and redoing start from
/// them.
pub open spec fn whole(e: Editor) -> Seq<Seq<char>> {
    match e.ending {
        Ending::Plain => e.lines,
        Ending::Blank => e.lines.push(Seq::empty()),
        Ending::Emptied => Seq::empty(),
    }
}

/// What the lines of a file that was written with `lines` do not tell.
pub open spec fn ending_of(lines: Seq<Seq<char>>, trailing: bool) -> Ending {
    let text = file_text(lines, trailing);
    if trailing {
        if lines.len() == 0 {
            Ending::Emptied
        } else {
            Ending::Plain
        }
    } else if lines.len() > 0 && (text.len() == 0 || ends_in(text, '\n')) {
        Ending::Blank
    } else {
        Ending::Plain
    }
}

/// What the open file is to hold.
pub open spec fn content(e: Editor) -> Seq<char> {
    file_text(base(e), e.trailing)
}

/// The editor with the lines `lines`.
pub open spec fn changed(e: Editor, lines: Seq<Seq<char>>) -> Editor {
    Editor { lines, ending: Ending::Plain, ..e }
}

/// The editor with the lines `lines`, and the request to write them.
pub open spec fn writing(e: Editor, lines: Seq<Seq<char>>, entry: Option<Entry>) -> (
    Editor,
    Request,
) {
    (
        changed(e, lines),
        Request::Write { path: e.path, content: content(changed(e, lines)), entry },
    )
}

/// The editor after the open file was written: its lines and its tree are those
/// of what was written.
pub open spec fn saved(e: Editor) -> Editor {
    Editor {
        lines: lines_of(content(e)),
        ending: ending_of(whole(e), e.trailing),
        tree: all_editable(file_tree(lines_of(content(e)), extension(e.path))),
        ..e
    }
}

/// The editor after an attempt to write the open file; `entry` is the change
/// that was written.
pub open spec fn written(e: Editor, ok: bool, entry: Option<Entry>) -> Editor {
    if !ok {
        e
    } else {
        match entry {
            Some(entry) => Editor { entries: e.entries.push(entry), ..saved(e) },
            None => saved(e),
        }
    }
}

/// Where among `len` lines the line `k` is.
pub open spec fn clamped(k: nat, len: nat) -> nat {
    if k < len {
        k
    } else {
        len
    }
}

/// Line `i` replaced by what the user typed: `new` is the text of the edited
/// field, and `typed` what the user sees of it. A field that asks for an
/// inserted line to be taken back removes that line.
pub open spec fn line_replaced(e: Editor, i: nat, new: Seq<char>, typed: Seq<char>) -> (
    Editor,
    Request,
) {
    if i >= e.lines.len() {
        (e, Request::Done(false))
    } else {
        match srcins_tag(new) {
            Some(k) => if k < e.lines.len() {
                writing(e, base(e).remove(k as int), None)
            } else {
                (e, Request::Done(false))
            },
            None => {
                let new_lines = indented(typed, indent_of(e.lines[i as int]));
                if new_lines == seq![e.lines[i as int]] {
                    (e, Request::Done(true))
                } else {
                    writing(e, spliced(base(e), i as int, i as int + 1, new_lines), None)
                }
            },
        }
    }
}

/// The indentation that a line put in at `k` gets: that of the line it is put
/// in front of, or of the last line.
pub open spec fn indent_at(lines: Seq<Seq<char>>, k: nat) -> Seq<char> {
    if k < lines.len() {
        indent_of(lines[k as int])
    } else if lines.len() > 0 {
        indent_of(lines.last())
    } else {
        Seq::empty()
    }
}

/// `new_lines` put in at `c`.
pub open spec fn lines_inserted(e: Editor, c: nat, new_lines: Seq<Seq<char>>) -> (Editor, Request) {
    writing(
        e,
        spliced(base(e), c as int, c as int, new_lines),
        Some(insert_entry(c, new_lines)),
    )
}

/// What the user typed, `typed`, put in at `k`.
pub open spec fn text_inserted(e: Editor, k: nat, typed: Seq<char>) -> (Editor, Request) {
    lines_inserted(e, clamped(k, e.lines.len()), indented(typed, indent_at(e.lines, k)))
}

/// What the user typed, `typed`, put behind the last line.
pub open spec fn text_appended(e: Editor, typed: Seq<char>) -> (Editor, Request) {
    if typed.len() == 0 {
        (e, Request::Done(false))
    } else {
        lines_inserted(e, e.lines.len(), indented(typed, Seq::empty()))
    }
}

/// A file created under `name` in the open folder.
pub open spec fn file_created(e: Editor, name: Seq<char>, at_file: bool) -> Request {
    if name.len() == 0 || in_file(e, at_file) {
        Request::Done(false)
    } else {
        Request::CreateFile { path: joined_path(e.path, name) }
    }
}

/// A folder created under `name` in the open folder.
pub open spec fn directory_created(e: Editor, name: Seq<char>, at_file: bool) -> Request {
    if name.len() == 0 || in_file(e, at_file) {
        Request::Done(false)
    } else {
        Request::CreateDirectory { path: joined_path(e.path, name) }
    }
}

/// A new file or folder, named by what the user typed: a folder when a colon
/// ends it.
pub open spec fn item_created(e: Editor, typed: Seq<char>, at_file: bool) -> Request {
    if ends_in(typed, ':') {
        directory_created(e, without_trailing(typed, ':'), at_file)
    } else {
        file_created(e, typed, at_file)
    }
}

/// The name of a file or folder without the separators that end it.
pub open spec fn bare_name(shown: Seq<char>) -> Seq<char> {
    without_trailing(without_trailing(shown, '/'), '\\')
}

/// The file or folder that is seen as `old_name` renamed to `new_name`.
pub open spec fn item_renamed(e: Editor, old_name: Seq<char>, new_name: Seq<char>) -> Request {
    if old_name.len() == 0 || new_name.len() == 0 || old_name == new_name {
        Request::Done(false)
    } else {
        Request::Rename {
            from: joined_path(e.path, bare_name(old_name)),
            to: joined_path(e.path, bare_name(new_name)),
        }
    }
}

/// The element `old` edited to `new`; `typed` is what the user sees of the new
/// field, and `old_name` and `new_name` what the user sees of the two elements.
pub open spec fn committed_as(
    e: Editor,
    old: Seq<char>,
    new: Seq<char>,
    typed: Seq<char>,
    old_name: Seq<char>,
    new_name: Seq<char>,
    at_file: bool,
) -> (Editor, Request) {
    let from = inner(old);
    let to = inner(new);
    match src_tag(from) {
        Some(found) => line_replaced(e, found.0, to, typed),
        None => match srcins_tag(from) {
            Some(k) => text_inserted(e, k, typed),
            None => if from.len() == 0 && to.len() > 0 {
                if in_file(e, at_file) {
                    text_appended(e, typed)
                } else {
                    (e, item_created(e, to, at_file))
                }
            } else if !in_file(e, at_file) {
                (e, item_renamed(e, old_name, new_name))
            } else {
                (e, Request::Done(false))
            },
        },
    }
}

/// The element `old` edited to `new`.
pub open spec fn committed(e: Editor, old: Seq<char>, new: Seq<char>, at_file: bool) -> (
    Editor,
    Request,
) {
    committed_as(
        e,
        old,
        new,
        display_text(inner(new)),
        display_text(old),
        display_text(new),
        at_file,
    )
}

/// Line `i` deleted.
pub open spec fn line_deleted(e: Editor, i: nat) -> (Editor, Request) {
    if i >= e.lines.len() {
        (e, Request::Done(false))
    } else {
        writing(e, base(e).remove(i as int), Some(delete_entry(i, e.lines[i as int])))
    }
}

/// The file or folder that is seen as `shown` deleted.
pub open spec fn item_deleted(e: Editor, shown: Seq<char>) -> Request {
    if bare_name(shown).len() == 0 {
        Request::Done(false)
    } else {
        Request::Trash { path: joined_path(e.path, bare_name(shown)), name: bare_name(shown) }
    }
}

/// The element `name` deleted.
pub open spec fn deleted(e: Editor, name: Seq<char>) -> (Editor, Request) {
    match src_tag(inner(name)) {
        Some(found) => line_deleted(e, found.0),
        None => (e, item_deleted(e, display_text(name))),
    }
}

/// The editor after an attempt to move the file or folder `name` to the trash.
pub open spec fn trashed(e: Editor, ok: bool, name: Seq<char>, side_effect: FsSideEffect) -> Editor {
    if ok {
        Editor { entries: e.entries.push(trash_entry(name, side_effect)), ..e }
    } else {
        e
    }
}

// ---------------------------------------------------------------------------
// Undoing and redoing
// ---------------------------------------------------------------------------

/// The line number and the text of a deleted line.
pub open spec fn delete_record(entry: Entry) -> Option<(nat, Seq<char>)> {
    match entry {
        Entry::Op { command, payload, .. } => if command == "texteditor.delete_line"@ {
            decoded(payload)
        } else {
            None
        },
        _ => None,
    }
}

/// The line number and the text of inserted lines.
pub open spec fn insert_record(entry: Entry) -> Option<(nat, Seq<char>)> {
    match entry {
        Entry::Op { command, payload, .. } => if command == "texteditor.insert_lines"@ {
            decoded(payload)
        } else {
            None
        },
        _ => None,
    }
}

/// Whether `entry` records a change to the lines of a file.
pub open spec fn is_line_entry(entry: Entry) -> bool {
    delete_record(entry) is Some || insert_record(entry) is Some
}

/// The side effect of a deleted file or folder.
pub open spec fn delete_side_effect(entry: Entry) -> Option<FsSideEffect> {
    match entry {
        Entry::Fs { op, side_effect, .. } => if op == FsOpKind::Delete {
            Some(side_effect)
        } else {
            None
        },
        _ => None,
    }
}

/// The editor with the lines `lines`, and the request to write them.
pub open spec fn rewriting(e: Editor, lines: Seq<Seq<char>>, failure: Seq<char>) -> (
    Editor,
    HistoryRequest,
) {
    (
        changed(e, lines),
        HistoryRequest::Write { path: e.path, content: content(changed(e, lines)), failure },
    )
}

/// `lines` with the `count` of them from `i` on, or those of them that are there,
/// replaced by `new_lines`.
pub open spec fn rewritten(
    lines: Seq<Seq<char>>,
    i: nat,
    count: nat,
    new_lines: Seq<Seq<char>>,
) -> Seq<Seq<char>> {
    let from = clamped(i, lines.len());
    let to = clamped(from + count, lines.len());
    spliced(lines, from as int, to as int, new_lines)
}

/// `lines` with `back` put in at `i`, or behind the last line when there are
/// fewer.
pub open spec fn put_back(lines: Seq<Seq<char>>, i: nat, back: Seq<Seq<char>>) -> Seq<Seq<char>> {
    rewritten(lines, i, 0, back)
}

/// `lines` without the `count` of them from `i` on, or without those of them
/// that are there.
pub open spec fn taken_out(lines: Seq<Seq<char>>, i: nat, count: nat) -> Seq<Seq<char>> {
    rewritten(lines, i, count, Seq::empty())
}

/// The change `entry` undone; `disk` is what the open file holds, where it can
/// be read.
pub open spec fn undone(e: Editor, entry: Entry, disk: Option<Seq<char>>) -> (
    Editor,
    HistoryRequest,
) {
    let open = ensured(e, disk);
    match delete_side_effect(entry) {
        Some(_) => (e, HistoryRequest::Restore),
        None => match delete_record(entry) {
            Some(line) => rewriting(
                open,
                put_back(whole(open), line.0, seq![line.1]),
                "undo delete line: failed to write file"@,
            ),
            None => match insert_record(entry) {
                Some(record) => rewriting(
                    open,
                    taken_out(whole(open), record.0, pieces(record.1).len()),
                    "undo insert line: failed to write file"@,
                ),
                None => (e, HistoryRequest::Nothing),
            },
        },
    }
}

/// The change `entry` made again.
pub open spec fn redone(e: Editor, entry: Entry, disk: Option<Seq<char>>) -> (
    Editor,
    HistoryRequest,
) {
    let open = ensured(e, disk);
    match delete_side_effect(entry) {
        Some(side_effect) => match trashed_path(side_effect) {
            Some(path) => (e, HistoryRequest::Trash { path }),
            None => (e, HistoryRequest::Nothing),
        },
        None => match delete_record(entry) {
            Some(line) => if line.0 < open.lines.len() {
                rewriting(
                    open,
                    taken_out(whole(open), line.0, 1),
                    "redo delete line: failed to write file"@,
                )
            } else {
                (open, HistoryRequest::Nothing)
            },
            None => match insert_record(entry) {
                Some(record) => rewriting(
                    open,
                    put_back(whole(open), record.0, pieces(record.1)),
                    "redo insert line: failed to write file"@,
                ),
                None => (e, HistoryRequest::Nothing),
            },
        },
    }
}

// ---------------------------------------------------------------------------
// The end of the file
// ---------------------------------------------------------------------------

/// The lines that the file was last written with make what the file is to hold.
pub proof fn lemma_whole_content(e: Editor)
    requires
        proper(e),
    ensures
        file_text(whole(e), e.trailing) == content(e),
{
    match e.ending {
        Ending::Plain => {},
        Ending::Blank => {
            if e.lines.len() == 0 {
                assert(whole(e) =~= seq![Seq::<char>::empty()]);
                assert(joined(whole(e), '\n') =~= joined(e.lines, '\n'));
            }
        },
        Ending::Emptied => {
            assert(joined(whole(e), '\n') =~= joined(e.lines, '\n'));
        },
    }
}

/// A file that was written is known properly.
pub proof fn lemma_saved_is_proper(e: Editor)
    requires
        proper(e),
    ensures
        proper(saved(e)),
{
    lemma_whole_content(e);
    if saved(e).ending == Ending::Emptied {
        let text = content(e);
        assert(text =~= seq!['\n']);
        assert(text.drop_last() =~= Seq::empty());
        reveal_with_fuel(pieces, 2);
        assert(lines_of(text) =~= seq![Seq::<char>::empty()]);
    }
}

} // verus!
