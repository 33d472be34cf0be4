//! What each edit, undo and redo does to the lines of a file.

use vstd::prelude::*;

use crate::ffon::{all_editable, Node};
use crate::line_laws::{file_text, one_line};
use crate::parse::file_tree;
use crate::paths::extension;
use crate::state::{
    base, content, deleted, ensured, is_line_entry, line_deleted, line_replaced, redone, saved,
    text_appended, text_inserted, trashed, undone, whole, written, Editor, Ending, HistoryRequest,
    Request,
};
use crate::state::{committed, committed_as, item_created, item_deleted, item_renamed, rewritten};
use crate::tags::{display_text, input_content, inner, src_tag, src_text, srcins_tag};
use crate::text::{decimal, indent_of, indented, joined, lines_of, pieces, white_space};
use crate::text_laws::{blank, law_indentation, law_joined_parts, law_typed_lines};
use crate::timeline::{decoded, Entry, FsOpKind, FsSideEffect};

verus! {

/// `s` starts with `w` characters of white space, and then comes another one.
pub open spec fn starts_at(s: Seq<char>, w: int) -> bool {
    &&& 0 <= w < s.len()
    &&& blank(s.take(w))
    &&& !white_space(s[w])
}

/// Nothing but the lines of the file differs between `after` and `e`.
pub open spec fn only_lines_differ(after: Editor, e: Editor) -> bool {
    &&& after.ending == Ending::Plain
    &&& after.root == e.root
    &&& after.path == e.path
    &&& after.sub == e.sub
    &&& after.refresh == e.refresh
    &&& after.tree == e.tree
    &&& after.loaded == e.loaded
    &&& after.trailing == e.trailing
    &&& after.entries == e.entries
}

/// `now` are the lines `before` with `new_lines` in place of those from `from` up
/// to `to`.
pub open spec fn replaced_by(
    now: Seq<Seq<char>>,
    before: Seq<Seq<char>>,
    from: int,
    to: int,
    new_lines: Seq<Seq<char>>,
) -> bool {
    &&& now.len() == before.len() - (to - from) + new_lines.len()
    &&& forall|q: int| 0 <= q < from ==> #[trigger] now[q] == before[q]
    &&& forall|q: int| 0 <= q < new_lines.len() ==> now[from + q] == #[trigger] new_lines[q]
    &&& forall|q: int|
        to <= q < before.len() ==> now[q - to + from + new_lines.len()] == #[trigger] before[q]
}

/// The edit writes the file with the lines that `after` has, and leaves all else
/// as it was in `e`.
pub open spec fn writes(edit: (Editor, Request), e: Editor, entry: Option<Entry>) -> bool {
    &&& only_lines_differ(edit.0, e)
    &&& edit.1 == (Request::Write {
        path: e.path,
        content: file_text(edit.0.lines, e.trailing),
        entry,
    })
}

proof fn lemma_indent(s: Seq<char>, w: int)
    requires
        starts_at(s, w),
    ensures
        indent_of(s) == s.take(w),
{
    law_indentation(s);
    let n = indent_of(s).len() as int;
    assert(!blank(s));
    if n < w {
        assert(white_space(s.take(w)[n]));
    } else if w < n {
        assert(white_space(indent_of(s)[w]));
    }
}

// ---------------------------------------------------------------------------
// What an edit starts from
// ---------------------------------------------------------------------------

/// An edit starts from the lines of the file. Where the file was last written
/// with an empty line behind them, that line is one of them.
pub proof fn law_edits_start_from_the_lines(e: Editor)
    ensures
        e.ending != Ending::Blank || e.lines.len() == 0 ==> base(e) == e.lines,
        e.ending == Ending::Blank && e.lines.len() > 0 ==> {
            &&& base(e).len() == e.lines.len() + 1
            &&& base(e).drop_last() == e.lines
            &&& base(e).last().len() == 0
        },
        content(e) == file_text(base(e), e.trailing),
        e.ending == Ending::Plain ==> whole(e) == e.lines,
        e.ending == Ending::Emptied ==> whole(e).len() == 0,
        e.ending == Ending::Blank ==> {
            &&& whole(e).len() == e.lines.len() + 1
            &&& whole(e).drop_last() == e.lines
            &&& whole(e).last().len() == 0
        },
{
}

// ---------------------------------------------------------------------------
// Inserting
// ---------------------------------------------------------------------------

/// A line that the user puts in front of another one gets the white space that
/// the other one starts with. The lines in front and behind stay as they are.
pub proof fn law_inserted_line_is_indented_like_the_next(
    e: Editor,
    k: nat,
    typed: Seq<char>,
    w: int,
)
    requires
        k < e.lines.len(),
        starts_at(e.lines[k as int], w),
        one_line(typed),
        typed.len() > 0,
    ensures
        replaced_by(
            text_inserted(e, k, typed).0.lines,
            base(e),
            k as int,
            k as int,
            seq![e.lines[k as int].take(w) + typed],
        ),
        writes(
            text_inserted(e, k, typed),
            e,
            Some(
                Entry::Op {
                    provider_idx: 0,
                    command: "texteditor.insert_lines"@,
                    payload: Node::Leaf(src_text(k) + (e.lines[k as int].take(w) + typed)),
                    label: "insert line "@ + decimal(k + 1),
                },
            ),
        ),
{
    lemma_indent(e.lines[k as int], w);
    let indent = e.lines[k as int].take(w);
    law_typed_lines(typed, Seq::empty(), indent);
    law_joined_parts(seq![indent + typed], Seq::empty(), '\n');
}

/// A line that the user puts behind the last one gets the white space that the
/// last one starts with.
pub proof fn law_line_behind_the_last_is_indented_like_it(
    e: Editor,
    k: nat,
    typed: Seq<char>,
    w: int,
)
    requires
        e.lines.len() > 0,
        k >= e.lines.len(),
        starts_at(e.lines.last(), w),
        one_line(typed),
        typed.len() > 0,
    ensures
        replaced_by(
            text_inserted(e, k, typed).0.lines,
            base(e),
            e.lines.len() as int,
            e.lines.len() as int,
            seq![e.lines.last().take(w) + typed],
        ),
        writes(
            text_inserted(e, k, typed),
            e,
            Some(
                Entry::Op {
                    provider_idx: 0,
                    command: "texteditor.insert_lines"@,
                    payload: Node::Leaf(src_text(e.lines.len()) + (e.lines.last().take(w) + typed)),
                    label: "insert line "@ + decimal(e.lines.len() + 1),
                },
            ),
        ),
{
    lemma_indent(e.lines.last(), w);
    let indent = e.lines.last().take(w);
    law_typed_lines(typed, Seq::empty(), indent);
    law_joined_parts(seq![indent + typed], Seq::empty(), '\n');
}

/// What the entry of inserted lines records.
pub open spec fn records_insert(entry: Entry, at: nat, new_lines: Seq<Seq<char>>) -> bool {
    entry matches Entry::Op { provider_idx, command, payload, label } && {
        &&& provider_idx == 0
        &&& command == "texteditor.insert_lines"@
        &&& payload == Node::Leaf(src_text(at) + joined(new_lines, '\n'))
        &&& label == if new_lines.len() == 1 {
            "insert line "@ + decimal(at + 1)
        } else {
            "insert "@ + decimal(new_lines.len()) + " lines at "@ + decimal(at + 1)
        }
    }
}

/// What the user puts in becomes lines in front of line `k`, or behind the last
/// one, indented like the line that they are put in front of, or like the last;
/// in an empty file they are not indented.
pub proof fn law_inserted_text(e: Editor, k: nat, typed: Seq<char>) -> (entry: Entry)
    ensures
        ({
            let c = if k < e.lines.len() {
                k as int
            } else {
                e.lines.len() as int
            };
            let indent = if e.lines.len() == 0 {
                Seq::empty()
            } else if k < e.lines.len() {
                indent_of(e.lines[k as int])
            } else {
                indent_of(e.lines.last())
            };
            let after = text_inserted(e, k, typed);
            &&& replaced_by(after.0.lines, base(e), c, c, indented(typed, indent))
            &&& records_insert(entry, c as nat, indented(typed, indent))
            &&& writes(after, e, Some(entry))
        }),
{
    text_inserted(e, k, typed).1->Write_entry->0
}

/// What the user types behind the last line becomes lines there, as it was typed.
/// Nothing typed is nothing done.
pub proof fn law_appended_text(e: Editor, typed: Seq<char>) -> (entry: Entry)
    ensures
        typed.len() == 0 ==> text_appended(e, typed) == (e, Request::Done(false)),
        typed.len() > 0 ==> {
            let n = e.lines.len() as int;
            let after = text_appended(e, typed);
            &&& replaced_by(after.0.lines, base(e), n, n, pieces(typed))
            &&& records_insert(entry, n as nat, pieces(typed))
            &&& writes(after, e, Some(entry))
        },
{
    let new_lines = indented(typed, Seq::empty());
    assert forall|i: int| 0 <= i < new_lines.len() implies new_lines[i] == pieces(typed)[i] by {
        assert(Seq::<char>::empty() + pieces(typed)[i] =~= pieces(typed)[i]);
    }
    assert(new_lines =~= pieces(typed));
    text_appended(e, typed).1->Write_entry->0
}

// ---------------------------------------------------------------------------
// Replacing
// ---------------------------------------------------------------------------

/// A line that the user edits keeps the white space that it starts with, and the
/// other lines stay as they are. Nothing is written when the line is the same.
pub proof fn law_replaced_line_keeps_its_indentation(
    e: Editor,
    i: nat,
    new: Seq<char>,
    typed: Seq<char>,
    w: int,
)
    requires
        i < e.lines.len(),
        srcins_tag(new) is None,
        starts_at(e.lines[i as int], w),
        one_line(typed),
        typed.len() > 0,
    ensures
        ({
            let now = e.lines[i as int].take(w) + typed;
            let after = line_replaced(e, i, new, typed);
            if now == e.lines[i as int] {
                after == (e, Request::Done(true))
            } else {
                &&& replaced_by(after.0.lines, base(e), i as int, i as int + 1, seq![now])
                &&& writes(after, e, None)
            }
        }),
{
    lemma_indent(e.lines[i as int], w);
    let indent = e.lines[i as int].take(w);
    law_typed_lines(typed, Seq::empty(), indent);
    if indent + typed != e.lines[i as int] {
        assert(seq![indent + typed][0] != seq![e.lines[i as int]][0]);
    }
}

/// What the user makes of a line becomes lines in its place, indented like it.
pub proof fn law_replaced_text(e: Editor, i: nat, new: Seq<char>, typed: Seq<char>)
    requires
        srcins_tag(new) is None,
    ensures
        i >= e.lines.len() ==> line_replaced(e, i, new, typed) == (e, Request::Done(false)),
        i < e.lines.len() ==> {
            let now = indented(typed, indent_of(e.lines[i as int]));
            let after = line_replaced(e, i, new, typed);
            if now == seq![e.lines[i as int]] {
                after == (e, Request::Done(true))
            } else {
                &&& replaced_by(after.0.lines, base(e), i as int, i as int + 1, now)
                &&& writes(after, e, None)
            }
        },
{
}

/// A field that asks for an inserted line to be taken back removes that line,
/// where the file has it.
pub proof fn law_line_is_taken_back(e: Editor, i: nat, new: Seq<char>, typed: Seq<char>, k: nat)
    requires
        srcins_tag(new) == Some(k),
    ensures
        i >= e.lines.len() || k >= e.lines.len() ==> line_replaced(e, i, new, typed) == (
            e,
            Request::Done(false),
        ),
        i < e.lines.len() && k < e.lines.len() ==> {
            let after = line_replaced(e, i, new, typed);
            &&& replaced_by(after.0.lines, base(e), k as int, k as int + 1, Seq::empty())
            &&& writes(after, e, None)
        },
{
}

// ---------------------------------------------------------------------------
// Deleting
// ---------------------------------------------------------------------------

/// A deleted line is gone, the other lines stay as they are, and what was deleted
/// is recorded.
pub proof fn law_deleted_line_is_gone(e: Editor, i: nat)
    ensures
        i >= e.lines.len() ==> line_deleted(e, i) == (e, Request::Done(false)),
        i < e.lines.len() ==> {
            let after = line_deleted(e, i);
            &&& replaced_by(after.0.lines, base(e), i as int, i as int + 1, Seq::empty())
            &&& writes(
                after,
                e,
                Some(
                    Entry::Op {
                        provider_idx: 0,
                        command: "texteditor.delete_line"@,
                        payload: Node::Leaf(src_text(i) + e.lines[i as int]),
                        label: "delete line "@ + decimal(i + 1),
                    },
                ),
            )
        },
{
}

// ---------------------------------------------------------------------------
// Which edit is made
// ---------------------------------------------------------------------------

/// What an element holds to edit is what stands in its field, or all of it where
/// it has none.
pub proof fn law_field_is_edited(s: Seq<char>, field: Seq<char>)
    ensures
        input_content(s) == Some(field) ==> inner(s) == field,
        input_content(s) is None ==> inner(s) == s,
{
}

/// An element with a source line is edited there. One that asks for a new line
/// gets it. An empty one becomes a new line in a file, and a new item in a folder.
/// Any other one is renamed in a folder, and stays as it is in a file.
pub proof fn law_element_decides_the_edit(
    e: Editor,
    old_text: Seq<char>,
    new: Seq<char>,
    typed: Seq<char>,
    old_name: Seq<char>,
    new_name: Seq<char>,
    at_file: bool,
)
    ensures
        ({
            let from = inner(old_text);
            let to = inner(new);
            let edit = committed_as(e, old_text, new, typed, old_name, new_name, at_file);
            let within = at_file || e.sub.len() > 0;
            let neither = src_tag(from) is None && srcins_tag(from) is None;
            &&& src_tag(from) matches Some(found) ==> edit == line_replaced(e, found.0, to, typed)
            &&& src_tag(from) is None ==> (srcins_tag(from) matches Some(k) ==> edit
                == text_inserted(e, k, typed))
            &&& neither && from.len() == 0 && to.len() > 0 && within ==> edit == text_appended(
                e,
                typed,
            )
            &&& neither && from.len() == 0 && to.len() > 0 && !within ==> edit == (
                e,
                item_created(e, to, at_file),
            )
            &&& neither && !(from.len() == 0 && to.len() > 0) && !within ==> edit == (
                e,
                item_renamed(e, old_name, new_name),
            )
            &&& neither && !(from.len() == 0 && to.len() > 0) && within ==> edit == (
                e,
                Request::Done(false),
            )
        }),
{
}

/// What the user types is what is seen of the new field, and the names of the two
/// elements are what is seen of them.
pub proof fn law_edit_goes_by_what_is_seen(
    e: Editor,
    old_text: Seq<char>,
    new: Seq<char>,
    at_file: bool,
)
    ensures
        committed(e, old_text, new, at_file) == committed_as(
            e,
            old_text,
            new,
            display_text(inner(new)),
            display_text(old_text),
            display_text(new),
            at_file,
        ),
{
}

/// An element with a source line is deleted there, and any other one in the open
/// folder, under the name that is seen of it.
pub proof fn law_element_decides_the_deletion(e: Editor, name: Seq<char>)
    ensures
        src_tag(inner(name)) matches Some(found) ==> deleted(e, name) == line_deleted(e, found.0),
        src_tag(inner(name)) is None ==> deleted(e, name) == (
            e,
            item_deleted(e, display_text(name)),
        ),
{
}

// ---------------------------------------------------------------------------
// What is known afterwards
// ---------------------------------------------------------------------------

/// Once the file is written, its lines and its tree are those of what was
/// written, and all else is as it was, but for the change on the timeline. A file
/// that could not be written changes nothing.
pub proof fn law_written_file_is_known(e: Editor, entry: Entry)
    ensures
        written(e, false, Some(entry)) == e,
        written(e, false, None) == e,
        ({
            let after = written(e, true, None);
            &&& after.lines == lines_of(content(e))
            &&& after.tree == all_editable(file_tree(lines_of(content(e)), extension(e.path)))
            &&& after.root == e.root
            &&& after.path == e.path
            &&& after.sub == e.sub
            &&& after.refresh == e.refresh
            &&& after.loaded == e.loaded
            &&& after.trailing == e.trailing
            &&& after.entries == e.entries
        }),
        written(e, true, Some(entry)).entries == e.entries.push(entry),
        written(e, true, Some(entry)) == (Editor {
            entries: e.entries.push(entry),
            ..written(e, true, None)
        }),
        written(e, true, None) == saved(e),
{
}

/// Once an item is in the trash, that is on the timeline, and all else is as it
/// was. An item that could not be moved there changes nothing.
pub proof fn law_trashed_item_is_recorded(e: Editor, name: Seq<char>, side_effect: FsSideEffect)
    ensures
        trashed(e, false, name, side_effect) == e,
        trashed(e, true, name, side_effect) == (Editor {
            entries: e.entries.push(
                Entry::Fs {
                    provider_idx: 0,
                    id: Seq::empty(),
                    op: FsOpKind::Delete,
                    before: Some(Node::Branch(name, Seq::empty())),
                    after: None,
                    side_effect,
                },
            ),
            ..e
        }),
{
}

// ---------------------------------------------------------------------------
// Undoing and redoing
// ---------------------------------------------------------------------------

/// `n`, or `len` where that is less.
pub open spec fn within(n: nat, len: nat) -> int {
    if n < len {
        n as int
    } else {
        len as int
    }
}

/// The undo or redo writes the file with the lines that it has afterwards, and
/// leaves all else as it was in `e`.
pub open spec fn rewrites(
    change: (Editor, HistoryRequest),
    e: Editor,
    failure: Seq<char>,
) -> bool {
    &&& only_lines_differ(change.0, e)
    &&& change.1 == (HistoryRequest::Write {
        path: e.path,
        content: file_text(change.0.lines, e.trailing),
        failure,
    })
}

proof fn lemma_rewritten(
    lines: Seq<Seq<char>>,
    i: nat,
    count: nat,
    new_lines: Seq<Seq<char>>,
)
    ensures
        replaced_by(
            rewritten(lines, i, count, new_lines),
            lines,
            within(i, lines.len()),
            within(within(i, lines.len()) as nat + count, lines.len()),
            new_lines,
        ),
{
}

/// A payload, a text or a section with that text, is read from its tag, or from
/// that of its field.
pub proof fn law_payload_is_read(text: Seq<char>, children: Seq<Node>)
    ensures
        decoded(Node::Leaf(text)) == if src_tag(text) is Some {
            src_tag(text)
        } else {
            src_tag(inner(text))
        },
        decoded(Node::Branch(text, children)) == decoded(Node::Leaf(text)),
{
}

/// The changes to lines are the deletions and insertions whose payload can be
/// read.
pub proof fn law_changes_to_lines(
    provider_idx: usize,
    command: Seq<char>,
    payload: Node,
    label: Seq<char>,
)
    ensures
        is_line_entry(Entry::Op { provider_idx, command, payload, label }) <==> decoded(
            payload,
        ) is Some && (command == "texteditor.delete_line"@ || command
            == "texteditor.insert_lines"@),
{
}

/// Undoing the deletion of a line puts its text in where it was, or behind the
/// last line; redoing it takes that line out, where the file has it.
pub proof fn law_deletion_undone_and_redone(
    e: Editor,
    provider_idx: usize,
    payload: Node,
    label: Seq<char>,
    disk: Option<Seq<char>>,
    i: nat,
    text: Seq<char>,
)
    requires
        decoded(payload) == Some((i, text)),
    ensures
        ({
            let entry = Entry::Op {
                provider_idx,
                command: "texteditor.delete_line"@,
                payload,
                label,
            };
            let open = ensured(e, disk);
            let lines = whole(open);
            let back = undone(e, entry, disk);
            let again = redone(e, entry, disk);
            let at = within(i, lines.len());
            &&& replaced_by(back.0.lines, lines, at, at, seq![text])
            &&& rewrites(back, open, "undo delete line: failed to write file"@)
            &&& i >= open.lines.len() ==> again == (open, HistoryRequest::Nothing)
            &&& i < open.lines.len() ==> {
                &&& replaced_by(
                    again.0.lines,
                    lines,
                    at,
                    within(at as nat + 1, lines.len()),
                    Seq::empty(),
                )
                &&& rewrites(again, open, "redo delete line: failed to write file"@)
            }
        }),
{
    let lines = whole(ensured(e, disk));
    lemma_rewritten(lines, i, 0, seq![text]);
    lemma_rewritten(lines, i, 1, Seq::empty());
}

/// Undoing an insertion takes out as many lines as were put in, where they were
/// put in; redoing it puts the lines in again.
pub proof fn law_insertion_undone_and_redone(
    e: Editor,
    provider_idx: usize,
    payload: Node,
    label: Seq<char>,
    disk: Option<Seq<char>>,
    i: nat,
    text: Seq<char>,
)
    requires
        decoded(payload) == Some((i, text)),
    ensures
        ({
            let entry = Entry::Op {
                provider_idx,
                command: "texteditor.insert_lines"@,
                payload,
                label,
            };
            let open = ensured(e, disk);
            let lines = whole(open);
            let back = undone(e, entry, disk);
            let again = redone(e, entry, disk);
            let at = within(i, lines.len());
            let count = pieces(text).len();
            &&& replaced_by(
                back.0.lines,
                lines,
                at,
                within(at as nat + count, lines.len()),
                Seq::empty(),
            )
            &&& rewrites(back, open, "undo insert line: failed to write file"@)
            &&& replaced_by(again.0.lines, lines, at, at, pieces(text))
            &&& rewrites(again, open, "redo insert line: failed to write file"@)
        }),
{
    crate::timeline::lemma_commands_differ();
    let lines = whole(ensured(e, disk));
    lemma_rewritten(lines, i, pieces(text).len(), Seq::empty());
    lemma_rewritten(lines, i, 0, pieces(text));
}

/// Undoing a deletion in a folder brings back what was deleted, and redoing it
/// moves to the trash what stands at the path that it was deleted from.
pub proof fn law_trashing_undone_and_redone(
    e: Editor,
    provider_idx: usize,
    id: Seq<usize>,
    before: Option<Node>,
    after: Option<Node>,
    side_effect: FsSideEffect,
    disk: Option<Seq<char>>,
)
    ensures
        ({
            let entry = Entry::Fs {
                provider_idx,
                id,
                op: FsOpKind::Delete,
                before,
                after,
                side_effect,
            };
            &&& undone(e, entry, disk) == (e, HistoryRequest::Restore)
            &&& redone(e, entry, disk).0 == e
            &&& redone(e, entry, disk).1 == match side_effect {
                FsSideEffect::Nothing => HistoryRequest::Nothing,
                FsSideEffect::TrashedFile { original_path, .. } => HistoryRequest::Trash {
                    path: original_path@,
                },
                FsSideEffect::TrashedDir { original_path, .. } => HistoryRequest::Trash {
                    path: original_path@,
                },
                FsSideEffect::RenameOnly { from, .. } => HistoryRequest::Trash { path: from@ },
            }
        }),
{
}

/// Any other change is nothing to undo or redo: one that was made in a folder and
/// deleted nothing, and one whose command or payload is not known.
pub proof fn law_other_changes_stay(e: Editor, entry: Entry, disk: Option<Seq<char>>)
    requires
        !is_line_entry(entry),
        entry matches Entry::Fs { op, .. } ==> op != FsOpKind::Delete,
    ensures
        undone(e, entry, disk) == (e, HistoryRequest::Nothing),
        redone(e, entry, disk) == (e, HistoryRequest::Nothing),
{
}

} // verus!
