//! What holds of edits, and of undoing and redoing them.

use vstd::prelude::*;

use crate::ffon::Node;
use crate::line_laws::{
    all_lines, file_text, law_file_comes_back, law_lines_come_back, law_split_undoes_join,
    lemma_joined_blank, lemma_lines_are_lines, lemma_lines_of_file_text, lemma_pieces_of_one_line,
    lemma_settled_end, lemma_typed_lines, no_crlf, one_line, settled, stripped, uncut, uncut_but,
};
use crate::paths::{parent_path, same_path};
use crate::state::{
    base, changed, clamped, committed, content, deleted, ensured, entered, forgotten, indent_at,
    is_line_entry, lemma_whole_content, line_deleted, line_replaced, lines_inserted, moved, popped,
    proper, pushed, put_back, read, redone, saved, spliced, taken_out, text_appended, text_inserted,
    undone, whole, writing, written, Editor, Ending, HistoryRequest, Request,
};
use crate::tags::{
    display_text, inner, input_text, law_element_leads_to_its_line, law_src_tag_reads_back,
    src_text, srcins_tag,
};
use crate::text::{
    ends_in, indent_of, indent_width, indented, joined, lemma_pieces_nonempty, lines_of, pieces,
    trim_end, trimmed, white_space, without_cr,
};
use crate::timeline::{
    decoded, lemma_commands_differ, trash_entry, trashed_path, Entry, FsSideEffect,
};

verus! {

/// The editor `now` is at the file that `e` wrote: it still has the file open, or
/// it finds on disk what `e` wrote.
pub open spec fn stands(now: Editor, disk: Option<Seq<char>>, e: Editor) -> bool {
    &&& now.path == e.path
    &&& if now.loaded {
        &&& now.lines == saved(e).lines
        &&& now.ending == saved(e).ending
        &&& now.trailing == e.trailing
    } else {
        disk == Some(content(e))
    }
}

/// The editor `back` writes the file as an edit of `e` found it.
pub open spec fn restored(back: Editor, e: Editor) -> bool {
    &&& back.path == e.path
    &&& back.lines == base(e)
    &&& back.ending == Ending::Plain
    &&& back.trailing == e.trailing
}

/// Once an edit is written, the editor has the file open with what was written;
/// and it finds that on disk when it comes back to the file later.
pub proof fn law_written_file_stands(
    e: Editor,
    entry: Option<Entry>,
    later: Editor,
    disk: Option<Seq<char>>,
)
    ensures
        e.loaded ==> stands(written(e, true, entry), disk, e),
        stands(moved(later, e.path), Some(content(e)), e),
{
}

/// What is known of a file that was written are the lines that it was written
/// with, but for carriage returns in front of newlines.
proof fn lemma_saved_whole(e: Editor)
    requires
        e.ending == Ending::Plain,
        all_lines(e.lines),
    ensures
        whole(saved(e)) == stripped(e.lines, e.trailing),
        e.lines.len() > 0 ==> saved(e).ending != Ending::Emptied,
{
    let text = content(e);
    if e.lines.len() > 0 {
        lemma_lines_of_file_text(e.lines, e.trailing);
        let last = e.lines.last();
        assert(one_line(e.lines[e.lines.len() - 1]));
        if !e.trailing && last.len() > 0 {
            assert(text.last() == last[last.len() - 1]);
            assert(last[last.len() - 1] != '\n');
        } else if !e.trailing {
            assert(last =~= Seq::empty());
            if e.lines.len() > 1 {
                lemma_joined_blank(e.lines.drop_last());
                assert(e.lines.drop_last().push(Seq::empty()) =~= e.lines);
            }
        }
        assert(whole(saved(e)) =~= stripped(e.lines, e.trailing));
    } else {
        assert(lines_of(Seq::<char>::empty()) =~= Seq::<Seq<char>>::empty());
        assert(whole(saved(e)) =~= stripped(e.lines, e.trailing));
    }
}

/// Of a file that is written with certain lines those lines are known afterwards,
/// also where the file alone would not tell of an empty one at its end. Only
/// carriage returns in front of newlines are lost.
pub proof fn law_written_lines_are_known(e: Editor)
    requires
        e.ending == Ending::Plain,
        all_lines(e.lines),
    ensures
        whole(saved(e)) == stripped(e.lines, e.trailing),
        proper(saved(e)),
{
    lemma_saved_whole(e);
    crate::state::lemma_saved_is_proper(e);
}

proof fn lemma_stands(now: Editor, disk: Option<Seq<char>>, e: Editor)
    requires
        stands(now, disk, e),
        e.ending == Ending::Plain,
        all_lines(e.lines),
        now.loaded || settled(e.lines, e.trailing),
    ensures
        ensured(now, disk).path == e.path,
        whole(ensured(now, disk)) == stripped(e.lines, e.trailing),
        ensured(now, disk).trailing == e.trailing,
        ensured(now, disk).lines == lines_of(content(e)),
{
    if now.loaded {
        lemma_saved_whole(e);
    } else {
        lemma_settled_end(e.lines, e.trailing);
        law_lines_come_back(e.lines, e.trailing);
        assert(stripped(e.lines, e.trailing) =~= e.lines);
    }
}

/// A line number and a text are read back from the payload that records them,
/// whatever the text holds.
pub proof fn law_payload_reads_back(n: usize, text: Seq<char>)
    ensures
        decoded(Node::Leaf(src_text(n as nat) + text)) == Some((n as nat, text)),
{
    law_src_tag_reads_back(n, text);
}

proof fn lemma_base_lines(e: Editor)
    requires
        all_lines(e.lines),
    ensures
        all_lines(base(e)),
        e.lines.len() <= base(e).len(),
        forall|i: int| 0 <= i < e.lines.len() ==> #[trigger] base(e)[i] == e.lines[i],
{
    assert forall|i: int| 0 <= i < base(e).len() implies one_line(#[trigger] base(e)[i]) by {
        if i < e.lines.len() {
            assert(base(e)[i] == e.lines[i]);
        }
    }
}

/// A deleted line comes back when the deletion is undone: the file is written
/// as it was, with the line as it was, whatever the line holds.
///
/// Left out is a file of which another line loses a carriage return in front of
/// its newline. Where the editor has to read the file again, a file is left out
/// whose other lines are not read back as they were written, such as one without
/// any.
pub proof fn law_deleted_line_comes_back(
    e: Editor,
    i: usize,
    text: Seq<char>,
    entry: Entry,
    now: Editor,
    disk: Option<Seq<char>>,
)
    requires
        all_lines(e.lines),
        line_deleted(e, i as nat).1 == (Request::Write {
            path: e.path,
            content: text,
            entry: Some(entry),
        }),
        uncut(line_deleted(e, i as nat).0.lines, e.trailing),
        stands(now, disk, line_deleted(e, i as nat).0),
        !now.loaded ==> settled(line_deleted(e, i as nat).0.lines, e.trailing),
    ensures
        restored(undone(now, entry, disk).0, e),
        undone(now, entry, disk).1 == (HistoryRequest::Write {
            path: e.path,
            content: content(e),
            failure: "undo delete line: failed to write file"@,
        }),
{
    let after = line_deleted(e, i as nat).0;
    lemma_base_lines(e);
    assert forall|j: int| 0 <= j < after.lines.len() implies one_line(#[trigger] after.lines[j]) by {
        assert(one_line(base(e)[if j < i { j } else { j + 1 }]));
    }
    law_payload_reads_back(i, e.lines[i as int]);
    lemma_stands(now, disk, after);
    assert(stripped(after.lines, e.trailing) =~= after.lines);
    assert(base(e)[i as int] == e.lines[i as int]);
    assert(put_back(after.lines, i as nat, seq![e.lines[i as int]]) =~= base(e));
}

/// A deletion that was undone removes the line again when it is redone: the
/// file is written as the deletion wrote it.
///
/// Left out is a file of which another line loses a carriage return in front of
/// its newline. Where the editor has to read the file again, a file is left out
/// whose lines are not read back as they were written.
pub proof fn law_deleted_line_goes_again(
    e: Editor,
    i: usize,
    text: Seq<char>,
    entry: Entry,
    back: Editor,
    now: Editor,
    disk: Option<Seq<char>>,
)
    requires
        all_lines(e.lines),
        line_deleted(e, i as nat).1 == (Request::Write {
            path: e.path,
            content: text,
            entry: Some(entry),
        }),
        i < lines_of(content(e)).len(),
        uncut_but(base(e), e.trailing, i as int),
        restored(back, e),
        stands(now, disk, back),
        !now.loaded ==> settled(base(e), e.trailing),
    ensures
        redone(now, entry, disk).0.lines == line_deleted(e, i as nat).0.lines,
        redone(now, entry, disk).1 == (HistoryRequest::Write {
            path: e.path,
            content: text,
            failure: "redo delete line: failed to write file"@,
        }),
{
    lemma_base_lines(e);
    law_payload_reads_back(i, e.lines[i as int]);
    lemma_stands(now, disk, back);
    let held = stripped(base(e), e.trailing);
    assert(taken_out(held, i as nat, 1) =~= base(e).remove(i as int));
}

// ---------------------------------------------------------------------------
// Inserting
// ---------------------------------------------------------------------------

/// None of the lines of the file loses a carriage return once others were put in
/// at `c`: none that is then ended by a newline has one at its end.
pub open spec fn uncut_at(e: Editor, c: nat) -> bool {
    let lines = base(e);
    forall|i: int|
        0 <= i < lines.len() && (e.trailing || c == lines.len() || i < lines.len() - 1)
            ==> !ends_in(#[trigger] lines[i], '\r')
}

/// Besides, the last line, where it stays the last, is not lost for being empty.
pub open spec fn separable(e: Editor, c: nat) -> bool {
    &&& uncut_at(e, c)
    &&& c < base(e).len() && !e.trailing ==> base(e).last().len() > 0
}

proof fn lemma_indent_is_line(lines: Seq<Seq<char>>, k: nat)
    requires
        all_lines(lines),
    ensures
        one_line(indent_at(lines, k)),
{
    if k < lines.len() {
        assert(one_line(lines[k as int]));
    } else if lines.len() > 0 {
        assert(one_line(lines[lines.len() - 1]));
    }
}

proof fn lemma_spliced_lines(lines: Seq<Seq<char>>, c: int, new_lines: Seq<Seq<char>>)
    requires
        0 <= c <= lines.len(),
        all_lines(lines),
        all_lines(new_lines),
    ensures
        all_lines(spliced(lines, c, c, new_lines)),
{
    let all = spliced(lines, c, c, new_lines);
    let n = new_lines.len() as int;
    assert forall|i: int| 0 <= i < all.len() implies one_line(#[trigger] all[i]) by {
        if i < c {
            assert(one_line(lines[i]));
        } else if i < c + n {
            assert(one_line(new_lines[i - c]));
        } else {
            assert(one_line(lines[i - n]));
        }
    }
}

/// Once inserted lines were written and the file was read again, taking them
/// out leaves the lines that were there.
proof fn lemma_taken_out(e: Editor, c: nat, new_lines: Seq<Seq<char>>)
    requires
        c <= base(e).len(),
        all_lines(base(e)),
        separable(e, c),
        new_lines.len() > 0,
        all_lines(new_lines),
    ensures
        taken_out(
            lines_of(
                file_text(spliced(base(e), c as int, c as int, new_lines), e.trailing),
            ),
            c,
            new_lines.len(),
        ) == base(e),
{
    let lines = base(e);
    let all = spliced(lines, c as int, c as int, new_lines);
    let n = new_lines.len() as int;
    lemma_spliced_lines(lines, c as int, new_lines);
    lemma_lines_of_file_text(all, e.trailing);
    let back = lines_of(file_text(all, e.trailing));
    assert forall|i: int| 0 <= i < c implies #[trigger] back[i] == lines[i] by {
        assert(all[i] == lines[i]);
    }
    assert(c < lines.len() ==> back.len() == all.len()) by {
        if c < lines.len() {
            assert(all.last() == lines.last());
        }
    }
    assert forall|i: int| c + n <= i < all.len() implies #[trigger] back[i] == lines[i - n] by {
        assert(all[i] == lines[i - n]);
        assert(all.last() == lines.last());
    }
    assert(taken_out(back, c, new_lines.len()) =~= lines);
}

/// The same while the editor has the file open.
proof fn lemma_taken_out_open(e: Editor, c: nat, new_lines: Seq<Seq<char>>)
    requires
        c <= base(e).len(),
        uncut_at(e, c),
        new_lines.len() > 0,
    ensures
        taken_out(
            stripped(spliced(base(e), c as int, c as int, new_lines), e.trailing),
            c,
            new_lines.len(),
        ) == base(e),
{
    let lines = base(e);
    let all = spliced(lines, c as int, c as int, new_lines);
    let held = stripped(all, e.trailing);
    let n = new_lines.len() as int;
    assert forall|i: int| 0 <= i < c implies #[trigger] held[i] == lines[i] by {
        assert(all[i] == lines[i]);
    }
    assert forall|i: int| c + n <= i < all.len() implies #[trigger] held[i] == lines[i - n] by {
        assert(all[i] == lines[i - n]);
    }
    assert(taken_out(held, c, new_lines.len()) =~= lines);
}

proof fn lemma_insert_undone(
    e: Editor,
    c: usize,
    new_lines: Seq<Seq<char>>,
    text: Seq<char>,
    entry: Entry,
    now: Editor,
    disk: Option<Seq<char>>,
)
    requires
        c <= e.lines.len(),
        all_lines(e.lines),
        lines_inserted(e, c as nat, new_lines).1 == (Request::Write {
            path: e.path,
            content: text,
            entry: Some(entry),
        }),
        new_lines.len() > 0,
        all_lines(new_lines),
        uncut_at(e, c as nat),
        stands(now, disk, lines_inserted(e, c as nat, new_lines).0),
        !now.loaded ==> separable(e, c as nat) && ends_in(text, '\n') == e.trailing,
    ensures
        restored(undone(now, entry, disk).0, e),
        undone(now, entry, disk).1 == (HistoryRequest::Write {
            path: e.path,
            content: content(e),
            failure: "undo insert line: failed to write file"@,
        }),
{
    lemma_commands_differ();
    law_payload_reads_back(c, joined(new_lines, '\n'));
    law_split_undoes_join(new_lines);
    lemma_base_lines(e);
    let after = lines_inserted(e, c as nat, new_lines).0;
    if now.loaded {
        lemma_spliced_lines(base(e), c as int, new_lines);
        lemma_saved_whole(after);
        lemma_taken_out_open(e, c as nat, new_lines);
    } else {
        lemma_taken_out(e, c as nat, new_lines);
    }
}

/// Inserted text goes when the insertion is undone: the file is written as it
/// was.
///
/// Left out is a file of which a line loses a carriage return in front of its
/// newline. Where the editor has to read the file again, an insertion is left out
/// that made the file end with a newline where it did not, and one in front of an
/// empty last line without a newline.
pub proof fn law_inserted_text_goes(
    e: Editor,
    k: usize,
    typed: Seq<char>,
    text: Seq<char>,
    entry: Entry,
    now: Editor,
    disk: Option<Seq<char>>,
)
    requires
        all_lines(e.lines),
        text_inserted(e, k as nat, typed).1 == (Request::Write {
            path: e.path,
            content: text,
            entry: Some(entry),
        }),
        uncut_at(e, clamped(k as nat, e.lines.len())),
        stands(now, disk, text_inserted(e, k as nat, typed).0),
        !now.loaded ==> separable(e, clamped(k as nat, e.lines.len())) && ends_in(text, '\n')
            == e.trailing,
    ensures
        restored(undone(now, entry, disk).0, e),
        undone(now, entry, disk).1 == (HistoryRequest::Write {
            path: e.path,
            content: content(e),
            failure: "undo insert line: failed to write file"@,
        }),
{
    let indent = indent_at(e.lines, k as nat);
    let c = clamped(k as nat, e.lines.len());
    lemma_indent_is_line(e.lines, k as nat);
    lemma_typed_lines(typed, indent);
    lemma_insert_undone(e, c as usize, indented(typed, indent), text, entry, now, disk);
}

/// The first text of an empty file, or any other put behind the last line, goes
/// when that is undone; see [`law_inserted_text_goes`].
pub proof fn law_appended_text_goes(
    e: Editor,
    typed: Seq<char>,
    text: Seq<char>,
    entry: Entry,
    now: Editor,
    disk: Option<Seq<char>>,
)
    requires
        all_lines(e.lines),
        e.lines.len() <= usize::MAX,
        text_appended(e, typed).1 == (Request::Write {
            path: e.path,
            content: text,
            entry: Some(entry),
        }),
        uncut_at(e, e.lines.len()),
        stands(now, disk, text_appended(e, typed).0),
        !now.loaded ==> separable(e, e.lines.len()) && ends_in(text, '\n') == e.trailing,
    ensures
        restored(undone(now, entry, disk).0, e),
        undone(now, entry, disk).1 == (HistoryRequest::Write {
            path: e.path,
            content: content(e),
            failure: "undo insert line: failed to write file"@,
        }),
{
    lemma_typed_lines(typed, Seq::empty());
    lemma_insert_undone(
        e,
        e.lines.len() as usize,
        indented(typed, Seq::empty()),
        text,
        entry,
        now,
        disk,
    );
}

proof fn lemma_insert_redone(
    e: Editor,
    c: usize,
    new_lines: Seq<Seq<char>>,
    text: Seq<char>,
    entry: Entry,
    back: Editor,
    now: Editor,
    disk: Option<Seq<char>>,
)
    requires
        c <= e.lines.len(),
        all_lines(e.lines),
        lines_inserted(e, c as nat, new_lines).1 == (Request::Write {
            path: e.path,
            content: text,
            entry: Some(entry),
        }),
        new_lines.len() > 0,
        all_lines(new_lines),
        uncut(base(e), e.trailing),
        restored(back, e),
        stands(now, disk, back),
        !now.loaded ==> settled(base(e), e.trailing),
    ensures
        redone(now, entry, disk).0.lines == lines_inserted(e, c as nat, new_lines).0.lines,
        redone(now, entry, disk).1 == (HistoryRequest::Write {
            path: e.path,
            content: text,
            failure: "redo insert line: failed to write file"@,
        }),
{
    lemma_commands_differ();
    law_payload_reads_back(c, joined(new_lines, '\n'));
    law_split_undoes_join(new_lines);
    lemma_base_lines(e);
    lemma_stands(now, disk, back);
    assert(stripped(base(e), e.trailing) =~= base(e));
}

/// An insertion that was undone puts its text in again when it is redone: the
/// file is written as the insertion wrote it.
///
/// Left out is a file of which a line loses a carriage return in front of its
/// newline. Where the editor has to read the file again, a file is left out whose
/// lines are not read back as they were written.
pub proof fn law_inserted_text_comes_again(
    e: Editor,
    k: usize,
    typed: Seq<char>,
    text: Seq<char>,
    entry: Entry,
    back: Editor,
    now: Editor,
    disk: Option<Seq<char>>,
)
    requires
        all_lines(e.lines),
        text_inserted(e, k as nat, typed).1 == (Request::Write {
            path: e.path,
            content: text,
            entry: Some(entry),
        }),
        uncut(base(e), e.trailing),
        restored(back, e),
        stands(now, disk, back),
        !now.loaded ==> settled(base(e), e.trailing),
    ensures
        redone(now, entry, disk).0.lines == text_inserted(e, k as nat, typed).0.lines,
        redone(now, entry, disk).1 == (HistoryRequest::Write {
            path: e.path,
            content: text,
            failure: "redo insert line: failed to write file"@,
        }),
{
    let indent = indent_at(e.lines, k as nat);
    let c = clamped(k as nat, e.lines.len());
    lemma_indent_is_line(e.lines, k as nat);
    lemma_typed_lines(typed, indent);
    lemma_insert_redone(e, c as usize, indented(typed, indent), text, entry, back, now, disk);
}

/// The first text of an empty file, or any other put behind the last line, comes
/// again when that is redone; see [`law_inserted_text_comes_again`].
pub proof fn law_appended_text_comes_again(
    e: Editor,
    typed: Seq<char>,
    text: Seq<char>,
    entry: Entry,
    back: Editor,
    now: Editor,
    disk: Option<Seq<char>>,
)
    requires
        all_lines(e.lines),
        e.lines.len() <= usize::MAX,
        text_appended(e, typed).1 == (Request::Write {
            path: e.path,
            content: text,
            entry: Some(entry),
        }),
        uncut(base(e), e.trailing),
        restored(back, e),
        stands(now, disk, back),
        !now.loaded ==> settled(base(e), e.trailing),
    ensures
        redone(now, entry, disk).0.lines == text_appended(e, typed).0.lines,
        redone(now, entry, disk).1 == (HistoryRequest::Write {
            path: e.path,
            content: text,
            failure: "redo insert line: failed to write file"@,
        }),
{
    lemma_typed_lines(typed, Seq::empty());
    lemma_insert_redone(
        e,
        e.lines.len() as usize,
        indented(typed, Seq::empty()),
        text,
        entry,
        back,
        now,
        disk,
    );
}

/// An open file that has lines holds them, and what is known behind them.
proof fn lemma_base_is_whole(e: Editor)
    requires
        e.lines.len() > 0,
        e.ending != Ending::Emptied,
    ensures
        base(e) == whole(e),
{
}

/// An inserted line goes when the element of that line is edited to the field
/// it was typed into: the file is written as it was.
///
/// Left out are a file of which a line loses a carriage return in front of its
/// newline, and an empty line behind the last, which is not shown and is no line
/// of the file.
pub proof fn law_inserted_line_taken_back(
    e: Editor,
    k: usize,
    typed: Seq<char>,
    text: Seq<char>,
    entry: Entry,
    now: Editor,
    field: Seq<char>,
    shown: Seq<char>,
)
    requires
        all_lines(e.lines),
        k <= e.lines.len(),
        pieces(typed).len() == 1,
        text_inserted(e, k as nat, typed).1 == (Request::Write {
            path: e.path,
            content: text,
            entry: Some(entry),
        }),
        uncut_at(e, k as nat),
        now.loaded,
        stands(now, None, text_inserted(e, k as nat, typed).0),
        k < now.lines.len(),
        srcins_tag(field) == Some(k as nat),
    ensures
        line_replaced(now, k as nat, field, shown).0.lines == base(e),
        line_replaced(now, k as nat, field, shown).1 == (Request::Write {
            path: e.path,
            content: content(e),
            entry: None,
        }),
{
    let new_lines = indented(typed, indent_at(e.lines, k as nat));
    lemma_base_lines(e);
    lemma_indent_is_line(e.lines, k as nat);
    lemma_typed_lines(typed, indent_at(e.lines, k as nat));
    lemma_spliced_lines(base(e), k as int, new_lines);
    lemma_saved_whole(text_inserted(e, k as nat, typed).0);
    lemma_taken_out_open(e, k as nat, new_lines);
    lemma_base_is_whole(now);
    assert(base(now).remove(k as int) =~= taken_out(whole(now), k as nat, 1));
}

// ---------------------------------------------------------------------------
// Replacing
// ---------------------------------------------------------------------------

/// An edit of the element that shows line `n` reaches line `n`, whatever the
/// line holds.
pub proof fn law_edit_reaches_its_line(
    e: Editor,
    n: usize,
    line: Seq<char>,
    new: Seq<char>,
    at_file: bool,
)
    ensures
        committed(e, input_text(src_text(n as nat) + line), new, at_file) == line_replaced(
            e,
            n as nat,
            inner(new),
            display_text(inner(new)),
        ),
{
    law_element_leads_to_its_line(n, line);
}

/// A deletion of the element that shows line `n` reaches line `n`, whatever the
/// line holds.
pub proof fn law_delete_reaches_its_line(e: Editor, n: usize, line: Seq<char>)
    ensures
        deleted(e, input_text(src_text(n as nat) + line)) == line_deleted(e, n as nat),
{
    law_element_leads_to_its_line(n, line);
}

/// An edit of line `i` leaves every other line as it is: those before it stay in
/// their places, and those behind it follow the lines that were typed.
pub proof fn law_other_lines_stay(e: Editor, i: nat, field: Seq<char>, typed: Seq<char>)
    requires
        i < e.lines.len(),
        srcins_tag(field) is None,
        line_replaced(e, i, field, typed).1 is Write,
    ensures
        line_replaced(e, i, field, typed).0.lines.take(i as int) == e.lines.take(i as int),
        line_replaced(e, i, field, typed).0.lines.skip(
            i as int + indented(typed, indent_of(e.lines[i as int])).len(),
        ) == base(e).skip(i as int + 1),
{
    let new_lines = indented(typed, indent_of(e.lines[i as int]));
    let after = line_replaced(e, i, field, typed).0.lines;
    assert(after.take(i as int) =~= e.lines.take(i as int));
    assert(after.skip((i + new_lines.len()) as int) =~= base(e).skip(i as int + 1));
}

/// A line is its indentation and what is shown of it, when it ends with what is
/// shown.
proof fn lemma_line_parts(line: Seq<char>)
    requires
        line.len() > 0,
        !white_space(line.last()),
    ensures
        line == indent_of(line) + trimmed(line),
        trimmed(line).len() > 0,
        !white_space(trimmed(line)[0]),
        forall|i: int| 0 <= i < indent_of(line).len() ==> white_space(#[trigger] indent_of(line)[i]),
    decreases line.len(),
{
    if white_space(line[0]) {
        let rest = line.skip(1);
        assert(line.len() > 1);
        assert(rest.last() == line.last());
        lemma_line_parts(rest);
        assert(rest.skip(indent_width(rest) as int) =~= line.skip(indent_width(line) as int));
        assert(indent_width(rest) < rest.len()) by {
            if indent_width(rest) >= rest.len() {
                lemma_indent_width_within(rest);
            }
        }
        assert(indent_of(line) =~= seq![line[0]] + indent_of(rest));
        assert(line =~= seq![line[0]] + rest);
        assert(line =~= indent_of(line) + trimmed(line));
        assert forall|i: int| 0 <= i < indent_of(line).len() implies white_space(
            #[trigger] indent_of(line)[i],
        ) by {
            if i > 0 {
                assert(indent_of(line)[i] == indent_of(rest)[i - 1]);
            }
        }
    } else {
        assert(line.skip(0) =~= line);
        assert(trim_end(line) == line);
        assert(indent_of(line) =~= Seq::empty());
        assert(line =~= indent_of(line) + trimmed(line));
    }
}

proof fn lemma_indent_width_within(s: Seq<char>)
    requires
        s.len() > 0,
        indent_width(s) >= s.len(),
    ensures
        white_space(s.last()),
    decreases s.len(),
{
    if s.len() > 1 {
        assert(s.skip(1).last() == s.last());
        lemma_indent_width_within(s.skip(1));
    }
}

/// The indentation of a text is the white space it is put behind.
proof fn lemma_indent_of(indent: Seq<char>, core: Seq<char>)
    requires
        core.len() > 0,
        !white_space(core[0]),
        forall|i: int| 0 <= i < indent.len() ==> white_space(#[trigger] indent[i]),
    ensures
        indent_width(indent + core) == indent.len(),
        indent_of(indent + core) == indent,
    decreases indent.len(),
{
    let s = indent + core;
    if indent.len() == 0 {
        assert(s[0] == core[0]);
    } else {
        assert(s[0] == indent[0]);
        let rest = indent.skip(1);
        assert forall|i: int| 0 <= i < rest.len() implies white_space(#[trigger] rest[i]) by {
            assert(rest[i] == indent[i + 1]);
        }
        lemma_indent_of(rest, core);
        assert(s.skip(1) =~= rest + core);
    }
    assert(indent_of(s) =~= indent);
}

/// What is typed in one line becomes that line behind the indentation.
proof fn lemma_one_typed_line(typed: Seq<char>, indent: Seq<char>)
    requires
        typed.len() > 0,
        one_line(typed),
    ensures
        indented(typed, indent) == seq![indent + typed],
{
    lemma_pieces_of_one_line(typed);
    assert(indented(typed, indent) =~= seq![indent + typed]);
}

proof fn lemma_shown_is_line(line: Seq<char>)
    requires
        line.len() > 0,
        !white_space(line.last()),
        one_line(line),
    ensures
        one_line(trimmed(line)),
{
    lemma_line_parts(line);
    assert forall|i: int| 0 <= i < trimmed(line).len() implies #[trigger] trimmed(line)[i] != '\n' by {
        assert(trimmed(line)[i] == line[indent_of(line).len() + i]);
    }
}

/// A line that is edited to what is shown of it stays as it is: nothing is
/// written, and the edit succeeds.
///
/// Left out is a line with white space at its end, which is not shown and so is
/// lost.
pub proof fn law_unchanged_line_stays(e: Editor, i: nat, field: Seq<char>)
    requires
        i < e.lines.len(),
        one_line(e.lines[i as int]),
        e.lines[i as int].len() > 0,
        !white_space(e.lines[i as int].last()),
        srcins_tag(field) is None,
    ensures
        line_replaced(e, i, field, trimmed(e.lines[i as int])) == (e, Request::Done(true)),
{
    let line = e.lines[i as int];
    lemma_line_parts(line);
    lemma_shown_is_line(line);
    lemma_one_typed_line(trimmed(line), indent_of(line));
}

/// A line that is edited to another is replaced by it.
proof fn lemma_one_line_replaced(
    e: Editor,
    i: nat,
    field: Seq<char>,
    typed: Seq<char>,
    line: Seq<char>,
)
    requires
        i < e.lines.len(),
        srcins_tag(field) is None,
        indented(typed, indent_of(e.lines[i as int])) == seq![line],
        line != e.lines[i as int],
    ensures
        line_replaced(e, i, field, typed) == writing(e, base(e).update(i as int, line), None),
{
    let new_lines = seq![line];
    assert(new_lines != seq![e.lines[i as int]]) by {
        assert(new_lines[0] == line);
        assert(seq![e.lines[i as int]][0] == e.lines[i as int]);
    }
    assert(spliced(base(e), i as int, i as int + 1, new_lines) =~= base(e).update(i as int, line));
}

/// A line that was edited comes back when the element of the new line is edited
/// to what was shown of the old one: the file is written as it was.
///
/// Left out are a line with white space at its end, which is not shown; typed
/// text of more or less than one line, or with white space at its start; an edit
/// that the file does not show; and a file of which another line loses a carriage
/// return in front of its newline.
pub proof fn law_replaced_line_comes_back(
    e: Editor,
    i: nat,
    field: Seq<char>,
    typed: Seq<char>,
    text: Seq<char>,
    now: Editor,
    old_field: Seq<char>,
)
    requires
        all_lines(e.lines),
        i < e.lines.len(),
        e.lines[i as int].len() > 0,
        !white_space(e.lines[i as int].last()),
        typed.len() > 0,
        one_line(typed),
        !white_space(typed[0]),
        srcins_tag(field) is None,
        srcins_tag(old_field) is None,
        line_replaced(e, i, field, typed).1 == (Request::Write {
            path: e.path,
            content: text,
            entry: None,
        }),
        uncut_but(base(e), e.trailing, i as int),
        now.loaded,
        stands(now, None, line_replaced(e, i, field, typed).0),
        now.lines[i as int] != e.lines[i as int],
    ensures
        line_replaced(now, i, old_field, trimmed(e.lines[i as int])).0.lines == base(e),
        line_replaced(now, i, old_field, trimmed(e.lines[i as int])).1 == (Request::Write {
            path: e.path,
            content: content(e),
            entry: None,
        }),
{
    let line = e.lines[i as int];
    let indent = indent_of(line);
    let new_line = indent + typed;
    assert(one_line(line));
    lemma_base_lines(e);
    lemma_line_parts(line);
    lemma_shown_is_line(line);
    lemma_one_typed_line(typed, indent);
    lemma_one_typed_line(trimmed(line), indent);
    if new_line == line {
        assert(line_replaced(e, i, field, typed).1 == Request::Done(true));
    }
    lemma_one_line_replaced(e, i, field, typed, new_line);
    let after = base(e).update(i as int, new_line);
    assert forall|j: int| 0 <= j < after.len() implies one_line(#[trigger] after[j]) by {
        if j != i {
            assert(one_line(base(e)[j]));
        }
    }
    lemma_saved_whole(changed(e, after));
    let held = stripped(after, e.trailing);
    lemma_held_line(now, held, i, indent, typed);
    lemma_base_is_whole(now);
    lemma_one_line_replaced(now, i, old_field, trimmed(line), line);
    assert(held.update(i as int, line) =~= base(e)) by {
        assert forall|j: int| 0 <= j < held.len() && j != i implies held[j] == base(e)[j] by {
            assert(after[j] == base(e)[j]);
        }
    }
}

/// A typed line is a line of the file, indented as it was, though it may have lost
/// a carriage return.
proof fn lemma_held_line(
    now: Editor,
    held: Seq<Seq<char>>,
    i: nat,
    indent: Seq<char>,
    typed: Seq<char>,
)
    requires
        whole(now) == held,
        now.ending != Ending::Emptied,
        i < held.len(),
        held[i as int] == indent + typed || held[i as int] == without_cr(indent + typed),
        typed.len() > 0,
        !white_space(typed[0]),
        forall|j: int| 0 <= j < indent.len() ==> white_space(#[trigger] indent[j]),
    ensures
        i < now.lines.len(),
        now.lines[i as int] == held[i as int],
        indent_of(held[i as int]) == indent,
{
    let core = without_cr(typed);
    if ends_in(typed, '\r') {
        assert(typed.len() > 1);
        assert(core[0] == typed[0]);
        assert((indent + typed).last() == typed.last());
        assert((indent + typed).drop_last() =~= indent + core);
    } else {
        assert((indent + typed).last() == typed.last());
    }
    lemma_indent_of(indent, typed);
    lemma_indent_of(indent, core);
    assert(held[i as int].len() > 0);
}

// ---------------------------------------------------------------------------
// Files
// ---------------------------------------------------------------------------

/// A file that was read and not changed would be written as it was.
///
/// Left out is a file with a carriage return in front of a newline, which is not
/// kept.
pub proof fn law_read_file_is_kept(e: Editor, contents: Seq<char>)
    requires
        no_crlf(contents),
    ensures
        content(read(e, contents)) == contents,
{
    law_file_comes_back(contents);
}

/// A file that was just written has the same lines, and looks the same, when it
/// is read again.
pub proof fn law_written_file_reads_the_same(e: Editor)
    ensures
        read(saved(e), content(e)).lines == saved(e).lines,
        read(saved(e), content(e)).tree == saved(e).tree,
{
}

/// Reading a file that was just written changes nothing.
///
/// Left out is a file whose lines are not read back as they were written.
pub proof fn law_written_file_is_as_read(e: Editor)
    requires
        proper(e),
        e.loaded,
        settled(whole(e), e.trailing),
    ensures
        read(saved(e), content(e)) == saved(e),
{
    lemma_whole_content(e);
    law_lines_come_back(whole(e), e.trailing);
    lemma_settled_end(whole(e), e.trailing);
    if !e.trailing && whole(e).len() > 0 {
        let last = whole(e).last();
        assert(joined(whole(e), '\n').last() == last[last.len() - 1]);
    }
}

/// Lines put in for others make the same file whether they are put into what is
/// known of a file that was written or into what is read of it.
proof fn lemma_same_text(e: Editor, from: int, to: int, new_lines: Seq<Seq<char>>)
    requires
        proper(e),
        0 <= from <= to <= saved(e).lines.len(),
        new_lines.len() > 0 || saved(e).lines.len() > to - from,
    ensures
        file_text(spliced(base(saved(e)), from, to, new_lines), e.trailing) == file_text(
            spliced(saved(e).lines, from, to, new_lines),
            ends_in(content(e), '\n'),
        ),
{
    let here = saved(e);
    let text = content(e);
    let put = spliced(here.lines, from, to, new_lines);
    lemma_whole_content(e);
    if here.ending == Ending::Blank {
        if here.lines.len() > 0 {
            assert(spliced(base(here), from, to, new_lines) =~= put.push(Seq::empty()));
            lemma_joined_blank(put);
            if text.len() == 0 {
                assert(lines_of(text) =~= Seq::<Seq<char>>::empty());
            }
        } else if ends_in(text, '\n') {
            lemma_pieces_nonempty(text.drop_last());
            assert(lines_of(text).len() > 0);
        }
    }
}

/// The next edit starts from the file: a line that is replaced, text that is put
/// in or behind the last line, and a line that is deleted, make the same request
/// after a write as after the file is read again.
///
/// Left out is a deletion of the only line of a file that was written with an
/// empty line behind it; the file is then empty, where it would hold a newline.
pub proof fn law_next_edit_starts_from_the_file(
    e: Editor,
    i: nat,
    field: Seq<char>,
    typed: Seq<char>,
)
    requires
        proper(e),
    ensures
        ({
            let here = saved(e);
            let again = read(saved(e), content(e));
            &&& srcins_tag(field) is None ==> line_replaced(here, i, field, typed).1
                == line_replaced(again, i, field, typed).1
            &&& text_inserted(here, i, typed).1 == text_inserted(again, i, typed).1
            &&& text_appended(here, typed).1 == text_appended(again, typed).1
            &&& here.ending != Ending::Blank || here.lines.len() > 1 ==> line_deleted(here, i).1
                == line_deleted(again, i).1
        }),
{
    let here = saved(e);
    let again = read(here, content(e));
    let count = here.lines.len();
    let c = clamped(i, count);
    let put = indented(typed, indent_at(here.lines, i));
    let behind = indented(typed, Seq::empty());
    lemma_pieces_nonempty(typed);
    lemma_same_text(e, c as int, c as int, put);
    lemma_same_text(e, count as int, count as int, behind);
    if i < count {
        lemma_same_text(
            e,
            i as int,
            i as int + 1,
            indented(typed, indent_of(here.lines[i as int])),
        );
        let nothing = Seq::<Seq<char>>::empty();
        assert(spliced(base(here), i as int, i as int + 1, nothing) =~= base(here).remove(i as int));
        assert(spliced(here.lines, i as int, i as int + 1, nothing) =~= here.lines.remove(i as int));
        if count > 1 {
            lemma_same_text(e, i as int, i as int + 1, nothing);
        } else {
            lemma_whole_content(e);
        }
    }
}

/// A file that was just written would be written as it was.
///
/// Left out is a file with a carriage return in front of a newline, which is not
/// kept.
pub proof fn law_written_file_is_kept(e: Editor)
    requires
        proper(e),
        no_crlf(content(e)),
    ensures
        content(saved(e)) == content(e),
{
    let here = saved(e);
    let text = content(e);
    law_file_comes_back(text);
    if here.lines.len() > 0 {
        lemma_same_text(e, 0, 0, Seq::empty());
        assert(spliced(base(here), 0, 0, Seq::empty()) =~= base(here));
        assert(spliced(here.lines, 0, 0, Seq::empty()) =~= here.lines);
    } else if ends_in(text, '\n') {
        lemma_pieces_nonempty(text.drop_last());
        assert(lines_of(text).len() > 0);
    } else {
        lemma_whole_content(e);
    }
}

/// The lines of a file that was read or written are lines.
pub proof fn law_lines_are_lines(e: Editor, contents: Seq<char>)
    ensures
        all_lines(read(e, contents).lines),
        all_lines(saved(e).lines),
{
    lemma_lines_are_lines(contents);
    lemma_lines_are_lines(content(e));
}

/// What is on disk matters to undoing and redoing only where the editor has not
/// read the open file and the change is one to the lines of a file.
pub proof fn law_disk_matters_only_where_needed(
    e: Editor,
    entry: Entry,
    disk: Option<Seq<char>>,
    other: Option<Seq<char>>,
)
    requires
        e.loaded || !is_line_entry(entry),
    ensures
        undone(e, entry, disk) == undone(e, entry, other),
        redone(e, entry, disk) == redone(e, entry, other),
{
}

/// A deleted file or folder is brought back when the deletion is undone, and
/// goes to the trash from where it stood when that is redone, wherever the user
/// is by then.
pub proof fn law_trashed_item(
    now: Editor,
    name: Seq<char>,
    side_effect: FsSideEffect,
    disk: Option<Seq<char>>,
)
    ensures
        undone(now, trash_entry(name, side_effect), disk) == (now, HistoryRequest::Restore),
        redone(now, trash_entry(name, side_effect), disk) == (
            now,
            match trashed_path(side_effect) {
                Some(path) => HistoryRequest::Trash { path },
                None => HistoryRequest::Nothing,
            },
        ),
{
}

// ---------------------------------------------------------------------------
// Moving about
// ---------------------------------------------------------------------------

/// Going into a section of a file and out again changes nothing.
pub proof fn law_leaving_a_section(e: Editor, shown: Seq<char>)
    ensures
        popped(pushed(e, shown, true)) == e,
{
    assert(popped(pushed(e, shown, true)).sub =~= e.sub);
}

/// Going into a file or folder at `path` and out again leads back to the folder,
/// when the folder is what is around `path` and `path` is not the start folder.
pub proof fn law_leaving_a_folder(e: Editor, path: Seq<char>)
    requires
        e.sub.len() == 0,
        parent_path(path) == Some(e.path),
        !same_path(path, e.root),
    ensures
        popped(entered(e, path)) == forgotten(e),
{
}

} // verus!
