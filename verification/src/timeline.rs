//! The timeline: the record of what can be undone.

use vstd::prelude::*;

use crate::ffon::{node, node_text, FfonElement, Node};
use crate::tags::{extract_src, format_src, inner, inner_text, src_tag, src_text};
use crate::text::{concat, decimal, decimal_text, join, joined, texts};

verus! {

/// A change that can be undone.
#[derive(Debug, PartialEq)]
pub enum TimelineEntry {
    /// A change that the provider itself knows how to take back.
    ProviderOp { provider_idx: usize, command: String, payload: FfonElement, label: String },
    /// A change to the files and folders on disk.
    FsOp {
        provider_idx: usize,
        id: Vec<usize>,
        op: FsOpKind,
        before: Option<FfonElement>,
        after: Option<FfonElement>,
        side_effect: FsSideEffect,
    },
    /// Any other change; none that the editor makes.
    Other,
}

/// What was done to a file or folder.
#[derive(Debug, PartialEq, Eq, Structural, Clone, Copy)]
pub enum FsOpKind {
    Create,
    Rename,
    Delete,
    Move,
    Paste,
}

/// What is kept of a deleted file or folder so that it can be brought back.
#[derive(Debug, PartialEq)]
pub enum FsSideEffect {
    Nothing,
    TrashedFile { original_path: String, content_snapshot: Vec<u8> },
    TrashedDir { original_path: String, content_tree: TrashedTree },
    RenameOnly { from: String, to: String },
}

/// What a deleted file or folder held.
#[derive(Debug, PartialEq)]
pub enum TrashedTree {
    File(Vec<u8>),
    Dir(Vec<(String, TrashedTree)>),
}

// ---------------------------------------------------------------------------
// Model
// ---------------------------------------------------------------------------

/// An entry of the timeline.
pub enum Entry {
    Op { provider_idx: usize, command: Seq<char>, payload: Node, label: Seq<char> },
    Fs {
        provider_idx: usize,
        id: Seq<usize>,
        op: FsOpKind,
        before: Option<Node>,
        after: Option<Node>,
        side_effect: FsSideEffect,
    },
    Other,
}

/// The tree of an element that may be absent.
pub open spec fn optional_node(e: Option<FfonElement>) -> Option<Node> {
    match e {
        Some(e) => Some(node(e)),
        None => None,
    }
}

/// The entry that `e` holds.
pub open spec fn entry_of(e: TimelineEntry) -> Entry {
    match e {
        TimelineEntry::ProviderOp { provider_idx, command, payload, label } => Entry::Op {
            provider_idx,
            command: command@,
            payload: node(payload),
            label: label@,
        },
        TimelineEntry::FsOp { provider_idx, id, op, before, after, side_effect } => Entry::Fs {
            provider_idx,
            id: id@,
            op,
            before: optional_node(before),
            after: optional_node(after),
            side_effect,
        },
        TimelineEntry::Other => Entry::Other,
    }
}

/// The entries of a list.
pub open spec fn entries(list: Seq<TimelineEntry>) -> Seq<Entry> {
    Seq::new(list.len(), |i: int| entry_of(list[i]))
}

/// The line number and the text that the payload of a line entry records: those
/// of its `<src=N>text`, as it is or, where it does not start so, as a field. The
/// text may well hold a field of its own.
pub open spec fn decoded(payload: Node) -> Option<(nat, Seq<char>)> {
    match src_tag(node_text(payload)) {
        Some(found) => Some(found),
        None => src_tag(inner(node_text(payload))),
    }
}

/// The entry for `lines` inserted at line `at`.
pub open spec fn insert_entry(at: nat, lines: Seq<Seq<char>>) -> Entry {
    Entry::Op {
        provider_idx: 0,
        command: "texteditor.insert_lines"@,
        payload: Node::Leaf(src_text(at) + joined(lines, '\n')),
        label: if lines.len() == 1 {
            "insert line "@ + decimal(at + 1)
        } else {
            "insert "@ + decimal(lines.len()) + " lines at "@ + decimal(at + 1)
        },
    }
}

/// The entry for `line`, deleted from line `at`.
pub open spec fn delete_entry(at: nat, line: Seq<char>) -> Entry {
    Entry::Op {
        provider_idx: 0,
        command: "texteditor.delete_line"@,
        payload: Node::Leaf(src_text(at) + line),
        label: "delete line "@ + decimal(at + 1),
    }
}

/// The entry for the file or folder `name`, moved to the trash. It comes back
/// as a section, since the editor lists files and folders alike as sections.
pub open spec fn trash_entry(name: Seq<char>, side_effect: FsSideEffect) -> Entry {
    Entry::Fs {
        provider_idx: 0,
        id: Seq::empty(),
        op: FsOpKind::Delete,
        before: Some(Node::Branch(name, Seq::empty())),
        after: None,
        side_effect,
    }
}

/// Where the file or folder of `side_effect` stood.
pub open spec fn trashed_path(side_effect: FsSideEffect) -> Option<Seq<char>> {
    match side_effect {
        FsSideEffect::Nothing => None,
        FsSideEffect::TrashedFile { original_path, .. } => Some(original_path@),
        FsSideEffect::TrashedDir { original_path, .. } => Some(original_path@),
        FsSideEffect::RenameOnly { from, .. } => Some(from@),
    }
}

/// An entry put behind a list goes behind its entries.
pub proof fn lemma_entries_push(list: Seq<TimelineEntry>, e: TimelineEntry)
    ensures
        entries(list.push(e)) == entries(list).push(entry_of(e)),
{
    assert(entries(list.push(e)) =~= entries(list).push(entry_of(e)));
}

/// The two commands for lines are told apart.
pub proof fn lemma_commands_differ()
    ensures
        "texteditor.delete_line"@ != "texteditor.insert_lines"@,
{
    reveal_strlit("texteditor.delete_line");
    reveal_strlit("texteditor.insert_lines");
    assert("texteditor.delete_line"@.len() != "texteditor.insert_lines"@.len());
}

// ---------------------------------------------------------------------------
// Entries
// ---------------------------------------------------------------------------

/// The line number and the text that the payload of a line entry records.
pub fn decode_line_payload(payload: &FfonElement) -> (r: Option<(usize, String)>)
    ensures
        match r {
            Some(found) => decoded(node(*payload)) == Some((found.0 as nat, found.1@)),
            None => decoded(node(*payload)) is None,
        },
{
    match extract_src(payload.text()) {
        Some(found) => Some(found),
        None => {
            let text = inner_text(payload.text());
            extract_src(text.as_str())
        },
    }
}

/// The entry for `lines` inserted at line `at`.
pub(crate) fn insert_lines_entry(at: usize, lines: &Vec<String>) -> (r: TimelineEntry)
    ensures
        entry_of(r) == insert_entry(at as nat, texts(lines@)),
{
    let text = join(lines, '\n');
    let payload = concat(format_src(at).as_str(), text.as_str());
    let place = decimal_text(at as u128 + 1);
    let label = if lines.len() == 1 {
        concat("insert line ", place.as_str())
    } else {
        let count = concat("insert ", decimal_text(lines.len() as u128).as_str());
        concat(concat(count.as_str(), " lines at ").as_str(), place.as_str())
    };
    TimelineEntry::ProviderOp {
        provider_idx: 0,
        command: "texteditor.insert_lines".to_owned(),
        payload: FfonElement::new_str(payload),
        label,
    }
}

/// The entry for `line`, deleted from line `at`.
pub(crate) fn delete_line_entry(at: usize, line: &str) -> (r: TimelineEntry)
    ensures
        entry_of(r) == delete_entry(at as nat, line@),
{
    let payload = concat(format_src(at).as_str(), line);
    let place = decimal_text(at as u128 + 1);
    TimelineEntry::ProviderOp {
        provider_idx: 0,
        command: "texteditor.delete_line".to_owned(),
        payload: FfonElement::new_str(payload),
        label: concat("delete line ", place.as_str()),
    }
}

/// The entry for the file or folder `name`, moved to the trash.
pub(crate) fn trashed_entry(name: &str, side_effect: FsSideEffect) -> (r: TimelineEntry)
    ensures
        entry_of(r) == trash_entry(name@, side_effect),
{
    TimelineEntry::FsOp {
        provider_idx: 0,
        id: Vec::new(),
        op: FsOpKind::Delete,
        before: Some(FfonElement::new_obj(name.to_owned())),
        after: None,
        side_effect,
    }
}

/// Where the file or folder of `side_effect` stood.
pub(crate) fn path_of(side_effect: &FsSideEffect) -> (r: Option<&String>)
    ensures
        match r {
            Some(path) => trashed_path(*side_effect) == Some(path@),
            None => trashed_path(*side_effect) is None,
        },
{
    match side_effect {
        FsSideEffect::Nothing => None,
        FsSideEffect::TrashedFile { original_path, .. } => Some(original_path),
        FsSideEffect::TrashedDir { original_path, .. } => Some(original_path),
        FsSideEffect::RenameOnly { from, .. } => Some(from),
    }
}

} // verus!
