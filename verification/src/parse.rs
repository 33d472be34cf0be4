//! Files as element trees.
//!
//! A file is read line by line; blank lines show nothing, and every other line
//! that is shown becomes one element whose text is the trimmed line with the
//! `<src=N>` of its 0-based position in front, so that an edit of the element
//! finds its line again. Which lines open a section, and where the section
//! ends, depends on the kind of file (see [`parse_file_ext`]).

use vstd::prelude::*;

use crate::ffon::{lemma_nodes_append, lemma_nodes_index, lemma_nodes_push, node, nodes};
use crate::ffon::{node_text, FfonElement, FfonObject, Node};
use crate::tags::{display_text, format_src, reads, src_text, strip_display};
use crate::text::{
    concat, ends_with, measure_indent, same, split_lines, starts_with, to_ascii_lowercase, trim,
};
use crate::text::{ends_in, indent_width, lines_of, lower_ascii, starts_in, texts, trimmed};

verus! {

// ---------------------------------------------------------------------------
// Model
// ---------------------------------------------------------------------------

/// Line `i` as it is shown: its source tag and the trimmed line.
pub open spec fn annotated(lines: Seq<Seq<char>>, i: int) -> Seq<char> {
    src_text(i as nat) + trimmed(lines[i])
}

/// A section named `key`. One without children has nothing to enter and is
/// shown as a leaf.
pub open spec fn section(key: Seq<char>, children: Seq<Node>) -> Node {
    if children.len() == 0 {
        Node::Leaf(key)
    } else {
        Node::Branch(key, children)
    }
}

/// `first`, then what was read behind it.
pub open spec fn prepend(first: Seq<Node>, rest: (Seq<Node>, int)) -> (Seq<Node>, int) {
    (first + rest.0, rest.1)
}

/// Line `j`, from which reading goes on behind line `i`.
pub open spec fn behind(lines: Seq<Seq<char>>, i: int, j: int) -> int {
    if i < j <= lines.len() {
        j
    } else {
        i + 1
    }
}

/// The elements of a block of a generic file from line `i` on, and the line
/// where reading stopped.
///
/// A line that ends with `:` names a section; the section's children are the
/// block in braces, each on a line of its own, if one follows at once. A line
/// `}` ends the block, and is part of it only within braces.
pub open spec fn ffon_block(lines: Seq<Seq<char>>, i: int, inside_braces: bool) -> (Seq<Node>, int)
    decreases lines.len() - i,
{
    if i >= lines.len() {
        (Seq::empty(), i)
    } else if trimmed(lines[i]) == "}"@ {
        (
            Seq::empty(),
            if inside_braces {
                i + 1
            } else {
                i
            },
        )
    } else if trimmed(lines[i]).len() == 0 {
        ffon_block(lines, i + 1, inside_braces)
    } else {
        let (children, next) = if opens_braces(lines, i) {
            ffon_block(lines, i + 2, true)
        } else {
            (Seq::empty(), i + 1)
        };
        prepend(
            seq![section(annotated(lines, i), children)],
            ffon_block(lines, behind(lines, i, next), inside_braces),
        )
    }
}

/// The elements of a generic file from line `i` on. A line `}` that closes
/// nothing is a line like any other.
pub open spec fn ffon_file(lines: Seq<Seq<char>>, i: int) -> Seq<Node>
    decreases lines.len() - i,
{
    let (list, next) = ffon_block(lines, i, false);
    if i <= next < lines.len() {
        list + seq![Node::Leaf(annotated(lines, next))] + ffon_file(lines, next + 1)
    } else {
        list
    }
}

/// Line `i` names a section, and the next line opens its braces.
pub open spec fn opens_braces(lines: Seq<Seq<char>>, i: int) -> bool {
    &&& ends_in(trimmed(lines[i]), ':')
    &&& i + 1 < lines.len()
    &&& trimmed(lines[i + 1]) == "{"@
}

/// The elements of a block of a C-family file from line `i` on, and the line
/// where reading stopped.
///
/// A line that ends with `{` opens a section, up to the line that starts with
/// `}`; that closing line, and what it continues (`} else {`), stand beside the
/// section. At the top level a closing line that closes nothing is skipped.
pub open spec fn cbrace_block(lines: Seq<Seq<char>>, i: int, top_level: bool) -> (Seq<Node>, int)
    decreases lines.len() - i, 1int,
{
    if i >= lines.len() {
        (Seq::empty(), i)
    } else if trimmed(lines[i]).len() == 0 {
        cbrace_block(lines, i + 1, top_level)
    } else if starts_in(trimmed(lines[i]), '}') {
        if top_level {
            cbrace_block(lines, i + 1, top_level)
        } else {
            (Seq::empty(), i)
        }
    } else if ends_in(trimmed(lines[i]), '{') {
        let (children, end) = cbrace_block(lines, i + 1, false);
        let (closing, next) = cbrace_closing(lines, behind(lines, i, end));
        prepend(
            seq![section(annotated(lines, i), children)] + closing,
            cbrace_block(lines, behind(lines, i, next), top_level),
        )
    } else {
        prepend(seq![Node::Leaf(annotated(lines, i))], cbrace_block(lines, i + 1, top_level))
    }
}

/// The closing line at `i` of a C-family section, with the sections that it
/// continues, and the line behind them. Nothing when line `i` closes nothing.
pub open spec fn cbrace_closing(lines: Seq<Seq<char>>, i: int) -> (Seq<Node>, int)
    decreases lines.len() - i, 0int,
{
    if i >= lines.len() || !starts_in(trimmed(lines[i]), '}') {
        (Seq::empty(), i)
    } else if ends_in(trimmed(lines[i]), '{') {
        let (children, end) = cbrace_block(lines, i + 1, false);
        prepend(
            seq![section(annotated(lines, i), children)],
            cbrace_closing(lines, behind(lines, i, end)),
        )
    } else {
        (seq![Node::Leaf(annotated(lines, i))], i + 1)
    }
}

/// The indentation of the first line at or after `i` that is not blank; 0 when
/// there is none.
pub open spec fn next_indent(lines: Seq<Seq<char>>, i: int) -> nat
    decreases lines.len() - i,
{
    if i >= lines.len() {
        0
    } else if trimmed(lines[i]).len() == 0 {
        next_indent(lines, i + 1)
    } else {
        indent_width(lines[i])
    }
}

/// The elements of a block of a Python file from line `i` on, and the line
/// where reading stopped: the first that is indented less than `base`.
///
/// A line that ends with `:` opens a section when the next line that is not
/// blank is indented more; the section holds the lines indented at least as
/// much as that one.
pub open spec fn python_block(lines: Seq<Seq<char>>, i: int, base: nat) -> (Seq<Node>, int)
    decreases lines.len() - i,
{
    if i >= lines.len() {
        (Seq::empty(), i)
    } else if trimmed(lines[i]).len() == 0 {
        python_block(lines, i + 1, base)
    } else if indent_width(lines[i]) < base {
        (Seq::empty(), i)
    } else {
        let (children, next) = if ends_in(trimmed(lines[i]), ':') && next_indent(lines, i + 1)
            > indent_width(lines[i]) {
            python_block(lines, i + 1, next_indent(lines, i + 1))
        } else {
            (Seq::empty(), i + 1)
        };
        prepend(
            seq![section(annotated(lines, i), children)],
            python_block(lines, behind(lines, i, next), base),
        )
    }
}

// ---------------------------------------------------------------------------
// Building elements
// ---------------------------------------------------------------------------

/// Line `i`, trimmed to `line`, as it is shown.
fn annotate(i: usize, line: &str) -> (r: String)
    ensures
        r@ == src_text(i as nat) + line@,
{
    concat(format_src(i).as_str(), line)
}

/// A section, or a leaf when it has no children.
fn make_section(key: String, children: Vec<FfonElement>) -> (r: FfonElement)
    ensures
        node(r) == section(key@, nodes(children@)),
{
    proof {
        lemma_nodes_index(children@);
    }
    if children.is_empty() {
        FfonElement::Str(key)
    } else {
        FfonElement::Obj(FfonObject { key, children })
    }
}

/// Reading on from `i`, behind `done`, after one more element has been read.
proof fn lemma_read_on(
    whole: (Seq<Node>, int),
    done: Seq<Node>,
    first: Seq<Node>,
    rest: (Seq<Node>, int),
)
    requires
        whole == prepend(done, prepend(first, rest)),
    ensures
        whole == prepend(done + first, rest),
{
    assert(done + (first + rest.0) =~= (done + first) + rest.0);
}

// ---------------------------------------------------------------------------
// Generic files
// ---------------------------------------------------------------------------

fn parse_ffon_block(lines: &Vec<String>, start: usize, inside_braces: bool) -> (r: (
    Vec<FfonElement>,
    usize,
))
    requires
        start <= lines@.len(),
    ensures
        (nodes(r.0@), r.1 as int) == ffon_block(texts(lines@), start as int, inside_braces),
        start <= r.1 <= lines@.len(),
    decreases lines@.len() - start,
{
    let ghost all = texts(lines@);
    let ghost whole = ffon_block(all, start as int, inside_braces);
    let mut result: Vec<FfonElement> = Vec::new();
    let mut i: usize = start;
    proof {
        assert(nodes(result@) + whole.0 =~= whole.0);
    }
    while i < lines.len()
        invariant
            start <= i <= lines@.len(),
            all == texts(lines@),
            whole == ffon_block(all, start as int, inside_braces),
            whole == prepend(nodes(result@), ffon_block(all, i as int, inside_braces)),
        decreases lines@.len() - i,
    {
        let src_line = i;
        let line = trim(lines[i].as_str());
        if same(line.as_str(), "}") {
            proof {
                assert(nodes(result@) + Seq::<Node>::empty() =~= nodes(result@));
            }
            if inside_braces {
                i += 1;
            }
            return (result, i);
        }
        if line.as_str().is_empty() {
            i += 1;
            continue;
        }
        i += 1;
        let mut children: Vec<FfonElement> = Vec::new();
        if ends_with(line.as_str(), ':') && i < lines.len() && same(
            trim(lines[i].as_str()).as_str(),
            "{",
        ) {
            let (body, next) = parse_ffon_block(lines, i + 1, true);
            children = body;
            i = next;
        }
        let element = make_section(annotate(src_line, line.as_str()), children);
        proof {
            let first = seq![node(element)];
            lemma_read_on(whole, nodes(result@), first, ffon_block(all, i as int, inside_braces));
            lemma_nodes_push(result@, element);
            assert(nodes(result@) + first =~= nodes(result@).push(node(element)));
        }
        result.push(element);
    }
    proof {
        assert(nodes(result@) + Seq::<Node>::empty() =~= nodes(result@));
    }
    (result, i)
}

// ---------------------------------------------------------------------------
// C-family files
// ---------------------------------------------------------------------------

fn parse_cbrace_block(lines: &Vec<String>, start: usize, top_level: bool) -> (r: (
    Vec<FfonElement>,
    usize,
))
    requires
        start <= lines@.len(),
    ensures
        (nodes(r.0@), r.1 as int) == cbrace_block(texts(lines@), start as int, top_level),
        start <= r.1 <= lines@.len(),
    decreases lines@.len() - start, 1int,
{
    let ghost all = texts(lines@);
    let ghost whole = cbrace_block(all, start as int, top_level);
    let mut result: Vec<FfonElement> = Vec::new();
    let mut i: usize = start;
    proof {
        assert(nodes(result@) + whole.0 =~= whole.0);
    }
    while i < lines.len()
        invariant
            start <= i <= lines@.len(),
            all == texts(lines@),
            whole == cbrace_block(all, start as int, top_level),
            whole == prepend(nodes(result@), cbrace_block(all, i as int, top_level)),
        decreases lines@.len() - i,
    {
        let src_line = i;
        let line = trim(lines[i].as_str());
        if line.as_str().is_empty() {
            i += 1;
            continue;
        }
        if starts_with(line.as_str(), '}') {
            if top_level {
                i += 1;
                continue;
            }
            // The caller puts the closing line beside the section.
            proof {
                assert(nodes(result@) + Seq::<Node>::empty() =~= nodes(result@));
            }
            return (result, i);
        }
        i += 1;
        let key = annotate(src_line, line.as_str());
        if ends_with(line.as_str(), '{') {
            let (children, end) = parse_cbrace_block(lines, i, false);
            let (mut closing, next) = parse_cbrace_closing(lines, end);
            i = next;
            let element = make_section(key, children);
            proof {
                let first = seq![node(element)] + nodes(closing@);
                lemma_read_on(whole, nodes(result@), first, cbrace_block(all, i as int, top_level));
                lemma_nodes_push(result@, element);
                lemma_nodes_append(result@.push(element), closing@);
                assert(nodes(result@) + first =~= nodes(result@).push(node(element)) + nodes(
                    closing@,
                ));
            }
            result.push(element);
            result.append(&mut closing);
        } else {
            let element = FfonElement::Str(key);
            proof {
                let first = seq![node(element)];
                lemma_read_on(whole, nodes(result@), first, cbrace_block(all, i as int, top_level));
                lemma_nodes_push(result@, element);
                assert(nodes(result@) + first =~= nodes(result@).push(node(element)));
            }
            result.push(element);
        }
    }
    proof {
        assert(nodes(result@) + Seq::<Node>::empty() =~= nodes(result@));
    }
    (result, i)
}

/// The closing line at `start`, with the sections that it continues.
fn parse_cbrace_closing(lines: &Vec<String>, start: usize) -> (r: (Vec<FfonElement>, usize))
    requires
        start <= lines@.len(),
    ensures
        (nodes(r.0@), r.1 as int) == cbrace_closing(texts(lines@), start as int),
        start <= r.1 <= lines@.len(),
    decreases lines@.len() - start, 0int,
{
    let ghost all = texts(lines@);
    let ghost whole = cbrace_closing(all, start as int);
    let mut result: Vec<FfonElement> = Vec::new();
    let mut i: usize = start;
    proof {
        assert(nodes(result@) + whole.0 =~= whole.0);
    }
    while i < lines.len()
        invariant
            start <= i <= lines@.len(),
            all == texts(lines@),
            whole == cbrace_closing(all, start as int),
            whole == prepend(nodes(result@), cbrace_closing(all, i as int)),
        decreases lines@.len() - i,
    {
        let src_line = i;
        let line = trim(lines[i].as_str());
        if !starts_with(line.as_str(), '}') {
            proof {
                assert(nodes(result@) + Seq::<Node>::empty() =~= nodes(result@));
            }
            return (result, i);
        }
        i += 1;
        let key = annotate(src_line, line.as_str());
        if ends_with(line.as_str(), '{') {
            let (children, end) = parse_cbrace_block(lines, i, false);
            i = end;
            let element = make_section(key, children);
            proof {
                let first = seq![node(element)];
                lemma_read_on(whole, nodes(result@), first, cbrace_closing(all, i as int));
                lemma_nodes_push(result@, element);
                assert(nodes(result@) + first =~= nodes(result@).push(node(element)));
            }
            result.push(element);
        } else {
            let element = FfonElement::Str(key);
            proof {
                lemma_nodes_push(result@, element);
                assert(nodes(result@) + seq![node(element)] =~= nodes(result@).push(node(element)));
            }
            result.push(element);
            return (result, i);
        }
    }
    proof {
        assert(nodes(result@) + Seq::<Node>::empty() =~= nodes(result@));
    }
    (result, i)
}

// ---------------------------------------------------------------------------
// Python files
// ---------------------------------------------------------------------------

/// The indentation of the first line at or after `start` that is not blank.
fn following_indent(lines: &Vec<String>, start: usize) -> (r: usize)
    requires
        start <= lines@.len(),
    ensures
        r == next_indent(texts(lines@), start as int),
{
    let mut j: usize = start;
    while j < lines.len() && trim(lines[j].as_str()).as_str().is_empty()
        invariant
            start <= j <= lines@.len(),
            next_indent(texts(lines@), start as int) == next_indent(texts(lines@), j as int),
        decreases lines@.len() - j,
    {
        j += 1;
    }
    if j < lines.len() {
        measure_indent(lines[j].as_str())
    } else {
        0
    }
}

fn parse_python_block(lines: &Vec<String>, start: usize, base_indent: usize) -> (r: (
    Vec<FfonElement>,
    usize,
))
    requires
        start <= lines@.len(),
    ensures
        (nodes(r.0@), r.1 as int) == python_block(
            texts(lines@),
            start as int,
            base_indent as nat,
        ),
        start <= r.1 <= lines@.len(),
    decreases lines@.len() - start,
{
    let ghost all = texts(lines@);
    let ghost base = base_indent as nat;
    let ghost whole = python_block(all, start as int, base);
    let mut result: Vec<FfonElement> = Vec::new();
    let mut i: usize = start;
    proof {
        assert(nodes(result@) + whole.0 =~= whole.0);
    }
    while i < lines.len()
        invariant
            start <= i <= lines@.len(),
            all == texts(lines@),
            base == base_indent as nat,
            whole == python_block(all, start as int, base),
            whole == prepend(nodes(result@), python_block(all, i as int, base)),
        decreases lines@.len() - i,
    {
        let src_line = i;
        let line = trim(lines[i].as_str());
        if line.as_str().is_empty() {
            i += 1;
            continue;
        }
        let indent = measure_indent(lines[i].as_str());
        if indent < base_indent {
            proof {
                assert(nodes(result@) + Seq::<Node>::empty() =~= nodes(result@));
            }
            return (result, i);
        }
        i += 1;
        let mut children: Vec<FfonElement> = Vec::new();
        if ends_with(line.as_str(), ':') {
            let child_indent = following_indent(lines, i);
            if child_indent > indent {
                let (body, next) = parse_python_block(lines, i, child_indent);
                children = body;
                i = next;
            }
        }
        let element = make_section(annotate(src_line, line.as_str()), children);
        proof {
            let first = seq![node(element)];
            lemma_read_on(whole, nodes(result@), first, python_block(all, i as int, base));
            lemma_nodes_push(result@, element);
            assert(nodes(result@) + first =~= nodes(result@).push(node(element)));
        }
        result.push(element);
    }
    proof {
        assert(nodes(result@) + Seq::<Node>::empty() =~= nodes(result@));
    }
    (result, i)
}

// ---------------------------------------------------------------------------
// Whole files
// ---------------------------------------------------------------------------

/// The extensions, in lower case, of files whose sections are indented.
pub open spec fn python_ext(ext: Seq<char>) -> bool {
    ext == "py"@ || ext == "pyw"@ || ext == "pyi"@
}

/// The extensions, in lower case, of files whose sections stand in braces.
pub open spec fn cbrace_ext(ext: Seq<char>) -> bool {
    ||| ext == "c"@ || ext == "h"@ || ext == "cpp"@ || ext == "cxx"@ || ext == "cc"@
    ||| ext == "hpp"@ || ext == "hxx"@
    ||| ext == "js"@ || ext == "jsx"@ || ext == "mjs"@ || ext == "cjs"@
    ||| ext == "ts"@ || ext == "tsx"@
    ||| ext == "java"@ || ext == "go"@ || ext == "cs"@ || ext == "swift"@ || ext == "kt"@
    ||| ext == "kts"@
    ||| ext == "rs"@ || ext == "php"@ || ext == "css"@ || ext == "scss"@ || ext == "less"@
}

/// The elements of a file with the lines `lines` and the extension `ext`.
pub open spec fn file_tree(lines: Seq<Seq<char>>, ext: Seq<char>) -> Seq<Node> {
    let lower = ext.map_values(|c: char| lower_ascii(c));
    if python_ext(lower) {
        python_block(lines, 0, 0).0
    } else if cbrace_ext(lower) {
        cbrace_block(lines, 0, true).0
    } else {
        ffon_file(lines, 0)
    }
}

fn is_python_ext(ext: &str) -> (r: bool)
    ensures
        r == python_ext(ext@),
{
    same(ext, "py") || same(ext, "pyw") || same(ext, "pyi")
}

fn is_cbrace_ext(ext: &str) -> (r: bool)
    ensures
        r == cbrace_ext(ext@),
{
    same(ext, "c") || same(ext, "h") || same(ext, "cpp") || same(ext, "cxx") || same(ext, "cc")
        || same(ext, "hpp") || same(ext, "hxx") || same(ext, "js") || same(ext, "jsx") || same(
        ext,
        "mjs",
    ) || same(ext, "cjs") || same(ext, "ts") || same(ext, "tsx") || same(ext, "java") || same(
        ext,
        "go",
    ) || same(ext, "cs") || same(ext, "swift") || same(ext, "kt") || same(ext, "kts") || same(
        ext,
        "rs",
    ) || same(ext, "php") || same(ext, "css") || same(ext, "scss") || same(ext, "less")
}

fn parse_python(contents: &str) -> (r: Vec<FfonElement>)
    ensures
        nodes(r@) == python_block(lines_of(contents@), 0, 0).0,
{
    parse_python_block(&split_lines(contents), 0, 0).0
}

fn parse_cbrace(contents: &str) -> (r: Vec<FfonElement>)
    ensures
        nodes(r@) == cbrace_block(lines_of(contents@), 0, true).0,
{
    parse_cbrace_block(&split_lines(contents), 0, true).0
}

/// The elements of a file by the generic rules: a line ending with `:` names a
/// section, and the `{ … }` block behind it holds the section's children. Every
/// other line that is not blank, a brace of no section too, is a leaf.
pub fn parse_file(contents: &str) -> (r: Vec<FfonElement>)
    ensures
        nodes(r@) == ffon_file(lines_of(contents@), 0),
{
    let lines = split_lines(contents);
    let ghost all = texts(lines@);
    let (mut result, mut i) = parse_ffon_block(&lines, 0, false);
    proof {
        if i >= all.len() {
            assert(nodes(result@) + Seq::<Node>::empty() =~= nodes(result@));
        } else {
            let rest = seq![Node::Leaf(annotated(all, i as int))] + ffon_file(all, i + 1);
            assert(ffon_file(all, 0) =~= nodes(result@) + rest);
        }
    }
    while i < lines.len()
        invariant
            i <= lines@.len(),
            all == texts(lines@),
            ffon_file(all, 0) == nodes(result@) + if i < all.len() {
                seq![Node::Leaf(annotated(all, i as int))] + ffon_file(all, i + 1)
            } else {
                Seq::empty()
            },
        decreases lines@.len() - i,
    {
        let ghost at = i as int;
        let line = trim(lines[i].as_str());
        let stray = FfonElement::new_str(annotate(i, line.as_str()));
        let ghost first = seq![node(stray)];
        let ghost before = nodes(result@);
        proof {
            lemma_nodes_push(result@, stray);
            assert(before + first =~= before.push(node(stray)));
        }
        result.push(stray);
        let (mut list, next) = parse_ffon_block(&lines, i + 1, false);
        let ghost read = nodes(list@);
        proof {
            lemma_nodes_append(result@, list@);
        }
        result.append(&mut list);
        i = next;
        proof {
            assert(nodes(result@) == before + first + read);
            if i < all.len() {
                let rest = seq![Node::Leaf(annotated(all, i as int))] + ffon_file(all, i + 1);
                assert(ffon_file(all, at + 1) =~= read + rest);
                assert(before + (first + (read + rest)) =~= before + first + read + rest);
            } else {
                assert(before + (first + read) =~= before + first + read + Seq::<Node>::empty());
            }
        }
    }
    assert(nodes(result@) + Seq::<Node>::empty() =~= nodes(result@));
    result
}

/// The elements of a file, by the rules for its extension:
///
/// - `.py`, `.pyw`, `.pyi`: sections by indentation, opened by `line:`;
/// - C-family (`.c`, `.h`, `.rs`, `.js`, `.ts`, …): sections in braces, opened
///   by `line {` and closed by `}`;
/// - anything else: the generic rules of [`parse_file`].
///
/// The text of every element starts with `<src=N>`, where `N` is the 0-based
/// position of its line in the file.
pub fn parse_file_ext(contents: &str, ext: &str) -> (r: Vec<FfonElement>)
    ensures
        nodes(r@) == file_tree(lines_of(contents@), ext@),
{
    let lower = to_ascii_lowercase(ext);
    if is_python_ext(lower.as_str()) {
        parse_python(contents)
    } else if is_cbrace_ext(lower.as_str()) {
        parse_cbrace(contents)
    } else {
        parse_file(contents)
    }
}

// ---------------------------------------------------------------------------
// Finding a section
// ---------------------------------------------------------------------------

/// The first section of `list`, at or after `k`, that the user sees as `name`.
pub open spec fn section_named(list: Seq<Node>, name: Seq<char>, k: int) -> Option<int>
    decreases list.len() - k,
{
    if k >= list.len() {
        None
    } else if list[k] is Branch && display_text(node_text(list[k])) == name {
        Some(k)
    } else {
        section_named(list, name, k + 1)
    }
}

/// What `list` holds at `path`: the children of its first section of that name,
/// and so on; nothing when there is no such section.
pub open spec fn navigated(list: Seq<Node>, path: Seq<Seq<char>>) -> Seq<Node>
    decreases path.len(),
{
    if path.len() == 0 {
        list
    } else {
        match section_named(list, path[0], 0) {
            Some(i) => navigated(list[i]->Branch_1, path.skip(1)),
            None => Seq::empty(),
        }
    }
}

/// Looking for `name` in `list`, every section that is looked at is seen as the
/// line that its key shows, where it shows one in which no tag is opened.
pub open spec fn keys_read(list: Seq<Node>, name: Seq<char>) -> bool {
    forall|i: int, line: Seq<char>|
        0 <= i < list.len() && list[i] is Branch && #[trigger] reads(node_text(list[i]), line) && (
        section_named(list, name, 0) matches Some(j) ==> i <= j) ==> display_text(
            node_text(list[i]),
        ) == line
}

/// The same at every level of `path`.
pub open spec fn path_read(list: Seq<Node>, path: Seq<Seq<char>>) -> bool
    decreases path.len(),
{
    path.len() > 0 ==> {
        &&& keys_read(list, path[0])
        &&& match section_named(list, path[0], 0) {
            Some(i) => path_read(list[i]->Branch_1, path.skip(1)),
            None => true,
        }
    }
}

/// A section whose key is seen as a line is found by that line, unless one
/// before it is.
pub open spec fn found_by_line(list: Seq<Node>, line: Seq<char>) -> bool {
    forall|i: int|
        0 <= i < list.len() && list[i] is Branch && #[trigger] reads(node_text(list[i]), line) ==> (
        section_named(list, line, 0) matches Some(j) && j <= i)
}

proof fn lemma_section_named(list: Seq<Node>, name: Seq<char>, k: int)
    requires
        0 <= k,
    ensures
        match section_named(list, name, k) {
            Some(j) => k <= j < list.len() && forall|i: int|
                k <= i < j && #[trigger] list[i] is Branch ==> display_text(node_text(list[i]))
                    != name,
            None => forall|i: int|
                k <= i < list.len() && #[trigger] list[i] is Branch ==> display_text(
                    node_text(list[i]),
                ) != name,
        },
    decreases list.len() - k,
{
    if k < list.len() && !(list[k] is Branch && display_text(node_text(list[k])) == name) {
        lemma_section_named(list, name, k + 1);
    }
}

/// The elements at `path` within `elements`: each part of the path names a
/// section by what the user sees of its key.
///
/// A section is found by the line that its key shows, where no tag is opened in
/// that line.
pub fn navigate_path<'a>(elements: &'a [FfonElement], path: &[String]) -> (r: &'a [FfonElement])
    ensures
        nodes(r@) == navigated(nodes(elements@), texts(path@)),
        path_read(nodes(elements@), texts(path@)),
        path@.len() > 0 ==> found_by_line(nodes(elements@), path@[0]@),
{
    assert(texts(path@).skip(0) =~= texts(path@));
    let r = navigate_from(elements, path, 0);
    proof {
        if path@.len() > 0 {
            lemma_section_named(nodes(elements@), path@[0]@, 0);
        }
    }
    r
}

fn navigate_from<'a>(elements: &'a [FfonElement], path: &[String], from: usize) -> (r:
    &'a [FfonElement])
    requires
        from <= path@.len(),
    ensures
        nodes(r@) == navigated(nodes(elements@), texts(path@).skip(from as int)),
        path_read(nodes(elements@), texts(path@).skip(from as int)),
    decreases path@.len() - from,
{
    let ghost list = nodes(elements@);
    let ghost rest = texts(path@).skip(from as int);
    proof {
        lemma_nodes_index(elements@);
    }
    let depth = path.len();
    if from >= depth {
        return elements;
    }
    let name = path[from].as_str();
    assert(rest[0] == name@);
    let mut k: usize = 0;
    while k < elements.len()
        invariant
            k <= elements@.len(),
            from < depth == path@.len(),
            list == nodes(elements@),
            list.len() == elements@.len(),
            forall|j: int| 0 <= j < list.len() ==> #[trigger] list[j] == node(elements@[j]),
            rest == texts(path@).skip(from as int),
            name@ == path@[from as int]@,
            rest[0] == name@,
            section_named(list, name@, 0) == section_named(list, name@, k as int),
            forall|j: int, line: Seq<char>|
                0 <= j < k && list[j] is Branch && #[trigger] reads(node_text(list[j]), line)
                    ==> display_text(node_text(list[j])) == line,
        decreases elements@.len() - k,
    {
        assert(list[k as int] == node(elements@[k as int]));
        match &elements[k] {
            FfonElement::Obj(obj) => {
                let shown = strip_display(obj.key.as_str());
                if same(shown.as_str(), name) {
                    assert(rest.skip(1) =~= texts(path@).skip(from + 1));
                    return navigate_from(obj.children.as_slice(), path, from + 1);
                }
            },
            FfonElement::Str(_) => {},
        }
        k += 1;
    }
    &[]
}

} // verus!
