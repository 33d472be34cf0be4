//! What every element tree that is read from a file keeps.

use vstd::prelude::*;

use crate::ffon::{node_text, Node};
use crate::parse::{
    annotated, behind, cbrace_block, cbrace_closing, ffon_block, ffon_file, opens_braces,
};
use crate::parse::{cbrace_ext, file_tree, next_indent, python_block, python_ext, section};
use crate::tags::{law_src_tag_reads_back, src_tag};
use crate::text::{ends_in, indent_width, lower_ascii, starts_in, trimmed};

verus! {

// ---------------------------------------------------------------------------
// Elements and lines
// ---------------------------------------------------------------------------

/// The texts of a tree, each section's key before its children.
pub open spec fn flat(n: Node) -> Seq<Seq<char>>
    decreases n,
{
    match n {
        Node::Leaf(s) => seq![s],
        Node::Branch(key, children) => seq![key] + flat_all(children),
    }
}

/// The texts of the trees of a list, one tree after the other.
pub open spec fn flat_all(list: Seq<Node>) -> Seq<Seq<char>>
    decreases list,
{
    if list.len() == 0 {
        Seq::empty()
    } else {
        flat_all(list.drop_last()) + flat(list.last())
    }
}

/// `shown` are the lines of `lines` in `from..to`, but for blank ones and those
/// that `left_out` tells by their positions: in the order of the file, each once,
/// at the positions `at`.
pub open spec fn shows_lines(
    shown: Seq<Seq<char>>,
    at: Seq<int>,
    lines: Seq<Seq<char>>,
    from: int,
    to: int,
    left_out: spec_fn(int) -> bool,
) -> bool {
    &&& 0 <= from <= to <= lines.len()
    &&& at.len() == shown.len()
    &&& forall|k: int| 0 <= k < at.len() ==> from <= #[trigger] at[k] < to
    &&& forall|k: int, l: int| 0 <= k < l < at.len() ==> #[trigger] at[k] < #[trigger] at[l]
    &&& forall|k: int|
        0 <= k < at.len() ==> trimmed(lines[#[trigger] at[k]]).len() > 0 && !left_out(at[k])
    &&& forall|k: int| 0 <= k < at.len() ==> #[trigger] shown[k] == annotated(lines, at[k])
    &&& forall|q: int|
        from <= q < to && trimmed(#[trigger] lines[q]).len() > 0 && !left_out(q) ==> at.contains(q)
}

proof fn lemma_flat_all_append(a: Seq<Node>, b: Seq<Node>)
    ensures
        flat_all(a + b) == flat_all(a) + flat_all(b),
    decreases b.len(),
{
    if b.len() == 0 {
        assert(a + b =~= a);
        assert(flat_all(a) + flat_all(b) =~= flat_all(a));
    } else {
        lemma_flat_all_append(a, b.drop_last());
        assert((a + b).drop_last() =~= a + b.drop_last());
        assert((a + b).last() == b.last());
        assert(flat_all(a) + flat_all(b) =~= (flat_all(a) + flat_all(b.drop_last())) + flat(
            b.last(),
        ));
    }
}

proof fn lemma_flat_section(key: Seq<char>, children: Seq<Node>)
    ensures
        flat_all(seq![section(key, children)]) == seq![key] + flat_all(children),
{
    reveal_with_fuel(flat_all, 2);
    let list = seq![section(key, children)];
    assert(list.drop_last() =~= Seq::<Node>::empty());
    assert(list.last() == section(key, children));
    assert(flat_all(list) =~= seq![key] + flat_all(children));
}

proof fn lemma_flat_leaf(key: Seq<char>)
    ensures
        flat_all(seq![Node::Leaf(key)]) == seq![key],
{
    lemma_flat_section(key, Seq::empty());
    assert(seq![key] + flat_all(Seq::<Node>::empty()) =~= seq![key]);
}

proof fn lemma_shows_nothing(
    lines: Seq<Seq<char>>,
    i: int,
    left_out: spec_fn(int) -> bool,
)
    requires
        0 <= i < lines.len(),
        trimmed(lines[i]).len() == 0 || left_out(i),
    ensures
        shows_lines(Seq::empty(), Seq::empty(), lines, i, i + 1, left_out),
{
}

proof fn lemma_shows_one(lines: Seq<Seq<char>>, i: int, left_out: spec_fn(int) -> bool)
    requires
        0 <= i < lines.len(),
        trimmed(lines[i]).len() > 0,
        !left_out(i),
    ensures
        shows_lines(seq![annotated(lines, i)], seq![i], lines, i, i + 1, left_out),
{
    assert(seq![i][0] == i);
}

proof fn lemma_shows_both(
    a: Seq<Seq<char>>,
    at_a: Seq<int>,
    b: Seq<Seq<char>>,
    at_b: Seq<int>,
    lines: Seq<Seq<char>>,
    from: int,
    mid: int,
    to: int,
    left_out: spec_fn(int) -> bool,
)
    requires
        shows_lines(a, at_a, lines, from, mid, left_out),
        shows_lines(b, at_b, lines, mid, to, left_out),
    ensures
        shows_lines(a + b, at_a + at_b, lines, from, to, left_out),
{
    let at = at_a + at_b;
    assert forall|q: int|
        from <= q < to && trimmed(#[trigger] lines[q]).len() > 0 && !left_out(q) implies at.contains(
        q,
    ) by {
        if q < mid {
            assert(at_a.contains(q));
            let k = choose|k: int| 0 <= k < at_a.len() && at_a[k] == q;
            assert(at[k] == q);
        } else {
            assert(at_b.contains(q));
            let k = choose|k: int| 0 <= k < at_b.len() && at_b[k] == q;
            assert(at[at_a.len() + k] == q);
        }
    }
}

/// A Python file leaves nothing out.
pub open spec fn python_left_out() -> spec_fn(int) -> bool {
    |q: int| false
}

/// How many sections of a C-family file are open in front of line `q`.
pub open spec fn cbrace_depth(lines: Seq<Seq<char>>, q: int) -> nat
    decreases q,
{
    if q <= 0 {
        0
    } else {
        let depth = cbrace_depth(lines, q - 1);
        let line = trimmed(lines[q - 1]);
        if starts_in(line, '}') {
            if depth == 0 || ends_in(line, '{') {
                depth
            } else {
                (depth - 1) as nat
            }
        } else if ends_in(line, '{') {
            depth + 1
        } else {
            depth
        }
    }
}

/// A C-family file leaves out the lines that start with a closing brace where
/// no section is open.
pub open spec fn cbrace_left_out(lines: Seq<Seq<char>>) -> spec_fn(int) -> bool {
    |q: int| starts_in(trimmed(lines[q]), '}') && cbrace_depth(lines, q) == 0
}

/// Line `q` of a generic file opens the braces of a section.
pub open spec fn section_opener(lines: Seq<Seq<char>>, q: int) -> bool {
    q > 0 && opens_braces(lines, q - 1)
}

/// How many sections of a generic file are open in front of line `q`.
pub open spec fn ffon_depth(lines: Seq<Seq<char>>, q: int) -> nat
    decreases q,
{
    if q <= 0 {
        0
    } else {
        let depth = ffon_depth(lines, q - 1);
        if section_opener(lines, q - 1) {
            depth + 1
        } else if trimmed(lines[q - 1]) == "}"@ && depth > 0 {
            (depth - 1) as nat
        } else {
            depth
        }
    }
}

/// A generic file leaves out the braces of its sections.
pub open spec fn ffon_left_out(lines: Seq<Seq<char>>) -> spec_fn(int) -> bool {
    |q: int|
        section_opener(lines, q) || (trimmed(lines[q]) == "}"@ && ffon_depth(lines, q) > 0)
}

/// A block of a Python file shows its lines.
pub proof fn lemma_python(lines: Seq<Seq<char>>, i: int, base: nat) -> (at: Seq<int>)
    requires
        0 <= i <= lines.len(),
    ensures
        ({
            let (list, end) = python_block(lines, i, base);
            &&& shows_lines(flat_all(list), at, lines, i, end, python_left_out())
            &&& base == 0 ==> end == lines.len()
        }),
    decreases lines.len() - i,
{
    let skip = python_left_out();
    if i >= lines.len() {
        Seq::empty()
    } else if trimmed(lines[i]).len() == 0 {
        let rest = python_block(lines, i + 1, base);
        let at = lemma_python(lines, i + 1, base);
        lemma_shows_nothing(lines, i, skip);
        lemma_shows_both(Seq::empty(), Seq::empty(), flat_all(rest.0), at, lines, i, i + 1, rest.1, skip);
        assert(Seq::<Seq<char>>::empty() + flat_all(rest.0) =~= flat_all(rest.0));
        assert(Seq::<int>::empty() + at =~= at);
        at
    } else if indent_width(lines[i]) < base {
        Seq::empty()
    } else {
        let child = next_indent(lines, i + 1);
        let nested = ends_in(trimmed(lines[i]), ':') && child > indent_width(lines[i]);
        let (children, next) = if nested {
            python_block(lines, i + 1, child)
        } else {
            (Seq::empty(), i + 1)
        };
        let at_children = if nested {
            lemma_python(lines, i + 1, child)
        } else {
            Seq::empty()
        };
        assert(shows_lines(flat_all(children), at_children, lines, i + 1, next, skip));
        assert(behind(lines, i, next) == next);
        let rest = python_block(lines, next, base);
        let at_rest = lemma_python(lines, next, base);
        let key = annotated(lines, i);
        lemma_shows_one(lines, i, skip);
        lemma_shows_both(seq![key], seq![i], flat_all(children), at_children, lines, i, i + 1, next, skip);
        lemma_shows_both(
            seq![key] + flat_all(children),
            seq![i] + at_children,
            flat_all(rest.0),
            at_rest,
            lines,
            i,
            next,
            rest.1,
            skip,
        );
        lemma_flat_section(key, children);
        lemma_flat_all_append(seq![section(key, children)], rest.0);
        seq![i] + at_children + at_rest
    }
}

/// The texts of the two braces.
pub proof fn lemma_braces()
    ensures
        "{"@ == seq!['{'],
        "}"@ == seq!['}'],
{
    reveal_strlit("{");
    reveal_strlit("}");
    assert("{"@ =~= seq!['{']);
    assert("}"@ =~= seq!['}']);
}

/// A block of a generic file shows its lines, and ends where its braces do.
pub proof fn lemma_ffon(lines: Seq<Seq<char>>, i: int, inside: bool) -> (at: Seq<int>)
    requires
        0 <= i <= lines.len(),
        inside == (ffon_depth(lines, i) > 0),
        !section_opener(lines, i),
    ensures
        ({
            let (list, end) = ffon_block(lines, i, inside);
            &&& shows_lines(flat_all(list), at, lines, i, end, ffon_left_out(lines))
            &&& !section_opener(lines, end)
            &&& end < lines.len() ==> if inside {
                ffon_depth(lines, end) == ffon_depth(lines, i) - 1
            } else {
                trimmed(lines[end]) == "}"@ && ffon_depth(lines, end) == 0
            }
        }),
    decreases lines.len() - i,
{
    let skip = ffon_left_out(lines);
    lemma_braces();
    if i >= lines.len() {
        Seq::empty()
    } else if trimmed(lines[i]) == "}"@ {
        if inside {
            lemma_shows_nothing(lines, i, skip);
        }
        Seq::empty()
    } else if trimmed(lines[i]).len() == 0 {
        let rest = ffon_block(lines, i + 1, inside);
        let at = lemma_ffon(lines, i + 1, inside);
        lemma_shows_nothing(lines, i, skip);
        lemma_shows_both(
            Seq::empty(),
            Seq::empty(),
            flat_all(rest.0),
            at,
            lines,
            i,
            i + 1,
            rest.1,
            skip,
        );
        assert(Seq::<Seq<char>>::empty() + flat_all(rest.0) =~= flat_all(rest.0));
        assert(Seq::<int>::empty() + at =~= at);
        at
    } else {
        let nested = opens_braces(lines, i);
        let (children, next) = if nested {
            ffon_block(lines, i + 2, true)
        } else {
            (Seq::empty(), i + 1)
        };
        let at_children = if nested {
            assert(section_opener(lines, i + 1));
            assert(ffon_depth(lines, i + 1) == ffon_depth(lines, i));
            assert(ffon_depth(lines, i + 2) == ffon_depth(lines, i) + 1);
            let inner = lemma_ffon(lines, i + 2, true);
            lemma_shows_nothing(lines, i + 1, skip);
            lemma_shows_both(
                Seq::empty(),
                Seq::empty(),
                flat_all(children),
                inner,
                lines,
                i + 1,
                i + 2,
                next,
                skip,
            );
            assert(Seq::<Seq<char>>::empty() + flat_all(children) =~= flat_all(children));
            assert(Seq::<int>::empty() + inner =~= inner);
            inner
        } else {
            Seq::empty()
        };
        assert(shows_lines(flat_all(children), at_children, lines, i + 1, next, skip));
        assert(behind(lines, i, next) == next);
        let rest = ffon_block(lines, next, inside);
        let at_rest = if next < lines.len() {
            lemma_ffon(lines, next, inside)
        } else {
            Seq::empty()
        };
        let key = annotated(lines, i);
        lemma_shows_one(lines, i, skip);
        lemma_shows_both(
            seq![key],
            seq![i],
            flat_all(children),
            at_children,
            lines,
            i,
            i + 1,
            next,
            skip,
        );
        lemma_shows_both(
            seq![key] + flat_all(children),
            seq![i] + at_children,
            flat_all(rest.0),
            at_rest,
            lines,
            i,
            next,
            rest.1,
            skip,
        );
        lemma_flat_section(key, children);
        lemma_flat_all_append(seq![section(key, children)], rest.0);
        seq![i] + at_children + at_rest
    }
}

proof fn lemma_ffon_file(lines: Seq<Seq<char>>, i: int) -> (at: Seq<int>)
    requires
        0 <= i <= lines.len(),
        ffon_depth(lines, i) == 0,
        !section_opener(lines, i),
    ensures
        shows_lines(
            flat_all(ffon_file(lines, i)),
            at,
            lines,
            i,
            lines.len() as int,
            ffon_left_out(lines),
        ),
    decreases lines.len() - i,
{
    let skip = ffon_left_out(lines);
    let (list, next) = ffon_block(lines, i, false);
    let at_list = lemma_ffon(lines, i, false);
    lemma_braces();
    if next < lines.len() {
        let key = annotated(lines, next);
        let rest = ffon_file(lines, next + 1);
        let at_rest = lemma_ffon_file(lines, next + 1);
        lemma_shows_one(lines, next, skip);
        lemma_flat_leaf(key);
        lemma_shows_both(
            flat_all(list),
            at_list,
            seq![key],
            seq![next],
            lines,
            i,
            next,
            next + 1,
            skip,
        );
        lemma_shows_both(
            flat_all(list) + seq![key],
            at_list + seq![next],
            flat_all(rest),
            at_rest,
            lines,
            i,
            next + 1,
            lines.len() as int,
            skip,
        );
        lemma_flat_all_append(list, seq![Node::Leaf(key)]);
        lemma_flat_all_append(list + seq![Node::Leaf(key)], rest);
        at_list + seq![next] + at_rest
    } else {
        at_list
    }
}

/// A block of a C-family file shows its lines, and ends where its braces do.
pub proof fn lemma_cbrace(lines: Seq<Seq<char>>, i: int, top: bool) -> (at: Seq<int>)
    requires
        0 <= i <= lines.len(),
        top == (cbrace_depth(lines, i) == 0),
    ensures
        ({
            let (list, end) = cbrace_block(lines, i, top);
            &&& shows_lines(flat_all(list), at, lines, i, end, cbrace_left_out(lines))
            &&& end < lines.len() ==> !top && starts_in(trimmed(lines[end]), '}') && cbrace_depth(
                lines,
                end,
            ) == cbrace_depth(lines, i)
        }),
    decreases lines.len() - i, 1int,
{
    let skip = cbrace_left_out(lines);
    if i >= lines.len() {
        Seq::empty()
    } else if trimmed(lines[i]).len() == 0 || (starts_in(trimmed(lines[i]), '}') && top) {
        let rest = cbrace_block(lines, i + 1, top);
        let at = lemma_cbrace(lines, i + 1, top);
        lemma_shows_nothing(lines, i, skip);
        lemma_shows_both(Seq::empty(), Seq::empty(), flat_all(rest.0), at, lines, i, i + 1, rest.1, skip);
        assert(Seq::<Seq<char>>::empty() + flat_all(rest.0) =~= flat_all(rest.0));
        assert(Seq::<int>::empty() + at =~= at);
        at
    } else if starts_in(trimmed(lines[i]), '}') {
        Seq::empty()
    } else if ends_in(trimmed(lines[i]), '{') {
        let (children, end) = cbrace_block(lines, i + 1, false);
        let at_children = lemma_cbrace(lines, i + 1, false);
        let (closing, next) = cbrace_closing(lines, end);
        let at_closing = lemma_cbrace_closing(lines, end);
        assert(behind(lines, i, end) == end);
        assert(behind(lines, i, next) == next);
        let rest = cbrace_block(lines, next, top);
        let at_rest = if next < lines.len() {
            lemma_cbrace(lines, next, top)
        } else {
            Seq::empty()
        };
        let key = annotated(lines, i);
        lemma_shows_one(lines, i, skip);
        lemma_shows_both(seq![key], seq![i], flat_all(children), at_children, lines, i, i + 1, end, skip);
        lemma_shows_both(
            seq![key] + flat_all(children),
            seq![i] + at_children,
            flat_all(closing),
            at_closing,
            lines,
            i,
            end,
            next,
            skip,
        );
        lemma_shows_both(
            seq![key] + flat_all(children) + flat_all(closing),
            seq![i] + at_children + at_closing,
            flat_all(rest.0),
            at_rest,
            lines,
            i,
            next,
            rest.1,
            skip,
        );
        lemma_flat_section(key, children);
        lemma_flat_all_append(seq![section(key, children)], closing);
        lemma_flat_all_append(seq![section(key, children)] + closing, rest.0);
        seq![i] + at_children + at_closing + at_rest
    } else {
        let rest = cbrace_block(lines, i + 1, top);
        let at = lemma_cbrace(lines, i + 1, top);
        let key = annotated(lines, i);
        lemma_shows_one(lines, i, skip);
        lemma_shows_both(seq![key], seq![i], flat_all(rest.0), at, lines, i, i + 1, rest.1, skip);
        lemma_flat_leaf(key);
        lemma_flat_all_append(seq![Node::Leaf(key)], rest.0);
        seq![i] + at
    }
}

/// The lines that close a section of a C-family file are shown.
pub proof fn lemma_cbrace_closing(lines: Seq<Seq<char>>, i: int) -> (at: Seq<int>)
    requires
        0 <= i <= lines.len(),
        i < lines.len() ==> starts_in(trimmed(lines[i]), '}') && cbrace_depth(lines, i) > 0,
    ensures
        ({
            let (list, end) = cbrace_closing(lines, i);
            &&& shows_lines(flat_all(list), at, lines, i, end, cbrace_left_out(lines))
            &&& end < lines.len() ==> cbrace_depth(lines, end) == cbrace_depth(lines, i) - 1
        }),
    decreases lines.len() - i, 0int,
{
    let skip = cbrace_left_out(lines);
    if i >= lines.len() || !starts_in(trimmed(lines[i]), '}') {
        Seq::empty()
    } else if ends_in(trimmed(lines[i]), '{') {
        let (children, end) = cbrace_block(lines, i + 1, false);
        let at_children = lemma_cbrace(lines, i + 1, false);
        assert(behind(lines, i, end) == end);
        let rest = cbrace_closing(lines, end);
        let at_rest = lemma_cbrace_closing(lines, end);
        let key = annotated(lines, i);
        lemma_shows_one(lines, i, skip);
        lemma_shows_both(seq![key], seq![i], flat_all(children), at_children, lines, i, i + 1, end, skip);
        lemma_shows_both(
            seq![key] + flat_all(children),
            seq![i] + at_children,
            flat_all(rest.0),
            at_rest,
            lines,
            i,
            end,
            rest.1,
            skip,
        );
        lemma_flat_section(key, children);
        lemma_flat_all_append(seq![section(key, children)], rest.0);
        seq![i] + at_children + at_rest
    } else {
        lemma_shows_one(lines, i, skip);
        lemma_flat_leaf(annotated(lines, i));
        seq![i]
    }
}

/// The lines that a file with the extension `ext` leaves out.
pub open spec fn left_out(lines: Seq<Seq<char>>, ext: Seq<char>) -> spec_fn(int) -> bool {
    let lower = ext.map_values(|c: char| lower_ascii(c));
    if python_ext(lower) {
        python_left_out()
    } else if cbrace_ext(lower) {
        cbrace_left_out(lines)
    } else {
        ffon_left_out(lines)
    }
}

/// A file opens as a list of its lines: its elements, each section before its
/// children, are the lines of the file in the order of the file, each once, as
/// the trimmed line with its own position in its source tag. All lines are there
/// but for blank ones, the braces of the sections of a generic file, and in a
/// file of the C family those that close a section where none is open.
pub proof fn law_elements_are_lines(lines: Seq<Seq<char>>, ext: Seq<char>)
    ensures
        exists|at: Seq<int>| #[trigger]
            shows_lines(
                flat_all(file_tree(lines, ext)),
                at,
                lines,
                0,
                lines.len() as int,
                left_out(lines, ext),
            ),
{
    let lower = ext.map_values(|c: char| lower_ascii(c));
    let at = if python_ext(lower) {
        lemma_python(lines, 0, 0)
    } else if cbrace_ext(lower) {
        lemma_cbrace(lines, 0, true)
    } else {
        lemma_ffon_file(lines, 0)
    };
    assert(shows_lines(
        flat_all(file_tree(lines, ext)),
        at,
        lines,
        0,
        lines.len() as int,
        left_out(lines, ext),
    ));
}

// ---------------------------------------------------------------------------
// Sections
// ---------------------------------------------------------------------------

/// Every section in `n`, at any depth, has children, and its key ends with
/// `mark`.
pub open spec fn full(n: Node, mark: char) -> bool
    decreases n,
{
    match n {
        Node::Leaf(_) => true,
        Node::Branch(key, children) => children.len() > 0 && ends_in(key, mark) && all_full(
            children,
            mark,
        ),
    }
}

/// The same of every section in the trees of `list`.
pub open spec fn all_full(list: Seq<Node>, mark: char) -> bool
    decreases list,
{
    list.len() == 0 || (all_full(list.drop_last(), mark) && full(list.last(), mark))
}

proof fn lemma_all_full_append(a: Seq<Node>, b: Seq<Node>, mark: char)
    requires
        all_full(a, mark),
        all_full(b, mark),
    ensures
        all_full(a + b, mark),
    decreases b.len(),
{
    if b.len() == 0 {
        assert(a + b =~= a);
    } else {
        lemma_all_full_append(a, b.drop_last(), mark);
        assert((a + b).drop_last() =~= a + b.drop_last());
        assert((a + b).last() == b.last());
    }
}

proof fn lemma_full_section(
    lines: Seq<Seq<char>>,
    i: int,
    children: Seq<Node>,
    mark: char,
)
    requires
        all_full(children, mark),
        children.len() > 0 ==> ends_in(trimmed(lines[i]), mark),
    ensures
        all_full(seq![section(annotated(lines, i), children)], mark),
{
    let list = seq![section(annotated(lines, i), children)];
    if children.len() > 0 {
        assert(annotated(lines, i).last() == trimmed(lines[i]).last());
    }
    assert(list.drop_last() =~= Seq::<Node>::empty());
    assert(all_full(Seq::<Node>::empty(), mark));
    assert(full(list.last(), mark));
}

proof fn lemma_python_full(lines: Seq<Seq<char>>, i: int, base: nat)
    ensures
        all_full(python_block(lines, i, base).0, ':'),
    decreases lines.len() - i,
{
    if i < lines.len() {
        if trimmed(lines[i]).len() == 0 {
            lemma_python_full(lines, i + 1, base);
        } else if indent_width(lines[i]) >= base {
            let child = next_indent(lines, i + 1);
            let (children, next) = if ends_in(trimmed(lines[i]), ':') && child > indent_width(
                lines[i],
            ) {
                lemma_python_full(lines, i + 1, child);
                python_block(lines, i + 1, child)
            } else {
                (Seq::empty(), i + 1)
            };
            lemma_python_full(lines, behind(lines, i, next), base);
            lemma_full_section(lines, i, children, ':');
            lemma_all_full_append(
                seq![section(annotated(lines, i), children)],
                python_block(lines, behind(lines, i, next), base).0,
                ':',
            );
        }
    }
}

proof fn lemma_ffon_full(lines: Seq<Seq<char>>, i: int, inside: bool)
    ensures
        all_full(ffon_block(lines, i, inside).0, ':'),
    decreases lines.len() - i,
{
    if i < lines.len() && trimmed(lines[i]) != "}"@ {
        if trimmed(lines[i]).len() == 0 {
            lemma_ffon_full(lines, i + 1, inside);
        } else {
            let (children, next) = if opens_braces(lines, i) {
                lemma_ffon_full(lines, i + 2, true);
                ffon_block(lines, i + 2, true)
            } else {
                (Seq::empty(), i + 1)
            };
            lemma_ffon_full(lines, behind(lines, i, next), inside);
            lemma_full_section(lines, i, children, ':');
            lemma_all_full_append(
                seq![section(annotated(lines, i), children)],
                ffon_block(lines, behind(lines, i, next), inside).0,
                ':',
            );
        }
    }
}

proof fn lemma_ffon_file_full(lines: Seq<Seq<char>>, i: int)
    ensures
        all_full(ffon_file(lines, i), ':'),
    decreases lines.len() - i,
{
    let (list, next) = ffon_block(lines, i, false);
    lemma_ffon_full(lines, i, false);
    if i <= next < lines.len() {
        let stray = seq![Node::Leaf(annotated(lines, next))];
        lemma_ffon_file_full(lines, next + 1);
        lemma_full_section(lines, next, Seq::empty(), ':');
        lemma_all_full_append(list, stray, ':');
        lemma_all_full_append(list + stray, ffon_file(lines, next + 1), ':');
    }
}

proof fn lemma_cbrace_full(lines: Seq<Seq<char>>, i: int, top: bool)
    ensures
        all_full(cbrace_block(lines, i, top).0, '{'),
    decreases lines.len() - i, 1int,
{
    if i < lines.len() {
        let line = trimmed(lines[i]);
        if line.len() == 0 || starts_in(line, '}') {
            lemma_cbrace_full(lines, i + 1, top);
        } else if ends_in(line, '{') {
            let (children, end) = cbrace_block(lines, i + 1, false);
            let (closing, next) = cbrace_closing(lines, behind(lines, i, end));
            let rest = cbrace_block(lines, behind(lines, i, next), top).0;
            lemma_cbrace_full(lines, i + 1, false);
            lemma_cbrace_closing_full(lines, behind(lines, i, end));
            lemma_cbrace_full(lines, behind(lines, i, next), top);
            lemma_full_section(lines, i, children, '{');
            lemma_all_full_append(seq![section(annotated(lines, i), children)], closing, '{');
            lemma_all_full_append(seq![section(annotated(lines, i), children)] + closing, rest, '{');
        } else {
            lemma_cbrace_full(lines, i + 1, top);
            lemma_full_section(lines, i, Seq::empty(), '{');
            lemma_all_full_append(
                seq![Node::Leaf(annotated(lines, i))],
                cbrace_block(lines, i + 1, top).0,
                '{',
            );
        }
    }
}

proof fn lemma_cbrace_closing_full(lines: Seq<Seq<char>>, i: int)
    ensures
        all_full(cbrace_closing(lines, i).0, '{'),
    decreases lines.len() - i, 0int,
{
    if i < lines.len() && starts_in(trimmed(lines[i]), '}') {
        if ends_in(trimmed(lines[i]), '{') {
            let (children, end) = cbrace_block(lines, i + 1, false);
            lemma_cbrace_full(lines, i + 1, false);
            lemma_cbrace_closing_full(lines, behind(lines, i, end));
            lemma_full_section(lines, i, children, '{');
            lemma_all_full_append(
                seq![section(annotated(lines, i), children)],
                cbrace_closing(lines, behind(lines, i, end)).0,
                '{',
            );
        } else {
            lemma_full_section(lines, i, Seq::empty(), '{');
        }
    }
}

/// What ends the header of a section in a file with the extension `ext`.
pub open spec fn header_mark(ext: Seq<char>) -> char {
    let lower = ext.map_values(|c: char| lower_ascii(c));
    if !python_ext(lower) && cbrace_ext(lower) {
        '{'
    } else {
        ':'
    }
}

/// The sections of a file are its headers with a body: every section has
/// children, so that a header without a body is a leaf, and its line ends with a
/// colon, or with an opening brace in a file of the C family.
pub proof fn law_sections_are_headers_with_a_body(lines: Seq<Seq<char>>, ext: Seq<char>)
    ensures
        all_full(file_tree(lines, ext), header_mark(ext)),
{
    lemma_python_full(lines, 0, 0);
    lemma_cbrace_full(lines, 0, true);
    lemma_ffon_file_full(lines, 0);
}

// ---------------------------------------------------------------------------
// Levels
// ---------------------------------------------------------------------------

/// `shown` is a line of `lines`, indented by at least `base`.
pub open spec fn shown_from(shown: Seq<char>, lines: Seq<Seq<char>>, base: nat) -> bool {
    exists|k: int|
        0 <= k < lines.len() && shown == #[trigger] annotated(lines, k) && indent_width(lines[k])
            >= base
}

/// All of `shown` are lines of `lines`, indented by at least `base`.
pub open spec fn all_shown_from(
    shown: Seq<Seq<char>>,
    lines: Seq<Seq<char>>,
    base: nat,
) -> bool {
    forall|j: int| 0 <= j < shown.len() ==> shown_from(#[trigger] shown[j], lines, base)
}

/// `key` is a line of `lines`, and all that is below it, `below`, are lines that
/// are indented more.
pub open spec fn header_of(key: Seq<char>, below: Seq<Seq<char>>, lines: Seq<Seq<char>>) -> bool {
    exists|k: int|
        0 <= k < lines.len() && key == #[trigger] annotated(lines, k) && all_shown_from(
            below,
            lines,
            indent_width(lines[k]) + 1,
        )
}

/// Every section in `n`, at any depth, holds lines that are indented more than
/// its header.
pub open spec fn nested(n: Node, lines: Seq<Seq<char>>) -> bool
    decreases n,
{
    match n {
        Node::Leaf(_) => true,
        Node::Branch(key, children) => header_of(key, flat_all(children), lines) && all_nested(
            children,
            lines,
        ),
    }
}

/// The same of every section in the trees of `list`.
pub open spec fn all_nested(list: Seq<Node>, lines: Seq<Seq<char>>) -> bool
    decreases list,
{
    list.len() == 0 || (all_nested(list.drop_last(), lines) && nested(list.last(), lines))
}

proof fn lemma_all_nested_append(a: Seq<Node>, b: Seq<Node>, lines: Seq<Seq<char>>)
    requires
        all_nested(a, lines),
        all_nested(b, lines),
    ensures
        all_nested(a + b, lines),
    decreases b.len(),
{
    if b.len() == 0 {
        assert(a + b =~= a);
    } else {
        lemma_all_nested_append(a, b.drop_last(), lines);
        assert((a + b).drop_last() =~= a + b.drop_last());
        assert((a + b).last() == b.last());
    }
}

proof fn lemma_python_nested(lines: Seq<Seq<char>>, i: int, base: nat)
    requires
        0 <= i,
    ensures
        all_nested(python_block(lines, i, base).0, lines),
        all_shown_from(flat_all(python_block(lines, i, base).0), lines, base),
    decreases lines.len() - i,
{
    if i < lines.len() {
        if trimmed(lines[i]).len() == 0 {
            lemma_python_nested(lines, i + 1, base);
        } else if indent_width(lines[i]) >= base {
            let child = next_indent(lines, i + 1);
            let opens = ends_in(trimmed(lines[i]), ':') && child > indent_width(lines[i]);
            let (children, next) = if opens {
                python_block(lines, i + 1, child)
            } else {
                (Seq::empty(), i + 1)
            };
            let key = annotated(lines, i);
            let below = flat_all(children);
            if opens {
                lemma_python_nested(lines, i + 1, child);
            }
            assert(all_shown_from(below, lines, indent_width(lines[i]) + 1)) by {
                assert forall|j: int| 0 <= j < below.len() implies shown_from(
                    #[trigger] below[j],
                    lines,
                    indent_width(lines[i]) + 1,
                ) by {
                    assert(shown_from(below[j], lines, child));
                }
            }
            assert(header_of(key, below, lines));
            let first = seq![section(key, children)];
            assert(first.drop_last() =~= Seq::<Node>::empty());
            assert(all_nested(Seq::<Node>::empty(), lines));
            assert(nested(first.last(), lines));
            assert(all_nested(first, lines));
            let rest = python_block(lines, behind(lines, i, next), base).0;
            lemma_python_nested(lines, behind(lines, i, next), base);
            lemma_all_nested_append(first, rest, lines);
            lemma_flat_section(key, children);
            lemma_flat_all_append(first, rest);
            let all = flat_all(first + rest);
            assert forall|j: int| 0 <= j < all.len() implies shown_from(
                #[trigger] all[j],
                lines,
                base,
            ) by {
                if j == 0 {
                    assert(all[j] == key);
                } else if j <= below.len() {
                    assert(all[j] == below[j - 1]);
                    assert(shown_from(below[j - 1], lines, indent_width(lines[i]) + 1));
                } else {
                    assert(all[j] == flat_all(rest)[j - 1 - below.len()]);
                }
            }
        }
    }
}

/// Indentation becomes levels: in a Python file, every line below a section, at
/// any depth, is indented more than the section's own line.
pub proof fn law_indentation_becomes_levels(lines: Seq<Seq<char>>, ext: Seq<char>)
    requires
        python_ext(ext.map_values(|c: char| lower_ascii(c))),
    ensures
        all_nested(file_tree(lines, ext), lines),
{
    lemma_python_nested(lines, 0, 0);
}

/// The line that `n` shows, without its source tag.
pub open spec fn shown_line(n: Node) -> Seq<char> {
    match src_tag(node_text(n)) {
        Some(found) => found.1,
        None => node_text(n),
    }
}

/// Element `j` of `list` starts with a closing brace only right behind one that
/// ends with an opening brace. The first one starts with a closing brace only
/// where `inside` does not hold.
pub open spec fn closes_at(list: Seq<Node>, j: int, inside: bool) -> bool {
    starts_in(shown_line(list[j]), '}') ==> if j == 0 {
        !inside
    } else {
        ends_in(shown_line(list[j - 1]), '{')
    }
}

/// The same of every element of `list`.
pub open spec fn closes(list: Seq<Node>, inside: bool) -> bool {
    forall|j: int| 0 <= j < list.len() ==> #[trigger] closes_at(list, j, inside)
}

/// In every section in `n`, at any depth, each line that starts with a closing
/// brace stands right behind one that ends with an opening brace.
pub open spec fn well_closed(n: Node) -> bool
    decreases n,
{
    match n {
        Node::Leaf(_) => true,
        Node::Branch(_, children) => closes(children, true) && all_well_closed(children),
    }
}

/// The same of every section in the trees of `list`.
pub open spec fn all_well_closed(list: Seq<Node>) -> bool
    decreases list,
{
    list.len() == 0 || (all_well_closed(list.drop_last()) && well_closed(list.last()))
}

proof fn lemma_all_well_closed_append(a: Seq<Node>, b: Seq<Node>)
    requires
        all_well_closed(a),
        all_well_closed(b),
    ensures
        all_well_closed(a + b),
    decreases b.len(),
{
    if b.len() == 0 {
        assert(a + b =~= a);
    } else {
        lemma_all_well_closed_append(a, b.drop_last());
        assert((a + b).drop_last() =~= a + b.drop_last());
        assert((a + b).last() == b.last());
    }
}

proof fn lemma_well_closed_section(lines: Seq<Seq<char>>, i: int, children: Seq<Node>)
    requires
        0 <= i < lines.len() <= usize::MAX,
        closes(children, true),
        all_well_closed(children),
    ensures
        all_well_closed(seq![section(annotated(lines, i), children)]),
        shown_line(section(annotated(lines, i), children)) == trimmed(lines[i]),
{
    let list = seq![section(annotated(lines, i), children)];
    law_src_tag_reads_back(i as usize, trimmed(lines[i]));
    assert(list.drop_last() =~= Seq::<Node>::empty());
    assert(all_well_closed(Seq::<Node>::empty()));
    assert(well_closed(list.last()));
}

/// Elements behind others close nothing of their own but what the last of those
/// opens.
proof fn lemma_closes_append(a: Seq<Node>, b: Seq<Node>, inside: bool, inside_b: bool)
    requires
        a.len() > 0,
        closes(a, inside),
        closes(b, inside_b),
        !inside_b ==> ends_in(shown_line(a.last()), '{'),
    ensures
        closes(a + b, inside),
{
    let all = a + b;
    assert forall|j: int| 0 <= j < all.len() implies #[trigger] closes_at(all, j, inside) by {
        if j < a.len() {
            assert(closes_at(a, j, inside));
            if j > 0 {
                assert(all[j - 1] == a[j - 1]);
            }
        } else {
            assert(closes_at(b, j - a.len(), inside_b));
            if j > a.len() {
                assert(all[j - 1] == b[j - 1 - a.len()]);
            }
        }
    }
}

proof fn lemma_cbrace_closed(lines: Seq<Seq<char>>, i: int, top: bool)
    requires
        0 <= i,
        lines.len() <= usize::MAX,
    ensures
        closes(cbrace_block(lines, i, top).0, true),
        all_well_closed(cbrace_block(lines, i, top).0),
    decreases lines.len() - i, 1int,
{
    if i < lines.len() {
        let line = trimmed(lines[i]);
        if line.len() == 0 || starts_in(line, '}') {
            lemma_cbrace_closed(lines, i + 1, top);
        } else if ends_in(line, '{') {
            let (children, end) = cbrace_block(lines, i + 1, false);
            let (closing, next) = cbrace_closing(lines, behind(lines, i, end));
            let rest = cbrace_block(lines, behind(lines, i, next), top).0;
            let first = seq![section(annotated(lines, i), children)];
            lemma_cbrace_closed(lines, i + 1, false);
            lemma_cbrace_closing_closed(lines, behind(lines, i, end));
            lemma_cbrace_closed(lines, behind(lines, i, next), top);
            lemma_well_closed_section(lines, i, children);
            assert(closes(first, true)) by {
                assert(closes_at(first, 0, true));
            }
            lemma_closes_append(first, closing, true, false);
            lemma_closes_append(first + closing, rest, true, true);
            lemma_all_well_closed_append(first, closing);
            lemma_all_well_closed_append(first + closing, rest);
        } else {
            let first = seq![Node::Leaf(annotated(lines, i))];
            let rest = cbrace_block(lines, i + 1, top).0;
            lemma_cbrace_closed(lines, i + 1, top);
            lemma_well_closed_section(lines, i, Seq::empty());
            assert(closes(first, true)) by {
                assert(closes_at(first, 0, true));
            }
            lemma_closes_append(first, rest, true, true);
            lemma_all_well_closed_append(first, rest);
        }
    }
}

proof fn lemma_cbrace_closing_closed(lines: Seq<Seq<char>>, i: int)
    requires
        0 <= i,
        lines.len() <= usize::MAX,
    ensures
        closes(cbrace_closing(lines, i).0, false),
        all_well_closed(cbrace_closing(lines, i).0),
    decreases lines.len() - i, 0int,
{
    if i < lines.len() && starts_in(trimmed(lines[i]), '}') {
        if ends_in(trimmed(lines[i]), '{') {
            let (children, end) = cbrace_block(lines, i + 1, false);
            let rest = cbrace_closing(lines, behind(lines, i, end)).0;
            let first = seq![section(annotated(lines, i), children)];
            lemma_cbrace_closed(lines, i + 1, false);
            lemma_cbrace_closing_closed(lines, behind(lines, i, end));
            lemma_well_closed_section(lines, i, children);
            lemma_closes_append(first, rest, false, false);
            lemma_all_well_closed_append(first, rest);
        } else {
            lemma_well_closed_section(lines, i, Seq::empty());
        }
    }
}

/// Braces become levels: in a file of the C family, a line that starts with a
/// closing brace stands beside the section that it closes, right behind it, and
/// not within it.
pub proof fn law_braces_become_levels(lines: Seq<Seq<char>>, ext: Seq<char>)
    requires
        lines.len() <= usize::MAX,
        header_mark(ext) == '{',
    ensures
        closes(file_tree(lines, ext), true),
        all_well_closed(file_tree(lines, ext)),
{
    lemma_cbrace_closed(lines, 0, true);
}

} // verus!
