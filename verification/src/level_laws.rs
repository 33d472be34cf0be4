//! How deep in its tree each line of a file stands.

use vstd::prelude::*;

use crate::ffon::Node;
use crate::parse::{
    annotated, behind, cbrace_block, cbrace_closing, cbrace_ext, ffon_block, ffon_file, file_tree,
    next_indent, opens_braces, python_block, python_ext, section,
};
use crate::tags::src_text;
use crate::text::{ends_in, indent_width, lower_ascii, starts_in, trimmed};
use crate::tree_laws::{
    cbrace_depth, ffon_depth, flat, flat_all, lemma_braces, lemma_cbrace, lemma_cbrace_closing,
    lemma_ffon, section_opener,
};

verus! {

// ---------------------------------------------------------------------------
// Levels
// ---------------------------------------------------------------------------

/// The texts of a tree, each section's key before its children, and with each the
/// number of sections around it when `d` are around the tree.
pub open spec fn levels(n: Node, d: nat) -> Seq<(nat, Seq<char>)>
    decreases n,
{
    match n {
        Node::Leaf(s) => seq![(d, s)],
        Node::Branch(key, children) => seq![(d, key)] + levels_all(children, d + 1),
    }
}

/// The texts of the trees of a list with their levels, one tree after the other.
pub open spec fn levels_all(list: Seq<Node>, d: nat) -> Seq<(nat, Seq<char>)>
    decreases list,
{
    if list.len() == 0 {
        Seq::empty()
    } else {
        levels_all(list.drop_last(), d) + levels(list.last(), d)
    }
}

/// The text that shows line `q`.
pub open spec fn line_shown(lines: Seq<Seq<char>>, q: int) -> Seq<char> {
    src_text(q as nat) + trimmed(lines[q])
}

/// The text shows a line, and as many sections are around it as `depth` tells of
/// that line.
pub open spec fn stands(
    at: (nat, Seq<char>),
    lines: Seq<Seq<char>>,
    depth: spec_fn(int) -> nat,
) -> bool {
    exists|q: int|
        0 <= q < lines.len() && at.1 == #[trigger] line_shown(lines, q) && at.0 == depth(q)
}

/// Every text shows a line at the level of that line.
pub open spec fn leveled(
    list: Seq<(nat, Seq<char>)>,
    lines: Seq<Seq<char>>,
    depth: spec_fn(int) -> nat,
) -> bool {
    forall|k: int| 0 <= k < list.len() ==> stands(#[trigger] list[k], lines, depth)
}

proof fn lemma_levels_append(a: Seq<Node>, b: Seq<Node>, d: nat)
    ensures
        levels_all(a + b, d) == levels_all(a, d) + levels_all(b, d),
    decreases b.len(),
{
    if b.len() == 0 {
        assert(a + b =~= a);
        assert(levels_all(a, d) + levels_all(b, d) =~= levels_all(a, d));
    } else {
        lemma_levels_append(a, b.drop_last(), d);
        assert((a + b).drop_last() =~= a + b.drop_last());
        assert((a + b).last() == b.last());
        assert(levels_all(a, d) + levels_all(b, d) =~= (levels_all(a, d) + levels_all(
            b.drop_last(),
            d,
        )) + levels(b.last(), d));
    }
}

proof fn lemma_levels_section(key: Seq<char>, children: Seq<Node>, d: nat)
    ensures
        levels_all(seq![section(key, children)], d) == seq![(d, key)] + levels_all(children, d + 1),
{
    reveal_with_fuel(levels_all, 2);
    let list = seq![section(key, children)];
    assert(list.drop_last() =~= Seq::<Node>::empty());
    assert(list.last() == section(key, children));
    assert(levels_all(list, d) =~= seq![(d, key)] + levels_all(children, d + 1));
}

/// A section at line `i` and what follows it are on their levels.
proof fn lemma_leveled(
    lines: Seq<Seq<char>>,
    i: int,
    children: Seq<Node>,
    rest: Seq<Node>,
    d: nat,
    depth: spec_fn(int) -> nat,
)
    requires
        0 <= i < lines.len(),
        depth(i) == d,
        leveled(levels_all(children, d + 1), lines, depth),
        leveled(levels_all(rest, d), lines, depth),
    ensures
        leveled(
            levels_all(seq![section(annotated(lines, i), children)] + rest, d),
            lines,
            depth,
        ),
{
    let key = annotated(lines, i);
    lemma_levels_section(key, children, d);
    lemma_levels_append(seq![section(key, children)], rest, d);
    assert(line_shown(lines, i) == key);
    assert(stands((d, key), lines, depth));
}

/// The levels of a tree are levels of the texts that it shows, in their order.
pub proof fn law_levels_are_of_elements(list: Seq<Node>, d: nat)
    ensures
        levels_all(list, d).map_values(|at: (nat, Seq<char>)| at.1) == flat_all(list),
    decreases list,
{
    if list.len() == 0 {
        assert(levels_all(list, d).map_values(|at: (nat, Seq<char>)| at.1) =~= flat_all(list));
    } else {
        let last = list.last();
        law_levels_are_of_elements(list.drop_last(), d);
        if let Node::Branch(key, children) = last {
            law_levels_are_of_elements(children, d + 1);
            assert(levels(last, d).map_values(|at: (nat, Seq<char>)| at.1) =~= flat(last));
        } else {
            assert(levels(last, d).map_values(|at: (nat, Seq<char>)| at.1) =~= flat(last));
        }
        assert(levels_all(list, d).map_values(|at: (nat, Seq<char>)| at.1) =~= levels_all(
            list.drop_last(),
            d,
        ).map_values(|at: (nat, Seq<char>)| at.1) + levels(last, d).map_values(
            |at: (nat, Seq<char>)| at.1,
        ));
    }
}

// ---------------------------------------------------------------------------
// Python files
// ---------------------------------------------------------------------------

/// `f` is the first line behind `h` that is not blank.
pub open spec fn next_line(lines: Seq<Seq<char>>, h: int, f: int) -> bool {
    &&& h < f < lines.len()
    &&& trimmed(lines[f]).len() > 0
    &&& forall|r: int| h < r < f ==> trimmed(#[trigger] lines[r]).len() == 0
}

/// No line from `f` to `q` is indented less than `f`, but for blank ones.
pub open spec fn body_holds(lines: Seq<Seq<char>>, f: int, q: int) -> bool {
    forall|r: int|
        f <= r <= q && trimmed(#[trigger] lines[r]).len() > 0 ==> indent_width(lines[r])
            >= indent_width(lines[f])
}

/// Line `q` is in the body of the section that line `h` names: `h` ends with a
/// colon, the next line that is not blank is indented more, and up to `q` no line
/// is indented less than that one.
pub open spec fn in_body(lines: Seq<Seq<char>>, h: int, q: int) -> bool {
    &&& 0 <= h < q
    &&& ends_in(trimmed(lines[h]), ':')
    &&& exists|f: int| #[trigger]
        next_line(lines, h, f) && f <= q && indent_width(lines[f]) > indent_width(lines[h])
            && body_holds(lines, f, q)
}

/// Of how many of the first `k` lines the line `q` is in the body.
pub open spec fn bodies_around(lines: Seq<Seq<char>>, q: int, k: int) -> nat
    decreases k,
{
    if k <= 0 {
        0
    } else {
        bodies_around(lines, q, k - 1) + if in_body(lines, k - 1, q) {
            1nat
        } else {
            0nat
        }
    }
}

/// In how many bodies of a Python file each line is.
pub open spec fn python_level(lines: Seq<Seq<char>>) -> spec_fn(int) -> nat {
    |q: int| bodies_around(lines, q, q)
}

/// Every line from `i` to `q` that is not blank is indented by `base` or more.
pub open spec fn indented_from(lines: Seq<Seq<char>>, i: int, q: int, base: nat) -> bool {
    forall|r: int|
        i <= r <= q && trimmed(#[trigger] lines[r]).len() > 0 ==> indent_width(lines[r]) >= base
}

/// Of the lines in front of `i`, the bodies of `d` go on for as long as the lines
/// are indented by `base` or more.
pub open spec fn bodies_go_on(lines: Seq<Seq<char>>, i: int, base: nat, d: nat) -> bool {
    forall|q: int|
        i <= q < lines.len() && trimmed(lines[q]).len() > 0 && indented_from(lines, i, q, base)
            ==> #[trigger] bodies_around(lines, q, i) == d
}

proof fn lemma_next_line(lines: Seq<Seq<char>>, i: int) -> (f: int)
    requires
        0 <= i <= lines.len(),
    ensures
        i <= f <= lines.len(),
        forall|r: int| i <= r < f ==> trimmed(#[trigger] lines[r]).len() == 0,
        f < lines.len() ==> trimmed(lines[f]).len() > 0 && next_indent(lines, i) == indent_width(
            lines[f],
        ),
        f == lines.len() ==> next_indent(lines, i) == 0,
    decreases lines.len() - i,
{
    if i >= lines.len() {
        i
    } else if trimmed(lines[i]).len() == 0 {
        lemma_next_line(lines, i + 1)
    } else {
        i
    }
}

/// Bodies none of which holds `q` do not count.
proof fn lemma_no_bodies(lines: Seq<Seq<char>>, q: int, j: int, k: int)
    requires
        0 <= j <= k,
        forall|h: int| j <= h < k ==> !in_body(lines, h, q),
    ensures
        bodies_around(lines, q, k) == bodies_around(lines, q, j),
    decreases k - j,
{
    if j < k {
        lemma_no_bodies(lines, q, j, k - 1);
    }
}

/// Where a block of a Python file ends, and what its lines are indented by.
proof fn lemma_python_end(lines: Seq<Seq<char>>, i: int, base: nat)
    requires
        0 <= i <= lines.len(),
    ensures
        ({
            let end = python_block(lines, i, base).1;
            &&& i <= end <= lines.len()
            &&& indented_from(lines, i, end - 1, base)
            &&& end < lines.len() ==> trimmed(lines[end]).len() > 0 && indent_width(lines[end])
                < base
        }),
    decreases lines.len() - i,
{
    if i >= lines.len() {
    } else if trimmed(lines[i]).len() == 0 {
        lemma_python_end(lines, i + 1, base);
    } else if indent_width(lines[i]) < base {
    } else {
        let child = next_indent(lines, i + 1);
        if ends_in(trimmed(lines[i]), ':') && child > indent_width(lines[i]) {
            lemma_python_end(lines, i + 1, child);
            let next = python_block(lines, i + 1, child).1;
            lemma_python_end(lines, next, base);
        } else {
            lemma_python_end(lines, i + 1, base);
        }
    }
}

/// Line `i` names a section whose body is the block behind it: the bodies in
/// front of its lines are those in front of `i`, and its own.
proof fn lemma_into_body(lines: Seq<Seq<char>>, i: int, base: nat, d: nat)
    requires
        0 <= i < lines.len(),
        bodies_go_on(lines, i, base, d),
        trimmed(lines[i]).len() > 0,
        indent_width(lines[i]) >= base,
        ends_in(trimmed(lines[i]), ':'),
        next_indent(lines, i + 1) > indent_width(lines[i]),
    ensures
        bodies_go_on(lines, i + 1, next_indent(lines, i + 1), d + 1),
{
    let child = next_indent(lines, i + 1);
    let f = lemma_next_line(lines, i + 1);
    assert forall|q: int|
        i + 1 <= q < lines.len() && trimmed(lines[q]).len() > 0 && indented_from(
            lines,
            i + 1,
            q,
            child,
        ) implies #[trigger] bodies_around(lines, q, i + 1) == d + 1 by {
        assert(indented_from(lines, i, q, base));
        assert(bodies_around(lines, q, i) == d);
        assert(f <= q);
        assert(next_line(lines, i, f));
        assert(body_holds(lines, f, q));
        assert(in_body(lines, i, q));
    }
}

/// Behind the body of line `i` no line is in it, or in a body within it.
proof fn lemma_behind_body(lines: Seq<Seq<char>>, i: int, next: int, base: nat, d: nat)
    requires
        0 <= i < next <= lines.len(),
        bodies_go_on(lines, i, base, d),
        trimmed(lines[i]).len() > 0,
        indent_width(lines[i]) >= base,
        next_indent(lines, i + 1) > indent_width(lines[i]),
        indented_from(lines, i + 1, next - 1, next_indent(lines, i + 1)),
        next < lines.len() ==> trimmed(lines[next]).len() > 0 && indent_width(lines[next])
            < next_indent(lines, i + 1),
    ensures
        bodies_go_on(lines, next, base, d),
{
    let child = next_indent(lines, i + 1);
    let first = lemma_next_line(lines, i + 1);
    assert forall|q: int|
        next <= q < lines.len() && trimmed(lines[q]).len() > 0 && indented_from(
            lines,
            next,
            q,
            base,
        ) implies #[trigger] bodies_around(lines, q, next) == d by {
        assert forall|r: int|
            i <= r <= q && trimmed(#[trigger] lines[r]).len() > 0 implies indent_width(lines[r])
            >= base by {
            if i < r < next {
                assert(indent_width(lines[r]) >= child);
            }
        }
        assert(indented_from(lines, i, q, base));
        assert(bodies_around(lines, q, i) == d);
        assert forall|h: int| i <= h < next implies !in_body(lines, h, q) by {
            if in_body(lines, h, q) {
                let f = choose|f: int| #[trigger]
                    next_line(lines, h, f) && f <= q && indent_width(lines[f]) > indent_width(
                        lines[h],
                    ) && body_holds(lines, f, q);
                assert(trimmed(lines[h]).len() > 0);
                if h > i {
                    assert(indent_width(lines[h]) >= child);
                }
                assert(f <= next) by {
                    if f > next {
                        assert(trimmed(lines[next]).len() == 0);
                    }
                }
                if f < next {
                    assert(indent_width(lines[f]) >= child);
                    assert(indent_width(lines[next]) >= indent_width(lines[f]));
                } else if h == i {
                    assert(first <= next);
                    assert(first == next);
                }
            }
        }
        lemma_no_bodies(lines, q, i, next);
    }
}

/// A line that names no section has no body.
proof fn lemma_no_body(lines: Seq<Seq<char>>, i: int, base: nat, d: nat)
    requires
        0 <= i < lines.len(),
        bodies_go_on(lines, i, base, d),
        trimmed(lines[i]).len() == 0 || indent_width(lines[i]) >= base,
        !ends_in(trimmed(lines[i]), ':') || next_indent(lines, i + 1) <= indent_width(lines[i]),
    ensures
        bodies_go_on(lines, i + 1, base, d),
{
    let first = lemma_next_line(lines, i + 1);
    assert forall|q: int|
        i + 1 <= q < lines.len() && trimmed(lines[q]).len() > 0 && indented_from(
            lines,
            i + 1,
            q,
            base,
        ) implies #[trigger] bodies_around(lines, q, i + 1) == d by {
        assert(indented_from(lines, i, q, base));
        assert(bodies_around(lines, q, i) == d);
        if in_body(lines, i, q) {
            let f = choose|f: int| #[trigger]
                next_line(lines, i, f) && f <= q && indent_width(lines[f]) > indent_width(lines[i])
                    && body_holds(lines, f, q);
            if first < f {
                assert(trimmed(lines[first]).len() == 0);
            }
            assert(f == first);
        }
    }
}

/// The bodies that hold the header `h` hold what is in its body.
proof fn lemma_bodies_around_header(lines: Seq<Seq<char>>, h: int, q: int, k: int)
    requires
        in_body(lines, h, q),
        0 <= k <= h < lines.len(),
    ensures
        bodies_around(lines, h, k) <= bodies_around(lines, q, k),
    decreases k,
{
    if k > 0 {
        lemma_bodies_around_header(lines, h, q, k - 1);
        let g = k - 1;
        if in_body(lines, g, h) {
            let own = choose|f: int| #[trigger]
                next_line(lines, h, f) && f <= q && indent_width(lines[f]) > indent_width(lines[h])
                    && body_holds(lines, f, q);
            let f = choose|f: int| #[trigger]
                next_line(lines, g, f) && f <= h && indent_width(lines[f]) > indent_width(lines[g])
                    && body_holds(lines, f, h);
            assert(indent_width(lines[h]) >= indent_width(lines[f]));
            assert forall|r: int|
                f <= r <= q && trimmed(#[trigger] lines[r]).len() > 0 implies indent_width(lines[r])
                >= indent_width(lines[f]) by {
                if r > h {
                    assert(own <= r);
                    assert(indent_width(lines[r]) >= indent_width(lines[own]));
                }
            }
            assert(body_holds(lines, f, q));
            assert(in_body(lines, g, q));
        }
    }
}

proof fn lemma_bodies_add_up(lines: Seq<Seq<char>>, q: int, j: int, k: int)
    requires
        0 <= j <= k,
    ensures
        bodies_around(lines, q, j) <= bodies_around(lines, q, k),
    decreases k - j,
{
    if j < k {
        lemma_bodies_add_up(lines, q, j, k - 1);
    }
}

/// What is in the body of a header stands on a deeper level than the header, so
/// that behind the header and up to the end of its body all is below it.
pub proof fn law_body_is_below_its_header(lines: Seq<Seq<char>>, h: int, q: int, r: int)
    requires
        0 <= h < r <= q < lines.len(),
        in_body(lines, h, q),
        trimmed(lines[r]).len() > 0,
    ensures
        python_level(lines)(r) > python_level(lines)(h),
{
    let f = choose|f: int| #[trigger]
        next_line(lines, h, f) && f <= q && indent_width(lines[f]) > indent_width(lines[h])
            && body_holds(lines, f, q);
    assert(f <= r);
    assert(body_holds(lines, f, r));
    assert(in_body(lines, h, r));
    lemma_bodies_around_header(lines, h, r, h);
    lemma_bodies_add_up(lines, r, h + 1, r);
}

proof fn lemma_python_levels(lines: Seq<Seq<char>>, i: int, base: nat, d: nat)
    requires
        0 <= i <= lines.len(),
        bodies_go_on(lines, i, base, d),
    ensures
        leveled(levels_all(python_block(lines, i, base).0, d), lines, python_level(lines)),
    decreases lines.len() - i,
{
    if i >= lines.len() {
    } else if trimmed(lines[i]).len() == 0 {
        lemma_no_body(lines, i, base, d);
        lemma_python_levels(lines, i + 1, base, d);
    } else if indent_width(lines[i]) < base {
    } else {
        let child = next_indent(lines, i + 1);
        assert(indented_from(lines, i, i, base));
        assert(bodies_around(lines, i, i) == d);
        if ends_in(trimmed(lines[i]), ':') && child > indent_width(lines[i]) {
            let (children, next) = python_block(lines, i + 1, child);
            lemma_python_end(lines, i + 1, child);
            lemma_into_body(lines, i, base, d);
            lemma_python_levels(lines, i + 1, child, d + 1);
            lemma_behind_body(lines, i, next, base, d);
            lemma_python_levels(lines, next, base, d);
            let rest = python_block(lines, next, base);
            lemma_leveled(lines, i, children, rest.0, d, python_level(lines));
        } else {
            lemma_no_body(lines, i, base, d);
            lemma_python_levels(lines, i + 1, base, d);
            let rest = python_block(lines, i + 1, base);
            lemma_leveled(lines, i, Seq::empty(), rest.0, d, python_level(lines));
        }
    }
}

// ---------------------------------------------------------------------------
// Generic files
// ---------------------------------------------------------------------------

/// Line `q` of a generic file is the opening brace of the section that the line
/// in front of it names with a colon.
pub open spec fn opening_brace(lines: Seq<Seq<char>>, q: int) -> bool {
    &&& 0 < q < lines.len()
    &&& trimmed(lines[q]) == seq!['{']
    &&& ends_in(trimmed(lines[q - 1]), ':')
}

/// How many braces of sections are open in front of line `q` of a generic file.
pub open spec fn braces_open(lines: Seq<Seq<char>>, q: int) -> nat
    decreases q,
{
    if q <= 0 {
        0
    } else {
        let open = braces_open(lines, q - 1);
        if opening_brace(lines, q - 1) {
            open + 1
        } else if trimmed(lines[q - 1]) == seq!['}'] && open > 0 {
            (open - 1) as nat
        } else {
            open
        }
    }
}

/// How many braces of sections are open in front of each line of a generic file.
pub open spec fn generic_level(lines: Seq<Seq<char>>) -> spec_fn(int) -> nat {
    |q: int| braces_open(lines, q)
}

proof fn lemma_braces_open(lines: Seq<Seq<char>>, q: int)
    requires
        q <= lines.len(),
    ensures
        q < lines.len() ==> section_opener(lines, q) == opening_brace(lines, q),
        ffon_depth(lines, q) == braces_open(lines, q),
    decreases q,
{
    lemma_braces();
    if q > 0 {
        lemma_braces_open(lines, q - 1);
    }
}

proof fn lemma_ffon_levels(lines: Seq<Seq<char>>, i: int, inside: bool)
    requires
        0 <= i <= lines.len(),
        inside == (ffon_depth(lines, i) > 0),
        !section_opener(lines, i),
    ensures
        leveled(
            levels_all(ffon_block(lines, i, inside).0, ffon_depth(lines, i)),
            lines,
            generic_level(lines),
        ),
    decreases lines.len() - i,
{
    let depth = generic_level(lines);
    let d = ffon_depth(lines, i);
    lemma_braces();
    lemma_braces_open(lines, i);
    if i >= lines.len() || trimmed(lines[i]) == "}"@ {
    } else if trimmed(lines[i]).len() == 0 {
        lemma_ffon_levels(lines, i + 1, inside);
    } else {
        let nested = opens_braces(lines, i);
        let (children, next) = if nested {
            ffon_block(lines, i + 2, true)
        } else {
            (Seq::empty(), i + 1)
        };
        if nested {
            assert(section_opener(lines, i + 1));
            assert(ffon_depth(lines, i + 1) == d);
            assert(ffon_depth(lines, i + 2) == d + 1);
            let _ = lemma_ffon(lines, i + 2, true);
            lemma_ffon_levels(lines, i + 2, true);
        }
        assert(behind(lines, i, next) == next);
        let rest = ffon_block(lines, next, inside);
        if next < lines.len() {
            lemma_ffon_levels(lines, next, inside);
        }
        lemma_leveled(lines, i, children, rest.0, d, depth);
    }
}

proof fn lemma_ffon_file_levels(lines: Seq<Seq<char>>, i: int)
    requires
        0 <= i <= lines.len(),
        ffon_depth(lines, i) == 0,
        !section_opener(lines, i),
    ensures
        leveled(levels_all(ffon_file(lines, i), 0), lines, generic_level(lines)),
    decreases lines.len() - i,
{
    let depth = generic_level(lines);
    let (list, next) = ffon_block(lines, i, false);
    let _ = lemma_ffon(lines, i, false);
    lemma_ffon_levels(lines, i, false);
    lemma_braces();
    if next < lines.len() {
        lemma_braces_open(lines, next);
        let rest = ffon_file(lines, next + 1);
        lemma_ffon_file_levels(lines, next + 1);
        lemma_leveled(lines, next, Seq::empty(), rest, 0, depth);
        let leaf = Node::Leaf(annotated(lines, next));
        assert(section(annotated(lines, next), Seq::empty()) == leaf);
        lemma_levels_append(list, seq![leaf] + rest, 0);
        assert(list + (seq![leaf] + rest) =~= list + seq![leaf] + rest);
    }
}

// ---------------------------------------------------------------------------
// Files of the C family
// ---------------------------------------------------------------------------

/// How many sections are open around each line of a file of the C family. A line
/// that closes a section stands outside of it.
pub open spec fn cbrace_level(lines: Seq<Seq<char>>) -> spec_fn(int) -> nat {
    |q: int|
        if starts_in(trimmed(lines[q]), '}') {
            (cbrace_depth(lines, q) - 1) as nat
        } else {
            cbrace_depth(lines, q)
        }
}

proof fn lemma_cbrace_levels(lines: Seq<Seq<char>>, i: int, top: bool)
    requires
        0 <= i <= lines.len(),
        top == (cbrace_depth(lines, i) == 0),
    ensures
        leveled(
            levels_all(cbrace_block(lines, i, top).0, cbrace_depth(lines, i)),
            lines,
            cbrace_level(lines),
        ),
    decreases lines.len() - i, 1int,
{
    let depth = cbrace_level(lines);
    let d = cbrace_depth(lines, i);
    if i >= lines.len() {
    } else if trimmed(lines[i]).len() == 0 || (starts_in(trimmed(lines[i]), '}') && top) {
        lemma_cbrace_levels(lines, i + 1, top);
    } else if starts_in(trimmed(lines[i]), '}') {
    } else if ends_in(trimmed(lines[i]), '{') {
        let (children, end) = cbrace_block(lines, i + 1, false);
        let _ = lemma_cbrace(lines, i + 1, false);
        lemma_cbrace_levels(lines, i + 1, false);
        let (closing, next) = cbrace_closing(lines, end);
        let _ = lemma_cbrace_closing(lines, end);
        assert(behind(lines, i, end) == end);
        assert(behind(lines, i, next) == next);
        if end < lines.len() {
            lemma_closing_levels(lines, end);
        }
        let rest = cbrace_block(lines, next, top);
        if next < lines.len() {
            lemma_cbrace_levels(lines, next, top);
        }
        lemma_levels_append(closing, rest.0, d);
        lemma_leveled(lines, i, children, closing + rest.0, d, depth);
        let first = seq![section(annotated(lines, i), children)];
        assert(first + (closing + rest.0) =~= first + closing + rest.0);
    } else {
        let rest = cbrace_block(lines, i + 1, top);
        lemma_cbrace_levels(lines, i + 1, top);
        lemma_leveled(lines, i, Seq::empty(), rest.0, d, depth);
        assert(section(annotated(lines, i), Seq::empty()) == Node::Leaf(annotated(lines, i)));
    }
}

proof fn lemma_closing_levels(lines: Seq<Seq<char>>, i: int)
    requires
        0 <= i < lines.len(),
        starts_in(trimmed(lines[i]), '}'),
        cbrace_depth(lines, i) > 0,
    ensures
        leveled(
            levels_all(cbrace_closing(lines, i).0, (cbrace_depth(lines, i) - 1) as nat),
            lines,
            cbrace_level(lines),
        ),
    decreases lines.len() - i, 0int,
{
    let depth = cbrace_level(lines);
    let d = (cbrace_depth(lines, i) - 1) as nat;
    if ends_in(trimmed(lines[i]), '{') {
        let (children, end) = cbrace_block(lines, i + 1, false);
        let _ = lemma_cbrace(lines, i + 1, false);
        lemma_cbrace_levels(lines, i + 1, false);
        assert(behind(lines, i, end) == end);
        let rest = cbrace_closing(lines, end);
        if end < lines.len() {
            lemma_closing_levels(lines, end);
        }
        lemma_leveled(lines, i, children, rest.0, d, depth);
    } else {
        let leaf = Node::Leaf(annotated(lines, i));
        lemma_leveled(lines, i, Seq::empty(), Seq::empty(), d, depth);
        assert(section(annotated(lines, i), Seq::empty()) == leaf);
        assert(seq![leaf] + Seq::<Node>::empty() =~= seq![leaf]);
    }
}

// ---------------------------------------------------------------------------
// All files
// ---------------------------------------------------------------------------

/// `ext` is `word`, which is in lower case, in whatever case.
pub open spec fn spelled(ext: Seq<char>, word: Seq<char>) -> bool {
    &&& ext.len() == word.len()
    &&& forall|i: int|
        0 <= i < word.len() ==> #[trigger] ext[i] == word[i] || ext[i] as int == word[i] as int - 32
}

/// The extensions of files whose sections are indented.
pub open spec fn indented_file(ext: Seq<char>) -> bool {
    ||| spelled(ext, "py"@)
    ||| spelled(ext, "pyw"@)
    ||| spelled(ext, "pyi"@)
}

/// The extensions of files whose sections stand in braces.
pub open spec fn braced_file(ext: Seq<char>) -> bool {
    ||| spelled(ext, "c"@)
    ||| spelled(ext, "h"@)
    ||| spelled(ext, "cpp"@)
    ||| spelled(ext, "cxx"@)
    ||| spelled(ext, "cc"@)
    ||| spelled(ext, "hpp"@)
    ||| spelled(ext, "hxx"@)
    ||| spelled(ext, "js"@)
    ||| spelled(ext, "jsx"@)
    ||| spelled(ext, "mjs"@)
    ||| spelled(ext, "cjs"@)
    ||| spelled(ext, "ts"@)
    ||| spelled(ext, "tsx"@)
    ||| spelled(ext, "java"@)
    ||| spelled(ext, "go"@)
    ||| spelled(ext, "cs"@)
    ||| spelled(ext, "swift"@)
    ||| spelled(ext, "kt"@)
    ||| spelled(ext, "kts"@)
    ||| spelled(ext, "rs"@)
    ||| spelled(ext, "php"@)
    ||| spelled(ext, "css"@)
    ||| spelled(ext, "scss"@)
    ||| spelled(ext, "less"@)
}

proof fn lemma_spelled(ext: Seq<char>, word: Seq<char>)
    requires
        forall|i: int| 0 <= i < word.len() ==> 'a' <= #[trigger] word[i] <= 'z',
    ensures
        spelled(ext, word) <==> ext.map_values(|c: char| lower_ascii(c)) == word,
{
    let lower = ext.map_values(|c: char| lower_ascii(c));
    if spelled(ext, word) {
        assert forall|i: int| 0 <= i < word.len() implies lower[i] == word[i] by {
            assert('a' <= word[i] <= 'z');
            assert(ext[i] == word[i] || ext[i] as int == word[i] as int - 32);
        }
        assert(lower =~= word);
    }
    if lower == word {
        assert forall|i: int| 0 <= i < word.len() implies #[trigger] ext[i] == word[i]
            || ext[i] as int == word[i] as int - 32 by {
            assert(lower[i] == lower_ascii(ext[i]));
        }
    }
}

/// The extension of a file tells how its sections are told, in upper and in lower
/// case alike.
pub proof fn law_extension_is_read_in_any_case(ext: Seq<char>)
    ensures
        indented_file(ext) <==> python_ext(ext.map_values(|c: char| lower_ascii(c))),
        braced_file(ext) <==> cbrace_ext(ext.map_values(|c: char| lower_ascii(c))),
{
    reveal_strlit("py");
    reveal_strlit("pyw");
    reveal_strlit("pyi");
    reveal_strlit("c");
    reveal_strlit("h");
    reveal_strlit("cpp");
    reveal_strlit("cxx");
    reveal_strlit("cc");
    reveal_strlit("hpp");
    reveal_strlit("hxx");
    reveal_strlit("js");
    reveal_strlit("jsx");
    reveal_strlit("mjs");
    reveal_strlit("cjs");
    reveal_strlit("ts");
    reveal_strlit("tsx");
    reveal_strlit("java");
    reveal_strlit("go");
    reveal_strlit("cs");
    reveal_strlit("swift");
    reveal_strlit("kt");
    reveal_strlit("kts");
    reveal_strlit("rs");
    reveal_strlit("php");
    reveal_strlit("css");
    reveal_strlit("scss");
    reveal_strlit("less");
    lemma_spelled(ext, "py"@);
    lemma_spelled(ext, "pyw"@);
    lemma_spelled(ext, "pyi"@);
    lemma_spelled(ext, "c"@);
    lemma_spelled(ext, "h"@);
    lemma_spelled(ext, "cpp"@);
    lemma_spelled(ext, "cxx"@);
    lemma_spelled(ext, "cc"@);
    lemma_spelled(ext, "hpp"@);
    lemma_spelled(ext, "hxx"@);
    lemma_spelled(ext, "js"@);
    lemma_spelled(ext, "jsx"@);
    lemma_spelled(ext, "mjs"@);
    lemma_spelled(ext, "cjs"@);
    lemma_spelled(ext, "ts"@);
    lemma_spelled(ext, "tsx"@);
    lemma_spelled(ext, "java"@);
    lemma_spelled(ext, "go"@);
    lemma_spelled(ext, "cs"@);
    lemma_spelled(ext, "swift"@);
    lemma_spelled(ext, "kt"@);
    lemma_spelled(ext, "kts"@);
    lemma_spelled(ext, "rs"@);
    lemma_spelled(ext, "php"@);
    lemma_spelled(ext, "css"@);
    lemma_spelled(ext, "scss"@);
    lemma_spelled(ext, "less"@);
}

/// How deep each line of a file with the extension `ext` stands.
pub open spec fn line_level(lines: Seq<Seq<char>>, ext: Seq<char>) -> spec_fn(int) -> nat {
    if indented_file(ext) {
        python_level(lines)
    } else if braced_file(ext) {
        cbrace_level(lines)
    } else {
        generic_level(lines)
    }
}

/// Every line of a file stands below as many sections as are open around it. In a
/// file that is indented those are the headers in whose bodies the line is: a body
/// ends only in front of a line that is indented less than the body's first, and
/// blank lines end nothing. In the other files they are the sections whose braces
/// were opened, and not closed, in front of the line.
pub proof fn law_lines_are_on_their_levels(lines: Seq<Seq<char>>, ext: Seq<char>)
    ensures
        leveled(levels_all(file_tree(lines, ext), 0), lines, line_level(lines, ext)),
{
    law_extension_is_read_in_any_case(ext);
    lemma_python_levels(lines, 0, 0, 0);
    lemma_cbrace_levels(lines, 0, true);
    lemma_ffon_file_levels(lines, 0);
}

/// A file without an extension is a generic one.
pub proof fn law_file_without_extension(lines: Seq<Seq<char>>)
    ensures
        file_tree(lines, Seq::empty()) == ffon_file(lines, 0),
        line_level(lines, Seq::empty()) == generic_level(lines),
{
    law_extension_is_read_in_any_case(Seq::empty());
    reveal_strlit("py");
    reveal_strlit("pyw");
    reveal_strlit("pyi");
    reveal_strlit("c");
    reveal_strlit("h");
    reveal_strlit("cpp");
    reveal_strlit("cxx");
    reveal_strlit("cc");
    reveal_strlit("hpp");
    reveal_strlit("hxx");
    reveal_strlit("js");
    reveal_strlit("jsx");
    reveal_strlit("mjs");
    reveal_strlit("cjs");
    reveal_strlit("ts");
    reveal_strlit("tsx");
    reveal_strlit("java");
    reveal_strlit("go");
    reveal_strlit("cs");
    reveal_strlit("swift");
    reveal_strlit("kt");
    reveal_strlit("kts");
    reveal_strlit("rs");
    reveal_strlit("php");
    reveal_strlit("css");
    reveal_strlit("scss");
    reveal_strlit("less");
}

/// The braces that a generic file leaves out are those of its sections.
pub proof fn law_braces_are_those_of_sections(lines: Seq<Seq<char>>, q: int)
    requires
        0 <= q < lines.len(),
    ensures
        section_opener(lines, q) <==> opening_brace(lines, q),
        ffon_depth(lines, q) == braces_open(lines, q),
{
    lemma_braces_open(lines, q);
}

} // verus!
