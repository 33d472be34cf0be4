//! What the texts, lines and numbers that the editor works with are.

use vstd::prelude::*;

use crate::line_laws::{file_text, one_line};
use crate::tags::{all_digits, digits_value, lemma_decimal};
use crate::text::{
    decimal, ends_in, indent_of, indent_width, indented, joined, lemma_pieces_nonempty, lines_of,
    pieces, starts_in, text_less, trim_end, trimmed, white_space, without_cr, without_trailing,
};

verus! {

// ---------------------------------------------------------------------------
// White space
// ---------------------------------------------------------------------------

/// All of `s` is white space.
pub open spec fn blank(s: Seq<char>) -> bool {
    forall|i: int| 0 <= i < s.len() ==> white_space(#[trigger] s[i])
}

/// The indentation of a text is measured up to its first character that is not
/// white space, or to its end.
pub proof fn law_indent_width(s: Seq<char>)
    ensures
        indent_width(s) <= s.len(),
        blank(s.take(indent_width(s) as int)),
        indent_width(s) < s.len() ==> !white_space(s[indent_width(s) as int]),
    decreases s.len(),
{
    if s.len() > 0 && white_space(s[0]) {
        let rest = s.skip(1);
        law_indent_width(rest);
        let w = indent_width(s) as int;
        assert forall|i: int| 0 <= i < w implies white_space(#[trigger] s.take(w)[i]) by {
            if i > 0 {
                assert(rest.take(w - 1)[i - 1] == s[i]);
            }
        }
    }
}

/// The indentation of a text that is not blank is the longest stretch of white
/// space that it starts with; a blank text has none.
pub proof fn law_indentation(s: Seq<char>)
    ensures
        blank(s) ==> indent_of(s).len() == 0,
        !blank(s) ==> {
            &&& indent_of(s).len() < s.len()
            &&& indent_of(s) == s.take(indent_of(s).len() as int)
            &&& blank(indent_of(s))
            &&& !white_space(s[indent_of(s).len() as int])
        },
{
    law_indent_width(s);
    let w = indent_width(s) as int;
    if w == s.len() {
        assert(s.take(w) =~= s);
    }
}

proof fn lemma_trim_end_parts(s: Seq<char>)
    ensures
        trim_end(s).len() <= s.len(),
        trim_end(s) == s.take(trim_end(s).len() as int),
        blank(s.skip(trim_end(s).len() as int)),
        trim_end(s).len() > 0 ==> !white_space(trim_end(s).last()),
    decreases s.len(),
{
    if s.len() > 0 && white_space(s.last()) {
        let front = s.drop_last();
        lemma_trim_end_parts(front);
        let n = trim_end(s).len() as int;
        assert(front.take(n) =~= s.take(n));
        assert forall|i: int| 0 <= i < s.skip(n).len() implies white_space(
            #[trigger] s.skip(n)[i],
        ) by {
            if i < front.skip(n).len() {
                assert(front.skip(n)[i] == s.skip(n)[i]);
            }
        }
    } else {
        assert(s.take(s.len() as int) =~= s);
    }
}

/// A trimmed text is what is left between the white space at either end: it
/// neither starts nor ends with white space.
pub proof fn law_trimmed(s: Seq<char>)
    ensures
        exists|a: Seq<char>, b: Seq<char>|
            blank(a) && blank(b) && s == #[trigger] (a + trimmed(s) + b),
        trimmed(s).len() > 0 ==> !white_space(trimmed(s)[0]) && !white_space(trimmed(s).last()),
        blank(s) <==> trimmed(s).len() == 0,
{
    law_indent_width(s);
    let w = indent_width(s) as int;
    let rest = s.skip(w);
    lemma_trim_end_parts(rest);
    let n = trimmed(s).len() as int;
    let a = s.take(w);
    let b = rest.skip(n);
    assert(a + trimmed(s) + b =~= s);
    if n > 0 {
        assert(trimmed(s)[0] == s[w]);
    } else if w < s.len() {
        assert(b[0] == s[w]);
    } else {
        assert(s.take(w) =~= s);
    }
}

// ---------------------------------------------------------------------------
// Ends
// ---------------------------------------------------------------------------

/// A text ends or starts with a character when it is some text with that
/// character behind it or in front.
pub proof fn law_ends(s: Seq<char>, c: char)
    ensures
        ends_in(s, c) <==> exists|t: Seq<char>| s == #[trigger] t.push(c),
        starts_in(s, c) <==> exists|t: Seq<char>| s == seq![c] + t,
{
    if ends_in(s, c) {
        assert(s =~= s.drop_last().push(c));
    }
    if starts_in(s, c) {
        assert(s =~= seq![c] + s.skip(1));
    }
}

/// What is cut off the end of a text is all the same character, and what is left
/// does not end with it.
pub proof fn law_without_trailing(s: Seq<char>, c: char)
    ensures
        without_trailing(s, c).len() <= s.len(),
        without_trailing(s, c) == s.take(without_trailing(s, c).len() as int),
        forall|i: int| without_trailing(s, c).len() <= i < s.len() ==> #[trigger] s[i] == c,
        without_trailing(s, c).len() > 0 ==> without_trailing(s, c).last() != c,
    decreases s.len(),
{
    if s.len() > 0 && s.last() == c {
        let front = s.drop_last();
        law_without_trailing(front, c);
        let n = without_trailing(s, c).len() as int;
        assert(front.take(n) =~= s.take(n));
        assert forall|i: int| n <= i < s.len() implies #[trigger] s[i] == c by {
            if i < front.len() {
                assert(front[i] == s[i]);
            }
        }
    } else {
        assert(s.take(s.len() as int) =~= s);
    }
}

// ---------------------------------------------------------------------------
// Lines
// ---------------------------------------------------------------------------

/// The pieces of a text are the lines that it is made of: each newline ends one,
/// and the last has none.
pub proof fn law_pieces_from_the_front(line: Seq<char>, rest: Seq<char>)
    requires
        one_line(line),
    ensures
        pieces(line) == seq![line],
        pieces(line.push('\n') + rest) == seq![line] + pieces(rest),
    decreases rest.len(),
{
    crate::line_laws::lemma_pieces_of_one_line(line);
    let s = line.push('\n') + rest;
    if rest.len() == 0 {
        assert(s.drop_last() =~= line);
        assert(s.last() == '\n');
        assert(rest =~= Seq::empty());
        assert(pieces(s) =~= seq![line] + pieces(rest));
    } else {
        let front = rest.drop_last();
        law_pieces_from_the_front(line, front);
        lemma_pieces_nonempty(front);
        assert(s.drop_last() =~= line.push('\n') + front);
        assert(s.last() == rest.last());
        assert(pieces(s) =~= seq![line] + pieces(rest));
    }
}

/// The lines of a text, from the front: a newline ends a line, and a carriage
/// return in front of it belongs to the ending; what follows the last newline is
/// a line unless it is empty.
pub proof fn law_lines_from_the_front(line: Seq<char>, rest: Seq<char>)
    requires
        one_line(line),
    ensures
        lines_of(line) == if line.len() == 0 {
            Seq::empty()
        } else {
            seq![line]
        },
        lines_of(line.push('\n') + rest) == seq![
            if ends_in(line, '\r') {
                line.drop_last()
            } else {
                line
            },
        ] + lines_of(rest),
{
    law_pieces_from_the_front(line, rest);
    lemma_pieces_nonempty(rest);
    assert(lines_of(line) =~= if line.len() == 0 {
        Seq::empty()
    } else {
        seq![line]
    });
    let all = pieces(line.push('\n') + rest);
    let tail = pieces(rest);
    assert(all.last() == tail.last());
    assert(all.drop_last() =~= seq![line] + tail.drop_last());
    assert(lines_of(line.push('\n') + rest) =~= seq![without_cr(line)] + lines_of(rest));
}

/// Texts are joined with the separator between them, and nowhere else.
pub proof fn law_joined_parts(a: Seq<Seq<char>>, b: Seq<Seq<char>>, sep: char)
    ensures
        joined(Seq::empty(), sep) == Seq::<char>::empty(),
        a.len() == 1 ==> joined(a, sep) == a[0],
        a.len() > 0 && b.len() > 0 ==> joined(a + b, sep) == joined(a, sep) + seq![sep] + joined(
            b,
            sep,
        ),
    decreases b.len(),
{
    if a.len() > 0 && b.len() > 0 {
        let all = a + b;
        let front = b.drop_last();
        assert(all.drop_last() =~= a + front);
        assert(all.last() == b.last());
        if front.len() == 0 {
            assert(a + front =~= a);
            assert(b =~= seq![b[0]]);
            assert(joined(all, sep) =~= joined(a, sep) + seq![sep] + joined(b, sep));
        } else {
            law_joined_parts(a, front, sep);
            assert(joined(all, sep) =~= joined(a, sep) + seq![sep] + joined(b, sep));
        }
    }
}

/// A file is its lines with a newline between each two, and one behind the last
/// where that is asked for.
pub proof fn law_file_text(a: Seq<Seq<char>>, b: Seq<Seq<char>>, trailing: bool)
    ensures
        file_text(a, true) == file_text(a, false).push('\n'),
        file_text(Seq::empty(), false) == Seq::<char>::empty(),
        a.len() == 1 ==> file_text(a, false) == a[0],
        a.len() > 0 && b.len() > 0 ==> file_text(a + b, trailing) == file_text(a, true) + file_text(
            b,
            trailing,
        ),
{
    law_joined_parts(a, b, '\n');
    if a.len() > 0 && b.len() > 0 {
        assert(file_text(a + b, trailing) =~= file_text(a, true) + file_text(b, trailing));
    }
}

/// What is typed becomes a line for each of its lines, with the indentation in
/// front of each that is not empty.
pub proof fn law_typed_lines(line: Seq<char>, rest: Seq<char>, indent: Seq<char>)
    requires
        one_line(line),
    ensures
        line.len() == 0 ==> indented(line, indent) == seq![line],
        line.len() > 0 ==> indented(line, indent) == seq![indent + line],
        indented(line.push('\n') + rest, indent) == indented(line, indent) + indented(rest, indent),
{
    law_pieces_from_the_front(line, rest);
    if line.len() == 0 {
        assert(indented(line, indent) =~= seq![line]);
    } else {
        assert(indented(line, indent) =~= seq![indent + line]);
    }
    assert(indented(line.push('\n') + rest, indent) =~= indented(line, indent) + indented(
        rest,
        indent,
    ));
}

// ---------------------------------------------------------------------------
// Numbers and order
// ---------------------------------------------------------------------------

/// A number is written in decimal digits, without zeros in front.
pub proof fn law_decimal(n: nat)
    ensures
        all_digits(decimal(n)),
        digits_value(decimal(n)) == n,
        decimal(n).len() > 1 ==> decimal(n)[0] != '0',
    decreases n,
{
    lemma_decimal(n);
    if n >= 10 {
        law_decimal(n / 10);
        assert(decimal(n)[0] == decimal(n / 10)[0]);
        if n / 10 < 10 {
            reveal_with_fuel(digits_value, 2);
            assert(decimal(n / 10).drop_last() =~= Seq::empty());
        } else {
            lemma_decimal(n / 10 / 10);
        }
    }
}

/// A digit behind others makes ten times their number and its own.
pub proof fn law_digits_value(s: Seq<char>, c: char)
    requires
        '0' <= c <= '9',
    ensures
        digits_value(Seq::empty()) == 0,
        digits_value(s.push(c)) == 10 * digits_value(s) + (c as int - '0' as int),
{
    assert(s.push(c).drop_last() =~= s);
}

/// `a` comes before `b` at position `p`: they are the same up to there, and there
/// `a` ends or has the smaller character.
pub open spec fn before_at(a: Seq<char>, b: Seq<char>, p: int) -> bool {
    &&& 0 <= p <= a.len()
    &&& p < b.len()
    &&& forall|i: int| 0 <= i < p ==> a[i] == #[trigger] b[i]
    &&& p < a.len() ==> (a[p] as int) < (b[p] as int)
}

proof fn lemma_before_at(a: Seq<char>, b: Seq<char>, p: int)
    requires
        before_at(a, b, p),
    ensures
        text_less(a, b),
    decreases p,
{
    if p > 0 {
        assert(a[0] == b[0]);
        let x = a.skip(1);
        let y = b.skip(1);
        assert forall|i: int| 0 <= i < p - 1 implies x[i] == #[trigger] y[i] by {
            assert(a[i + 1] == b[i + 1]);
        }
        lemma_before_at(x, y, p - 1);
    }
}

proof fn lemma_difference(a: Seq<char>, b: Seq<char>) -> (p: int)
    requires
        text_less(a, b),
    ensures
        before_at(a, b, p),
    decreases a.len(),
{
    if a.len() == 0 || a[0] != b[0] {
        0
    } else {
        let x = a.skip(1);
        let y = b.skip(1);
        let p = lemma_difference(x, y) + 1;
        assert forall|i: int| 0 <= i < p implies a[i] == #[trigger] b[i] by {
            if i > 0 {
                assert(x[i - 1] == y[i - 1]);
            }
        }
        p
    }
}

/// A text comes before another when it is the start of it, or has the smaller
/// character where they first differ. Of two different texts exactly one comes
/// before the other.
pub proof fn law_text_order(a: Seq<char>, b: Seq<char>)
    ensures
        text_less(a, b) <==> exists|p: int| before_at(a, b, p),
        a != b ==> text_less(a, b) != text_less(b, a),
        a == b ==> !text_less(a, b),
    decreases a.len(),
{
    if text_less(a, b) {
        let p = lemma_difference(a, b);
        assert(before_at(a, b, p));
    }
    if exists|p: int| before_at(a, b, p) {
        let p = choose|p: int| before_at(a, b, p);
        lemma_before_at(a, b, p);
    }
    if a.len() > 0 && b.len() > 0 && a[0] == b[0] {
        law_text_order(a.skip(1), b.skip(1));
        if a.skip(1) == b.skip(1) {
            assert(a =~= seq![a[0]] + a.skip(1));
            assert(b =~= seq![b[0]] + b.skip(1));
        }
    } else if a.len() == 0 && b.len() == 0 {
        assert(a =~= b);
    }
}

} // verus!
