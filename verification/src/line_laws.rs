//! Files as lists of lines, and back.

use vstd::prelude::*;

use crate::text::{
    ends_in, indented, joined, lemma_pieces_nonempty, lines_of, pieces, without_cr,
};

verus! {

/// What a file with the lines `lines` holds; `trailing` tells whether the last
/// line ends with a newline too.
pub open spec fn file_text(lines: Seq<Seq<char>>, trailing: bool) -> Seq<char> {
    if trailing {
        joined(lines, '\n').push('\n')
    } else {
        joined(lines, '\n')
    }
}

/// `s` has no newline.
pub open spec fn one_line(s: Seq<char>) -> bool {
    forall|i: int| 0 <= i < s.len() ==> #[trigger] s[i] != '\n'
}

/// The lines of a file come back when the file is read again: none holds a
/// newline, none that is ended by one has a carriage return at its end, and the
/// last one is not lost for being empty.
pub open spec fn settled(lines: Seq<Seq<char>>, trailing: bool) -> bool {
    &&& forall|i: int| 0 <= i < lines.len() ==> one_line(#[trigger] lines[i])
    &&& forall|i: int|
        0 <= i < lines.len() && (trailing || i < lines.len() - 1) ==> !ends_in(
            #[trigger] lines[i],
            '\r',
        )
    &&& if trailing {
        lines.len() > 0
    } else {
        lines.len() == 0 || lines.last().len() > 0
    }
}

/// No newline in `s` has a carriage return in front.
pub open spec fn no_crlf(s: Seq<char>) -> bool {
    forall|i: int| 0 < i < s.len() && #[trigger] s[i] == '\n' ==> s[i - 1] != '\r'
}

proof fn lemma_joined_push(parts: Seq<Seq<char>>, last: Seq<char>, sep: char)
    requires
        parts.len() > 0,
    ensures
        joined(parts.push(last), sep) == joined(parts, sep).push(sep) + last,
{
    assert(parts.push(last).drop_last() =~= parts);
}

/// An empty line behind others is a newline behind them.
pub proof fn lemma_joined_blank(lines: Seq<Seq<char>>)
    requires
        lines.len() > 0,
    ensures
        joined(lines.push(Seq::empty()), '\n') == joined(lines, '\n').push('\n'),
{
    lemma_joined_push(lines, Seq::empty(), '\n');
    assert(joined(lines, '\n').push('\n') + Seq::<char>::empty() =~= joined(lines, '\n').push('\n'));
}

/// Splitting a text at its newlines and joining the pieces gives the text.
pub proof fn law_join_undoes_split(s: Seq<char>)
    ensures
        joined(pieces(s), '\n') == s,
    decreases s.len(),
{
    if s.len() == 0 {
        assert(joined(pieces(s), '\n') =~= s);
    } else {
        let before = pieces(s.drop_last());
        law_join_undoes_split(s.drop_last());
        lemma_pieces_nonempty(s.drop_last());
        if s.last() == '\n' {
            lemma_joined_push(before, Seq::empty(), '\n');
            assert(joined(pieces(s), '\n') =~= s);
        } else {
            let last = before.last().push(s.last());
            assert(s.drop_last().push(s.last()) =~= s);
            if before.len() == 1 {
                assert(pieces(s) =~= seq![last]);
                assert(joined(pieces(s), '\n') == last);
            } else {
                lemma_joined_push(before.drop_last(), last, '\n');
                lemma_joined_push(before.drop_last(), before.last(), '\n');
                assert(before.drop_last().push(before.last()) =~= before);
                assert(joined(pieces(s), '\n') =~= s);
            }
        }
    }
}

/// A line behind a newline is a piece of its own.
proof fn lemma_pieces_of_line(a: Seq<char>, b: Seq<char>)
    requires
        one_line(b),
    ensures
        pieces(a.push('\n') + b) == pieces(a).push(b),
    decreases b.len(),
{
    let s = a.push('\n') + b;
    if b.len() == 0 {
        assert(s.drop_last() =~= a);
        assert(b =~= Seq::empty());
    } else {
        assert forall|i: int| 0 <= i < b.drop_last().len() implies #[trigger] b.drop_last()[i]
            != '\n' by {
            assert(b.drop_last()[i] == b[i]);
        }
        lemma_pieces_of_line(a, b.drop_last());
        assert(s.drop_last() =~= a.push('\n') + b.drop_last());
        assert(s.last() == b[b.len() - 1]);
        assert(b.drop_last().push(b.last()) =~= b);
        assert(pieces(s) =~= pieces(a).push(b));
    }
}

/// A text without a newline is one piece.
pub proof fn lemma_pieces_of_one_line(b: Seq<char>)
    requires
        one_line(b),
    ensures
        pieces(b) == seq![b],
    decreases b.len(),
{
    if b.len() == 0 {
        assert(b =~= Seq::empty());
    } else {
        assert forall|i: int| 0 <= i < b.drop_last().len() implies #[trigger] b.drop_last()[i]
            != '\n' by {
            assert(b.drop_last()[i] == b[i]);
        }
        lemma_pieces_of_one_line(b.drop_last());
        assert(b.last() == b[b.len() - 1]);
        assert(b.drop_last().push(b.last()) =~= b);
        assert(pieces(b) =~= seq![b]);
    }
}

/// Joining lines with newlines and splitting the result gives the lines.
pub proof fn law_split_undoes_join(lines: Seq<Seq<char>>)
    requires
        lines.len() > 0,
        forall|i: int| 0 <= i < lines.len() ==> one_line(#[trigger] lines[i]),
    ensures
        pieces(joined(lines, '\n')) == lines,
    decreases lines.len(),
{
    assert(one_line(lines[lines.len() - 1]));
    if lines.len() == 1 {
        lemma_pieces_of_one_line(lines[0]);
        assert(seq![lines[0]] =~= lines);
    } else {
        let front = lines.drop_last();
        assert forall|i: int| 0 <= i < front.len() implies one_line(#[trigger] front[i]) by {
            assert(front[i] == lines[i]);
        }
        law_split_undoes_join(front);
        lemma_pieces_of_line(joined(front, '\n'), lines.last());
        assert(front.push(lines.last()) =~= lines);
    }
}

/// No piece holds a newline.
pub proof fn lemma_pieces_are_lines(s: Seq<char>)
    ensures
        forall|i: int| 0 <= i < pieces(s).len() ==> one_line(#[trigger] pieces(s)[i]),
    decreases s.len(),
{
    if s.len() > 0 {
        lemma_pieces_are_lines(s.drop_last());
        lemma_pieces_nonempty(s.drop_last());
        let before = pieces(s.drop_last());
        assert forall|i: int| 0 <= i < pieces(s).len() implies one_line(#[trigger] pieces(s)[i]) by {
            if i < before.len() - 1 {
                assert(pieces(s)[i] == before[i]);
            } else if s.last() == '\n' {
                if i == before.len() - 1 {
                    assert(pieces(s)[i] == before[i]);
                }
            } else {
                assert(one_line(before[before.len() - 1]));
                assert(pieces(s)[i] == before.last().push(s.last()));
            }
        }
    }
}

/// The lines of a text hold no newline.
pub proof fn lemma_lines_are_lines(s: Seq<char>)
    ensures
        forall|i: int| 0 <= i < lines_of(s).len() ==> one_line(#[trigger] lines_of(s)[i]),
{
    lemma_pieces_are_lines(s);
    lemma_pieces_nonempty(s);
    assert forall|i: int| 0 <= i < lines_of(s).len() implies one_line(#[trigger] lines_of(s)[i]) by {
        assert(one_line(pieces(s)[i]));
    }
}

/// The lines of a file that was made of lines without newlines: the same lines,
/// but for carriage returns in front of newlines and an empty last line.
pub proof fn lemma_lines_of_file_text(lines: Seq<Seq<char>>, trailing: bool)
    requires
        lines.len() > 0,
        forall|i: int| 0 <= i < lines.len() ==> one_line(#[trigger] lines[i]),
    ensures
        pieces(file_text(lines, trailing)) == if trailing {
            lines.push(Seq::empty())
        } else {
            lines
        },
{
    law_split_undoes_join(lines);
    if trailing {
        let text = joined(lines, '\n');
        lemma_pieces_of_line(text, Seq::empty());
        assert(text.push('\n') + Seq::<char>::empty() =~= text.push('\n'));
    }
}

/// Reading a file gives the lines that it was written from, exactly when those
/// lines are settled.
pub proof fn law_lines_come_back(lines: Seq<Seq<char>>, trailing: bool)
    ensures
        lines_of(file_text(lines, trailing)) == lines <==> settled(lines, trailing),
{
    let text = file_text(lines, trailing);
    let back = lines_of(text);
    lemma_lines_are_lines(text);
    if lines.len() == 0 {
        if trailing {
            assert(text =~= seq!['\n']);
            assert(text.drop_last() =~= Seq::empty());
            reveal_with_fuel(pieces, 2);
            assert(back.len() == 1);
        } else {
            assert(back =~= lines);
        }
    } else if forall|i: int| 0 <= i < lines.len() ==> one_line(#[trigger] lines[i]) {
        lemma_lines_of_file_text(lines, trailing);
        let all = pieces(text);
        if settled(lines, trailing) {
            assert(back =~= lines);
        }
        if back == lines {
            assert forall|i: int|
                0 <= i < lines.len() && (trailing || i < lines.len() - 1) implies !ends_in(
                #[trigger] lines[i],
                '\r',
            ) by {
                assert(all[i] == lines[i]);
                assert(back[i] == without_cr(lines[i]));
            }
            if !trailing && lines.last().len() == 0 {
                assert(back.len() == lines.len() - 1);
            }
        }
    } else {
        let i = choose|i: int| 0 <= i < lines.len() && !one_line(#[trigger] lines[i]);
        if back == lines {
            assert(one_line(back[i]));
        }
    }
}

/// All of `lines` are without a newline.
pub open spec fn all_lines(lines: Seq<Seq<char>>) -> bool {
    forall|i: int| 0 <= i < lines.len() ==> one_line(#[trigger] lines[i])
}

/// `lines` without the carriage returns that are lost when a file made of them is
/// read: those at the end of lines that are ended by a newline.
pub open spec fn stripped(lines: Seq<Seq<char>>, trailing: bool) -> Seq<Seq<char>> {
    Seq::new(
        lines.len(),
        |i: int|
            if trailing || i < lines.len() - 1 {
                without_cr(lines[i])
            } else {
                lines[i]
            },
    )
}

/// None of `lines` that is ended by a newline has a carriage return at its end.
pub open spec fn uncut(lines: Seq<Seq<char>>, trailing: bool) -> bool {
    forall|i: int|
        0 <= i < lines.len() && (trailing || i < lines.len() - 1) ==> !ends_in(
            #[trigger] lines[i],
            '\r',
        )
}

/// The same of all of `lines` but that at `k`.
pub open spec fn uncut_but(lines: Seq<Seq<char>>, trailing: bool, k: int) -> bool {
    forall|i: int|
        0 <= i < lines.len() && i != k && (trailing || i < lines.len() - 1) ==> !ends_in(
            #[trigger] lines[i],
            '\r',
        )
}

/// What the user types becomes lines.
pub proof fn lemma_typed_lines(typed: Seq<char>, indent: Seq<char>)
    requires
        one_line(indent),
    ensures
        indented(typed, indent).len() == pieces(typed).len() > 0,
        all_lines(indented(typed, indent)),
{
    lemma_pieces_nonempty(typed);
    lemma_pieces_are_lines(typed);
    assert forall|i: int| 0 <= i < indented(typed, indent).len() implies one_line(
        #[trigger] indented(typed, indent)[i],
    ) by {
        assert(one_line(pieces(typed)[i]));
    }
}

/// The text of a file with settled lines ends with a newline exactly when its
/// last line does.
pub proof fn lemma_settled_end(lines: Seq<Seq<char>>, trailing: bool)
    requires
        settled(lines, trailing),
    ensures
        ends_in(file_text(lines, trailing), '\n') == trailing,
{
    if !trailing && lines.len() > 0 {
        let last = lines.last();
        assert(one_line(lines[lines.len() - 1]));
        assert(last[last.len() - 1] != '\n');
        assert(joined(lines, '\n').last() == last[last.len() - 1]);
    }
}

/// A piece with a carriage return at its end, other than the last, stands
/// before a newline.
proof fn lemma_no_crlf_pieces(s: Seq<char>)
    requires
        no_crlf(s),
    ensures
        forall|i: int| 0 <= i < pieces(s).len() - 1 ==> !ends_in(#[trigger] pieces(s)[i], '\r'),
        ends_in(pieces(s).last(), '\r') ==> ends_in(s, '\r'),
    decreases s.len(),
{
    if s.len() > 0 {
        let front = s.drop_last();
        let before = pieces(front);
        assert forall|i: int| 0 < i < front.len() && #[trigger] front[i] == '\n' implies front[i - 1]
            != '\r' by {
            assert(s[i] == front[i]);
        }
        lemma_no_crlf_pieces(front);
        lemma_pieces_nonempty(front);
        assert forall|i: int| 0 <= i < pieces(s).len() - 1 implies !ends_in(
            #[trigger] pieces(s)[i],
            '\r',
        ) by {
            assert(pieces(s)[i] == before[i]);
            if i == before.len() - 1 && ends_in(before.last(), '\r') {
                assert(s[s.len() - 1] == '\n');
                assert(front.last() == s[s.len() - 2]);
            }
        }
    }
}

/// A file whose lines end with a bare newline is written back as it was read.
pub proof fn law_file_comes_back(contents: Seq<char>)
    requires
        no_crlf(contents),
    ensures
        file_text(lines_of(contents), ends_in(contents, '\n')) == contents,
{
    let all = pieces(contents);
    let lines = lines_of(contents);
    lemma_pieces_nonempty(contents);
    lemma_no_crlf_pieces(contents);
    law_join_undoes_split(contents);
    let ended = all.drop_last().map_values(|p: Seq<char>| without_cr(p));
    assert(ended =~= all.drop_last());
    if contents.len() == 0 {
        assert(lines =~= Seq::empty());
        assert(file_text(lines, false) =~= contents);
    } else if contents.last() == '\n' {
        assert(all.last() =~= Seq::<char>::empty());
        assert(lines == all.drop_last());
        lemma_pieces_nonempty(contents.drop_last());
        lemma_joined_push(all.drop_last(), all.last(), '\n');
        assert(all.drop_last().push(all.last()) =~= all);
        assert(file_text(lines, true) =~= contents);
    } else {
        assert(all.drop_last().push(all.last()) =~= all);
        assert(lines == all);
    }
}

} // verus!
