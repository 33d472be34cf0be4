//! Texts: lines, indentation, trimming, splitting and joining.
//!
//! A text is modelled as the sequence of its characters, a list of texts as a
//! sequence of such sequences (see [`texts`]).

use vstd::prelude::*;

verus! {

// ---------------------------------------------------------------------------
// Model
// ---------------------------------------------------------------------------

/// The characters of each text of a list.
pub open spec fn texts(list: Seq<String>) -> Seq<Seq<char>> {
    Seq::new(list.len(), |i: int| list[i]@)
}

/// The characters with the Unicode property `White_Space`.
pub open spec fn white_space(c: char) -> bool {
    let n = c as u32;
    ||| 0x9 <= n <= 0xd
    ||| n == 0x20
    ||| n == 0x85
    ||| n == 0xa0
    ||| n == 0x1680
    ||| 0x2000 <= n <= 0x200a
    ||| n == 0x2028
    ||| n == 0x2029
    ||| n == 0x202f
    ||| n == 0x205f
    ||| n == 0x3000
}

/// How many white-space characters `s` starts with.
pub open spec fn indent_width(s: Seq<char>) -> nat
    decreases s.len(),
{
    if s.len() > 0 && white_space(s[0]) {
        1 + indent_width(s.skip(1))
    } else {
        0
    }
}

/// The white space `s` starts with. A text of nothing but white space counts
/// as having none.
pub open spec fn indent_of(s: Seq<char>) -> Seq<char> {
    if indent_width(s) < s.len() {
        s.take(indent_width(s) as int)
    } else {
        Seq::empty()
    }
}

/// `s` without the white space at its end.
pub open spec fn trim_end(s: Seq<char>) -> Seq<char>
    decreases s.len(),
{
    if s.len() > 0 && white_space(s.last()) {
        trim_end(s.drop_last())
    } else {
        s
    }
}

/// `s` without the white space at either end.
pub open spec fn trimmed(s: Seq<char>) -> Seq<char> {
    trim_end(s.skip(indent_width(s) as int))
}

/// `s` without the characters `c` at its end.
pub open spec fn without_trailing(s: Seq<char>, c: char) -> Seq<char>
    decreases s.len(),
{
    if s.len() > 0 && s.last() == c {
        without_trailing(s.drop_last(), c)
    } else {
        s
    }
}

/// `s` ends with the character `c`.
pub open spec fn ends_in(s: Seq<char>, c: char) -> bool {
    s.len() > 0 && s.last() == c
}

/// `s` starts with the character `c`.
pub open spec fn starts_in(s: Seq<char>, c: char) -> bool {
    s.len() > 0 && s[0] == c
}

/// The stretches of `s` between its newlines: one more than it has newlines.
pub open spec fn pieces(s: Seq<char>) -> Seq<Seq<char>>
    decreases s.len(),
{
    if s.len() == 0 {
        seq![Seq::<char>::empty()]
    } else {
        let before = pieces(s.drop_last());
        if s.last() == '\n' {
            before.push(Seq::empty())
        } else {
            before.drop_last().push(before.last().push(s.last()))
        }
    }
}

/// `s` without the carriage return at its end, if it has one.
pub open spec fn without_cr(s: Seq<char>) -> Seq<char> {
    if ends_in(s, '\r') {
        s.drop_last()
    } else {
        s
    }
}

/// The lines of `s`. A line ends with a newline or a carriage return and a
/// newline, which are not part of it; the last line may lack that ending.
pub open spec fn lines_of(s: Seq<char>) -> Seq<Seq<char>> {
    let all = pieces(s);
    let ended = all.drop_last().map_values(|p: Seq<char>| without_cr(p));
    if all.last().len() == 0 {
        ended
    } else {
        ended.push(all.last())
    }
}

/// The texts of `parts`, one after the other, with `sep` between each two.
pub open spec fn joined(parts: Seq<Seq<char>>, sep: char) -> Seq<char>
    decreases parts.len(),
{
    if parts.len() == 0 {
        Seq::empty()
    } else if parts.len() == 1 {
        parts[0]
    } else {
        joined(parts.drop_last(), sep).push(sep) + parts.last()
    }
}

/// One line per piece of `s`, each with `indent` before it unless it is empty.
pub open spec fn indented(s: Seq<char>, indent: Seq<char>) -> Seq<Seq<char>> {
    pieces(s).map_values(
        |p: Seq<char>|
            if p.len() == 0 {
                p
            } else {
                indent + p
            },
    )
}

/// The ASCII lower-case form of `c`.
pub open spec fn lower_ascii(c: char) -> char {
    if 'A' <= c <= 'Z' {
        (c as u32 + 32) as char
    } else {
        c
    }
}

/// The decimal digit for `d`.
pub open spec fn digit(d: nat) -> char {
    (48 + d) as char
}

/// `n` in decimal, without leading zeros.
pub open spec fn decimal(n: nat) -> Seq<char>
    decreases n,
{
    if n < 10 {
        seq![digit(n)]
    } else {
        decimal(n / 10).push(digit(n % 10))
    }
}

/// `a` comes before `b` in the order of their characters.
pub open spec fn text_less(a: Seq<char>, b: Seq<char>) -> bool
    decreases a.len(),
{
    if b.len() == 0 {
        false
    } else if a.len() == 0 {
        true
    } else if a[0] != b[0] {
        (a[0] as int) < (b[0] as int)
    } else {
        text_less(a.skip(1), b.skip(1))
    }
}

/// A text put behind a list goes behind its texts.
pub proof fn lemma_texts_push(list: Seq<String>, s: String)
    ensures
        texts(list.push(s)) == texts(list).push(s@),
{
    assert(texts(list.push(s)) =~= texts(list).push(s@));
}

// ---------------------------------------------------------------------------
// Characters and strings
// ---------------------------------------------------------------------------

/// `String::push`: the character goes behind the text.
pub assume_specification[ String::push ](s: &mut String, c: char)
    ensures
        final(s)@ == old(s)@.push(c),
;

/// The characters of `s`.
pub(crate) fn chars_of(s: &str) -> (r: Vec<char>)
    ensures
        r@ == s@,
{
    let mut out: Vec<char> = Vec::new();
    for c in it: s.chars()
        invariant
            it.seq() == s@,
            out@ == it.seq().take(it.index() as int),
    {
        out.push(c);
    }
    out
}

/// The characters `from..to` of `v` as a text.
pub(crate) fn text_of(v: &Vec<char>, from: usize, to: usize) -> (r: String)
    requires
        from <= to <= v@.len(),
    ensures
        r@ == v@.subrange(from as int, to as int),
{
    let mut out: String = String::new();
    let mut i: usize = from;
    while i < to
        invariant
            from <= i <= to <= v@.len(),
            out@ == v@.subrange(from as int, i as int),
        decreases to - i,
    {
        out.push(v[i]);
        i += 1;
    }
    out
}

/// Whether `a` and `b` are the same text.
pub(crate) fn same(a: &str, b: &str) -> (r: bool)
    ensures
        r == (a@ == b@),
{
    a.to_owned() == b.to_owned()
}

/// `a` followed by `b`.
pub(crate) fn concat(a: &str, b: &str) -> (r: String)
    ensures
        r@ == a@ + b@,
{
    let mut out: String = a.to_owned();
    out.append(b);
    out
}

/// Whether `c` is white space.
pub fn is_whitespace(c: char) -> (r: bool)
    ensures
        r == white_space(c),
{
    let n: u32 = c as u32;
    (0x9 <= n && n <= 0xd) || n == 0x20 || n == 0x85 || n == 0xa0 || n == 0x1680 || (0x2000 <= n
        && n <= 0x200a) || n == 0x2028 || n == 0x2029 || n == 0x202f || n == 0x205f || n == 0x3000
}

/// Whether `s` ends with `c`.
pub(crate) fn ends_with(s: &str, c: char) -> (r: bool)
    ensures
        r == ends_in(s@, c),
{
    let v = chars_of(s);
    v.len() > 0 && v[v.len() - 1] == c
}

/// Whether `s` starts with `c`.
pub(crate) fn starts_with(s: &str, c: char) -> (r: bool)
    ensures
        r == starts_in(s@, c),
{
    let v = chars_of(s);
    v.len() > 0 && v[0] == c
}

// ---------------------------------------------------------------------------
// Indentation and trimming
// ---------------------------------------------------------------------------

/// The number of leading white-space characters among the first `k`, when all
/// of them are white space, is `k` plus that of the rest.
proof fn lemma_indent_width(s: Seq<char>, k: int)
    requires
        0 <= k <= s.len(),
        forall|i: int| 0 <= i < k ==> white_space(#[trigger] s[i]),
    ensures
        indent_width(s) == k + indent_width(s.skip(k)),
    decreases k,
{
    if k == 0 {
        assert(s.skip(0) =~= s);
    } else {
        assert forall|i: int| 0 <= i < k - 1 implies white_space(#[trigger] s.skip(1)[i]) by {
            assert(s.skip(1)[i] == s[i + 1]);
        }
        lemma_indent_width(s.skip(1), k - 1);
        assert(s.skip(1).skip(k - 1) =~= s.skip(k));
    }
}

fn indent_end(v: &Vec<char>) -> (r: usize)
    ensures
        r == indent_width(v@),
        r <= v@.len(),
{
    let mut i: usize = 0;
    while i < v.len() && is_whitespace(v[i])
        invariant
            i <= v@.len(),
            forall|j: int| 0 <= j < i ==> white_space(#[trigger] v@[j]),
        decreases v@.len() - i,
    {
        i += 1;
    }
    proof {
        lemma_indent_width(v@, i as int);
    }
    i
}

/// How many white-space characters `line` starts with.
pub fn measure_indent(line: &str) -> (r: usize)
    ensures
        r == indent_width(line@),
{
    indent_end(&chars_of(line))
}

/// The white space `s` starts with, or nothing when `s` holds nothing else.
pub fn leading_whitespace(s: &str) -> (r: String)
    ensures
        r@ == indent_of(s@),
{
    let v = chars_of(s);
    let end = indent_end(&v);
    if end < v.len() {
        text_of(&v, 0, end)
    } else {
        String::new()
    }
}

/// Stepping over white space at the end does not change what `trim_end` gives.
proof fn lemma_trim_end(s: Seq<char>, k: int)
    requires
        0 <= k <= s.len(),
        forall|i: int| k <= i < s.len() ==> white_space(#[trigger] s[i]),
    ensures
        trim_end(s) == trim_end(s.take(k)),
    decreases s.len() - k,
{
    if k == s.len() {
        assert(s.take(k) =~= s);
    } else {
        assert(s.last() == s[s.len() - 1]);
        lemma_trim_end(s.drop_last(), k);
        assert(s.drop_last().take(k) =~= s.take(k));
    }
}

/// `s` without the white space at either end.
pub(crate) fn trim(s: &str) -> (r: String)
    ensures
        r@ == trimmed(s@),
{
    let v = chars_of(s);
    let start = indent_end(&v);
    let ghost rest = s@.skip(start as int);
    let mut end: usize = v.len();
    while end > start && is_whitespace(v[end - 1])
        invariant
            start <= end <= v@.len(),
            v@ == s@,
            rest == s@.skip(start as int),
            forall|j: int| end - start <= j < rest.len() ==> white_space(#[trigger] rest[j]),
        decreases end,
    {
        end -= 1;
        assert(rest[end - start] == v@[end as int]);
    }
    proof {
        lemma_trim_end(rest, end - start);
        let kept = rest.take(end - start);
        assert(kept =~= v@.subrange(start as int, end as int));
        if kept.len() > 0 {
            assert(kept.last() == v@[end - 1]);
        }
    }
    text_of(&v, start, end)
}

/// Stepping over trailing characters `c` does not change what
/// `without_trailing` gives.
proof fn lemma_without_trailing(s: Seq<char>, c: char, k: int)
    requires
        0 <= k <= s.len(),
        forall|i: int| k <= i < s.len() ==> #[trigger] s[i] == c,
    ensures
        without_trailing(s, c) == without_trailing(s.take(k), c),
    decreases s.len() - k,
{
    if k == s.len() {
        assert(s.take(k) =~= s);
    } else {
        assert(s.last() == s[s.len() - 1]);
        lemma_without_trailing(s.drop_last(), c, k);
        assert(s.drop_last().take(k) =~= s.take(k));
    }
}

/// `s` without the characters `c` at its end.
pub(crate) fn trim_end_matches(s: &str, c: char) -> (r: String)
    ensures
        r@ == without_trailing(s@, c),
{
    let v = chars_of(s);
    let mut end: usize = v.len();
    while end > 0 && v[end - 1] == c
        invariant
            end <= v@.len(),
            forall|j: int| end <= j < v@.len() ==> #[trigger] v@[j] == c,
        decreases end,
    {
        end -= 1;
    }
    proof {
        lemma_without_trailing(v@, c, end as int);
        assert(v@.take(end as int) =~= v@.subrange(0, end as int));
    }
    text_of(&v, 0, end)
}

// ---------------------------------------------------------------------------
// Lines
// ---------------------------------------------------------------------------

/// There is always at least one piece.
pub proof fn lemma_pieces_nonempty(s: Seq<char>)
    ensures
        pieces(s).len() >= 1,
    decreases s.len(),
{
    if s.len() > 0 {
        lemma_pieces_nonempty(s.drop_last());
    }
}

/// The stretches of `s` between its newlines.
pub(crate) fn split_newlines(s: &str) -> (r: Vec<String>)
    ensures
        texts(r@) == pieces(s@),
        r@.len() >= 1,
{
    let mut out: Vec<String> = Vec::new();
    let mut cur: String = String::new();
    proof {
        assert(texts(out@).push(cur@) =~= pieces(s@.take(0)));
    }
    for c in it: s.chars()
        invariant
            it.seq() == s@,
            texts(out@).push(cur@) == pieces(s@.take(it.index() as int)),
    {
        let ghost i = it.index() as int;
        let ghost before = texts(out@).push(cur@);
        proof {
            assert(s@.take(i + 1).drop_last() =~= s@.take(i));
            assert(s@.take(i + 1).last() == c);
            assert(before.drop_last() =~= texts(out@));
        }
        if c == '\n' {
            out.push(cur);
            cur = String::new();
            assert(texts(out@) =~= before);
        } else {
            cur.push(c);
        }
    }
    proof {
        assert(s@.take(s@.len() as int) =~= s@);
    }
    let ghost before = texts(out@).push(cur@);
    out.push(cur);
    assert(texts(out@) =~= before);
    out
}

fn strip_cr(s: &str) -> (r: String)
    ensures
        r@ == without_cr(s@),
{
    if ends_with(s, '\r') {
        let v = chars_of(s);
        let last: usize = v.len() - 1;
        text_of(&v, 0, last)
    } else {
        s.to_owned()
    }
}

/// The lines of `contents`.
pub(crate) fn split_lines(contents: &str) -> (r: Vec<String>)
    ensures
        texts(r@) == lines_of(contents@),
{
    let all = split_newlines(contents);
    let last: usize = all.len() - 1;
    let mut out: Vec<String> = Vec::new();
    let ghost ended = pieces(contents@).drop_last().map_values(|p: Seq<char>| without_cr(p));
    let mut i: usize = 0;
    while i < last
        invariant
            i <= last,
            last == all@.len() - 1,
            texts(all@) == pieces(contents@),
            ended == pieces(contents@).drop_last().map_values(|p: Seq<char>| without_cr(p)),
            texts(out@) == ended.take(i as int),
        decreases last - i,
    {
        let line = strip_cr(all[i].as_str());
        proof {
            assert(texts(all@)[i as int] == all@[i as int]@);
            assert(ended[i as int] == line@);
        }
        proof {
            lemma_texts_push(out@, line);
        }
        out.push(line);
        i += 1;
        assert(texts(out@) =~= ended.take(i as int));
    }
    assert(ended.take(last as int) =~= ended);
    assert(texts(all@).last() == all@[last as int]@);
    if !all[last].as_str().is_empty() {
        out.push(all[last].clone());
        assert(texts(out@) =~= ended.push(pieces(contents@).last()));
    }
    out
}

/// The texts of `parts` with `sep` between each two.
pub(crate) fn join(parts: &Vec<String>, sep: char) -> (r: String)
    ensures
        r@ == joined(texts(parts@), sep),
{
    let mut out: String = String::new();
    let mut i: usize = 0;
    while i < parts.len()
        invariant
            i <= parts@.len(),
            out@ == joined(texts(parts@).take(i as int), sep),
        decreases parts@.len() - i,
    {
        if i > 0 {
            out.push(sep);
        }
        out.append(parts[i].as_str());
        proof {
            let next = texts(parts@).take(i + 1);
            assert(next.drop_last() =~= texts(parts@).take(i as int));
            assert(next.last() == parts@[i as int]@);
            if i == 0 {
                assert(out@ =~= next[0]);
            }
        }
        i += 1;
    }
    assert(texts(parts@).take(parts@.len() as int) =~= texts(parts@));
    out
}

/// Split `text` on newlines into one source line per piece, with `indent`
/// before each piece that is not empty. Empty text gives one empty line, and
/// newlines at either end give blank lines.
pub fn build_indented_lines(text: &str, indent: &str) -> (r: Vec<String>)
    ensures
        texts(r@) == indented(text@, indent@),
        r@.len() >= 1,
{
    let all = split_newlines(text);
    let mut out: Vec<String> = Vec::new();
    let ghost want = indented(text@, indent@);
    let mut i: usize = 0;
    while i < all.len()
        invariant
            i <= all@.len(),
            texts(all@) == pieces(text@),
            want == indented(text@, indent@),
            texts(out@) == want.take(i as int),
        decreases all@.len() - i,
    {
        assert(texts(all@)[i as int] == all@[i as int]@);
        let line = if all[i].as_str().is_empty() {
            String::new()
        } else {
            concat(indent, all[i].as_str())
        };
        proof {
            if all@[i as int]@.len() == 0 {
                assert(line@ =~= all@[i as int]@);
            }
            assert(want[i as int] == line@);
        }
        proof {
            lemma_texts_push(out@, line);
        }
        out.push(line);
        i += 1;
        assert(texts(out@) =~= want.take(i as int));
    }
    assert(want.take(all@.len() as int) =~= want);
    assert(texts(out@).len() == out@.len());
    out
}

// ---------------------------------------------------------------------------
// Case, numbers, order
// ---------------------------------------------------------------------------

/// `s` with its ASCII letters in lower case.
pub(crate) fn to_ascii_lowercase(s: &str) -> (r: String)
    ensures
        r@ == s@.map_values(|c: char| lower_ascii(c)),
{
    let mut out: String = String::new();
    let ghost want = s@.map_values(|c: char| lower_ascii(c));
    for c in it: s.chars()
        invariant
            it.seq() == s@,
            want == s@.map_values(|c: char| lower_ascii(c)),
            out@ == want.take(it.index() as int),
    {
        let lower = if 'A' <= c && c <= 'Z' {
            (c as u8 + 32) as char
        } else {
            c
        };
        assert(want[it.index() as int] == lower);
        out.push(lower);
        assert(out@ =~= want.take(it.index() + 1));
    }
    assert(want.take(s@.len() as int) =~= want);
    out
}

/// `n` in decimal.
pub(crate) fn decimal_text(n: u128) -> (r: String)
    ensures
        r@ == decimal(n as nat),
    decreases n,
{
    let last: u8 = (n % 10) as u8;
    let d: char = (48 + last) as char;
    let mut out: String = if n < 10 {
        String::new()
    } else {
        decimal_text(n / 10)
    };
    out.push(d);
    assert(d == digit((n % 10) as nat));
    if n < 10 {
        assert(out@ =~= decimal(n as nat));
    }
    out
}

/// Whether `a` comes before `b` in the order of their characters.
pub(crate) fn less(a: &Vec<char>, b: &Vec<char>) -> (r: bool)
    ensures
        r == text_less(a@, b@),
{
    let mut i: usize = 0;
    proof {
        assert(a@.skip(0) =~= a@);
        assert(b@.skip(0) =~= b@);
    }
    while i < a.len() && i < b.len() && a[i] == b[i]
        invariant
            i <= a@.len(),
            i <= b@.len(),
            text_less(a@, b@) == text_less(a@.skip(i as int), b@.skip(i as int)),
        decreases a@.len() - i,
    {
        proof {
            assert(a@.skip(i as int).skip(1) =~= a@.skip(i + 1));
            assert(b@.skip(i as int).skip(1) =~= b@.skip(i + 1));
        }
        i += 1;
    }
    if i >= b.len() {
        false
    } else if i >= a.len() {
        true
    } else {
        let x: char = a[i];
        let y: char = b[i];
        x < y
    }
}

} // verus!
