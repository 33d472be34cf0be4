//! The tags that mark up element texts: `<input>…</input>` around an editable
//! text, `<src=N>` in front of a text that stands on source line `N`, and
//! `<srcins=N>` for a line still to be inserted at position `N`.
//!
//! The tags themselves are those of `sicompass_sdk::tags`, which every function
//! here calls.

use vstd::prelude::*;

use crate::text::decimal;

verus! {

// ---------------------------------------------------------------------------
// Model
// ---------------------------------------------------------------------------

/// `word` stands in `s` at position `i`.
pub open spec fn occurs_at(s: Seq<char>, word: Seq<char>, i: int) -> bool {
    0 <= i <= s.len() - word.len() && s.subrange(i, i + word.len()) == word
}

/// The first position of `word` in `s` at or after `k`.
pub open spec fn find(s: Seq<char>, word: Seq<char>, k: int) -> Option<int>
    decreases s.len() - k + 1,
{
    if k < 0 || k > s.len() - word.len() {
        None
    } else if occurs_at(s, word, k) {
        Some(k)
    } else {
        find(s, word, k + 1)
    }
}

/// The first position of `word` in `s` at or after `k` that has no backslash
/// in front of it.
pub open spec fn find_unescaped(s: Seq<char>, word: Seq<char>, k: int) -> Option<int>
    decreases s.len() - k + 1,
{
    if k < 0 || k > s.len() - word.len() {
        None
    } else if occurs_at(s, word, k) && (k == 0 || s[k - 1] != '\\') {
        Some(k)
    } else {
        find_unescaped(s, word, k + 1)
    }
}

/// `c` is a decimal digit.
pub open spec fn is_digit(c: char) -> bool {
    '0' <= c <= '9'
}

/// The number that the decimal digits `s` write.
pub open spec fn digits_value(s: Seq<char>) -> nat
    decreases s.len(),
{
    if s.len() == 0 {
        0
    } else {
        10 * digits_value(s.drop_last()) + (s.last() as nat - 48) as nat
    }
}

/// `s` is made of one or more decimal digits.
pub open spec fn all_digits(s: Seq<char>) -> bool {
    s.len() > 0 && forall|i: int| 0 <= i < s.len() ==> is_digit(#[trigger] s[i])
}

/// The number that `s` writes: decimal digits, with or without a plus sign in
/// front, of a value that fits in a `usize`.
pub open spec fn number(s: Seq<char>) -> Option<nat> {
    let digits = if s.len() > 1 && s[0] == '+' {
        s.skip(1)
    } else {
        s
    };
    if all_digits(digits) && digits_value(digits) <= usize::MAX {
        Some(digits_value(digits))
    } else {
        None
    }
}

/// The number that `s` writes before its first `>`, and what follows the `>`.
pub open spec fn number_to_close(s: Seq<char>) -> Option<(nat, Seq<char>)> {
    match find(s, seq!['>'], 0) {
        Some(close) => match number(s.take(close)) {
            Some(n) => Some((n, s.skip(close + 1))),
            None => None,
        },
        None => None,
    }
}

/// The source-line number that `s` starts with, as `<src=N>`, and the rest.
pub open spec fn src_tag(s: Seq<char>) -> Option<(nat, Seq<char>)> {
    if occurs_at(s, "<src="@, 0) {
        number_to_close(s.skip("<src="@.len() as int))
    } else {
        None
    }
}

/// The number of the first `<srcins=N>` in `s`.
pub open spec fn srcins_tag(s: Seq<char>) -> Option<nat> {
    match find(s, "<srcins="@, 0) {
        Some(i) => match number_to_close(s.skip(i + "<srcins="@.len())) {
            Some(p) => Some(p.0),
            None => None,
        },
        None => None,
    }
}

/// What stands in `s` between the first `<input>` and the next `</input>`.
pub open spec fn input_content(s: Seq<char>) -> Option<Seq<char>> {
    match find_unescaped(s, "<input>"@, 0) {
        Some(i) => {
            let rest = s.skip(i + "<input>"@.len());
            match find(rest, "</input>"@, 0) {
                Some(close) => Some(rest.take(close)),
                None => None,
            }
        },
        None => None,
    }
}

/// What `s` holds for the user to edit: the content of its `<input>` field, or
/// all of it when it has none.
pub open spec fn inner(s: Seq<char>) -> Seq<char> {
    match input_content(s) {
        Some(content) => content,
        None => s,
    }
}

/// `s` as an editable field.
pub open spec fn input_text(s: Seq<char>) -> Seq<char> {
    "<input>"@ + s + "</input>"@
}

/// The tag for source line `n`.
pub open spec fn src_text(n: nat) -> Seq<char> {
    "<src="@ + decimal(n) + ">"@
}

/// `word` stands somewhere in `s`.
pub open spec fn occurs(s: Seq<char>, word: Seq<char>) -> bool {
    exists|i: int| occurs_at(s, word, i)
}

/// None of the known tags is opened in `s`.
pub open spec fn tagless(s: Seq<char>) -> bool {
    &&& !occurs(s, "<one-opt></one-opt>"@)
    &&& !occurs(s, "<many-opt></many-opt>"@)
    &&& !occurs(s, "<button>"@)
    &&& !occurs(s, "<src="@)
    &&& !occurs(s, "<srcins="@)
    &&& !occurs(s, "<dir>"@)
    &&& !occurs(s, "<file>"@)
    &&& !occurs(s, "<id>"@)
    &&& !occurs(s, "<input>"@)
    &&& !occurs(s, "<password>"@)
    &&& !occurs(s, "<radio>"@)
    &&& !occurs(s, "<checked>"@)
    &&& !occurs(s, "<checkbox checked>"@)
    &&& !occurs(s, "<checkbox>"@)
    &&& !occurs(s, "<link>"@)
    &&& !occurs(s, "<image>"@)
}

/// `s` with each `\\<` and `\\>` as the angle bracket that it stands for.
pub open spec fn unescaped(s: Seq<char>) -> Seq<char>
    decreases s.len(),
{
    if s.len() == 0 {
        Seq::empty()
    } else if s.len() > 1 && s[0] == '\\' && (s[1] == '<' || s[1] == '>') {
        seq![s[1]] + unescaped(s.skip(2))
    } else {
        seq![s[0]] + unescaped(s.skip(1))
    }
}

/// What `sicompass_sdk::tags::strip_display` leaves of a text: the text as the
/// user sees it, without its tags and with its escapes resolved.
pub uninterp spec fn display_text(s: Seq<char>) -> Seq<char>;

/// `s` is one of the texts in which the editor shows `core`: `core` alone or
/// annotated with a source line, or, where `core` closes no field, either of
/// these as a field, and `core` as the field of a directory entry.
pub open spec fn shows(s: Seq<char>, core: Seq<char>) -> bool {
    ||| s == core
    ||| exists|n: nat| s == #[trigger] src_text(n) + core
    ||| !occurs(core, "</input>"@) && s == input_text(core)
    ||| !occurs(core, "</input>"@) && exists|n: nat| s == input_text(#[trigger] src_text(n) + core)
    ||| !occurs(core, "</input>"@) && s == "<dir>"@ + input_text(core)
    ||| !occurs(core, "</input>"@) && s == "<file>"@ + input_text(core)
}

/// `s` shows a text in which no tag is opened, and `line` is that text with its
/// escapes resolved.
pub open spec fn reads(s: Seq<char>, line: Seq<char>) -> bool {
    exists|core: Seq<char>| tagless(core) && #[trigger] shows(s, core) && line == unescaped(core)
}

/// `s` has no angle bracket and no backslash that could belong to a tag or an
/// escape.
pub open spec fn plain(s: Seq<char>) -> bool {
    forall|i: int| 0 <= i < s.len() ==> #[trigger] s[i] != '<' && s[i] != '\\'
}

// ---------------------------------------------------------------------------
// The tag functions
// ---------------------------------------------------------------------------

/// `sicompass_sdk::tags::format_input` puts `<input>` before the text and
/// `</input>` behind it.
#[verifier::external_body]
pub(crate) fn format_input(content: &str) -> (r: String)
    ensures
        r@ == input_text(content@),
{
    sicompass_sdk::tags::format_input(content)
}

/// `sicompass_sdk::tags::format_src` writes `<src=`, the number in decimal, `>`.
#[verifier::external_body]
pub(crate) fn format_src(n: usize) -> (r: String)
    ensures
        r@ == src_text(n as nat),
{
    sicompass_sdk::tags::format_src(n)
}

/// `sicompass_sdk::tags::extract_input` gives what stands between the first
/// `<input>` without a backslash in front and the first `</input>` after it.
#[verifier::external_body]
pub(crate) fn extract_input(text: &str) -> (r: Option<String>)
    ensures
        match r {
            Some(content) => input_content(text@) == Some(content@),
            None => input_content(text@) is None,
        },
{
    sicompass_sdk::tags::extract_input(text)
}

/// `sicompass_sdk::tags::extract_src` reads the `<src=N>` that the text starts
/// with, and gives the number and the text behind the tag.
#[verifier::external_body]
pub(crate) fn extract_src(text: &str) -> (r: Option<(usize, String)>)
    ensures
        match r {
            Some(found) => src_tag(text@) == Some((found.0 as nat, found.1@)),
            None => src_tag(text@) is None,
        },
{
    sicompass_sdk::tags::extract_src(text).map(|found| (found.0, found.1.to_owned()))
}

/// `sicompass_sdk::tags::extract_src_insert` reads the number of the first
/// `<srcins=` in the text, up to the next `>`.
#[verifier::external_body]
pub(crate) fn extract_src_insert(text: &str) -> (r: Option<usize>)
    ensures
        match r {
            Some(n) => srcins_tag(text@) == Some(n as nat),
            None => srcins_tag(text@) is None,
        },
{
    sicompass_sdk::tags::extract_src_insert(text)
}

/// `sicompass_sdk::tags::strip_display` removes every tag that it knows and
/// resolves escaped angle brackets. Of its result this is stated: it is a
/// function of the text, and of every text that shows one in which no tag is
/// opened it leaves that one, with its escapes resolved.
#[verifier::external_body]
pub(crate) fn strip_display(text: &str) -> (r: String)
    ensures
        r@ == display_text(text@),
        forall|line: Seq<char>| #[trigger] reads(text@, line) ==> r@ == line,
{
    sicompass_sdk::tags::strip_display(text)
}

/// What `text` holds for the user to edit.
pub(crate) fn inner_text(text: &str) -> (r: String)
    ensures
        r@ == inner(text@),
{
    match extract_input(text) {
        Some(content) => content,
        None => text.to_owned(),
    }
}

// ---------------------------------------------------------------------------
// Reading back a source tag
// ---------------------------------------------------------------------------

proof fn lemma_find(s: Seq<char>, word: Seq<char>, k: int, i: int)
    requires
        0 <= k <= i,
        occurs_at(s, word, i),
        forall|j: int| k <= j < i ==> !occurs_at(s, word, j),
    ensures
        find(s, word, k) == Some(i),
    decreases i - k,
{
    if k < i {
        lemma_find(s, word, k + 1, i);
    }
}

proof fn lemma_find_exists(s: Seq<char>, word: Seq<char>, k: int, i: int)
    requires
        0 <= k <= i,
        occurs_at(s, word, i),
    ensures
        find(s, word, k) matches Some(j) && k <= j <= i && occurs_at(s, word, j),
    decreases i - k,
{
    if k < i && !occurs_at(s, word, k) {
        lemma_find_exists(s, word, k + 1, i);
    }
}

/// The digits of a number write that number.
pub proof fn lemma_decimal(n: nat)
    ensures
        all_digits(decimal(n)),
        digits_value(decimal(n)) == n,
    decreases n,
{
    reveal_with_fuel(digits_value, 2);
    if n < 10 {
        assert(decimal(n).drop_last() =~= Seq::empty());
    } else {
        lemma_decimal(n / 10);
        assert(decimal(n).drop_last() =~= decimal(n / 10));
        assert forall|i: int| 0 <= i < decimal(n).len() implies is_digit(
            #[trigger] decimal(n)[i],
        ) by {
            if i < decimal(n / 10).len() {
                assert(decimal(n)[i] == decimal(n / 10)[i]);
            }
        }
    }
}

/// The source tag in front of a text is read back as it was written.
pub proof fn law_src_tag_reads_back(n: usize, line: Seq<char>)
    ensures
        src_tag(src_text(n as nat) + line) == Some((n as nat, line)),
{
    reveal_strlit("<src=");
    reveal_strlit(">");
    let text = src_text(n as nat) + line;
    let digits = decimal(n as nat);
    lemma_decimal(n as nat);
    assert(text.subrange(0, 5) =~= "<src="@);
    let rest = text.skip(5);
    assert(rest =~= digits + seq!['>'] + line);
    assert(rest[digits.len() as int] == '>');
    assert(rest.subrange(digits.len() as int, digits.len() as int + 1) =~= seq!['>']);
    assert forall|j: int| 0 <= j < digits.len() implies !occurs_at(rest, seq!['>'], j) by {
        assert(is_digit(digits[j]));
        assert(rest[j] == digits[j]);
        if occurs_at(rest, seq!['>'], j) {
            assert(rest.subrange(j, j + 1)[0] == rest[j]);
        }
    }
    lemma_find(rest, seq!['>'], 0, digits.len() as int);
    assert(rest.take(digits.len() as int) =~= digits);
    assert(is_digit(digits[0]));
    assert(rest.skip(digits.len() as int + 1) =~= line);
}

/// An element shown for source line `n`, as the editable field that it is shown
/// as, leads back to line `n`, whatever the line holds.
pub proof fn law_element_leads_to_its_line(n: usize, line: Seq<char>)
    ensures
        src_tag(inner(input_text(src_text(n as nat) + line))) matches Some(found) && found.0 == n,
{
    reveal_strlit("<src=");
    reveal_strlit(">");
    reveal_strlit("<input>");
    reveal_strlit("</input>");
    let tag = src_text(n as nat);
    let content = tag + line;
    let text = input_text(content);
    let close = "</input>"@;
    lemma_decimal(n as nat);
    assert(text.subrange(0, 7) =~= "<input>"@);
    assert(occurs_at(text, "<input>"@, 0));
    let rest = text.skip(7);
    assert(rest =~= content + close);
    assert(rest.subrange(content.len() as int, content.len() as int + 8) =~= close);
    assert(occurs_at(rest, close, content.len() as int));
    lemma_find_exists(rest, close, 0, content.len() as int);
    let at = find(rest, close, 0)->0;
    assert(at >= tag.len()) by {
        if at < tag.len() {
            assert(rest[at] == tag[at]);
            assert(rest.subrange(at, at + 8)[0] == rest[at]);
            assert(rest.subrange(at, at + 8)[1] == rest[at + 1]);
            if 5 <= at < tag.len() - 1 {
                assert(is_digit(decimal(n as nat)[at - 5]));
                assert(tag[at] == decimal(n as nat)[at - 5]);
            }
            assert(rest[1] == 's');
        }
    }
    let kept = rest.take(at);
    let kept_line = kept.skip(tag.len() as int);
    assert(kept =~= tag + kept_line);
    law_src_tag_reads_back(n, kept_line);
}

// ---------------------------------------------------------------------------
// Texts as they are seen
// ---------------------------------------------------------------------------

proof fn lemma_plain_lacks(s: Seq<char>, word: Seq<char>)
    requires
        plain(s),
        word.len() > 0,
        word[0] == '<',
    ensures
        !occurs(s, word),
{
    assert forall|i: int| !occurs_at(s, word, i) by {
        if occurs_at(s, word, i) {
            assert(s.subrange(i, i + word.len())[0] == s[i]);
        }
    }
}

/// A text without a backslash has no escapes.
pub proof fn law_unescaped_without_backslash(s: Seq<char>)
    requires
        forall|i: int| 0 <= i < s.len() ==> #[trigger] s[i] != '\\',
    ensures
        unescaped(s) == s,
    decreases s.len(),
{
    if s.len() > 0 {
        let rest = s.skip(1);
        assert forall|i: int| 0 <= i < rest.len() implies #[trigger] rest[i] != '\\' by {
            assert(rest[i] == s[i + 1]);
        }
        law_unescaped_without_backslash(rest);
        assert(seq![s[0]] + rest =~= s);
    }
}

/// A plain line is seen as it is in every text that shows it.
pub proof fn law_plain_line_is_seen(s: Seq<char>, line: Seq<char>)
    requires
        plain(line),
        shows(s, line),
    ensures
        reads(s, line),
{
    reveal_strlit("<one-opt></one-opt>");
    reveal_strlit("<many-opt></many-opt>");
    reveal_strlit("<button>");
    reveal_strlit("<src=");
    reveal_strlit("<srcins=");
    reveal_strlit("<dir>");
    reveal_strlit("<file>");
    reveal_strlit("<id>");
    reveal_strlit("<input>");
    reveal_strlit("<password>");
    reveal_strlit("<radio>");
    reveal_strlit("<checked>");
    reveal_strlit("<checkbox checked>");
    reveal_strlit("<checkbox>");
    reveal_strlit("<link>");
    reveal_strlit("<image>");
    lemma_plain_lacks(line, "<one-opt></one-opt>"@);
    lemma_plain_lacks(line, "<many-opt></many-opt>"@);
    lemma_plain_lacks(line, "<button>"@);
    lemma_plain_lacks(line, "<src="@);
    lemma_plain_lacks(line, "<srcins="@);
    lemma_plain_lacks(line, "<dir>"@);
    lemma_plain_lacks(line, "<file>"@);
    lemma_plain_lacks(line, "<id>"@);
    lemma_plain_lacks(line, "<input>"@);
    lemma_plain_lacks(line, "<password>"@);
    lemma_plain_lacks(line, "<radio>"@);
    lemma_plain_lacks(line, "<checked>"@);
    lemma_plain_lacks(line, "<checkbox checked>"@);
    lemma_plain_lacks(line, "<checkbox>"@);
    lemma_plain_lacks(line, "<link>"@);
    lemma_plain_lacks(line, "<image>"@);
    law_unescaped_without_backslash(line);
}

} // verus!
