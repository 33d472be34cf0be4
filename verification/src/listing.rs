//! Directories as lists of elements.

use vstd::prelude::*;

use crate::ffon::{lemma_nodes_push, node, nodes, FfonElement, Node};
use crate::tags::{format_input, input_text};
use crate::text::{chars_of, concat, less, text_less};
use crate::text_laws::{before_at, law_text_order};

verus! {

// ---------------------------------------------------------------------------
// Model
// ---------------------------------------------------------------------------

/// An entry of a directory: whether it is a directory, and its name.
pub open spec fn entry(e: (bool, String)) -> (bool, Seq<char>) {
    (e.0, e.1@)
}

/// The entries of a directory.
pub open spec fn entries_of(list: Seq<(bool, String)>) -> Seq<(bool, Seq<char>)> {
    Seq::new(list.len(), |i: int| entry(list[i]))
}

/// What `str::to_lowercase` makes of a text.
pub uninterp spec fn lower_case(s: Seq<char>) -> Seq<char>;

/// What the entries of `list` are ordered by: whether they are directories, and
/// their names in lower case.
pub open spec fn sort_keys(list: Seq<(bool, Seq<char>)>) -> Seq<(bool, Seq<char>)> {
    Seq::new(list.len(), |i: int| (list[i].0, lower_case(list[i].1)))
}

/// Directories come before files, and within each kind the names are in the
/// order of their characters.
pub open spec fn key_less(a: (bool, Seq<char>), b: (bool, Seq<char>)) -> bool {
    if a.0 == b.0 {
        text_less(a.1, b.1)
    } else {
        a.0
    }
}

/// The entry at `a` is listed before that at `b`. Of two that neither comes
/// before the other, the first stays first.
pub open spec fn listed_before(keys: Seq<(bool, Seq<char>)>, a: int, b: int) -> bool {
    key_less(keys[a], keys[b]) || (!key_less(keys[b], keys[a]) && a < b)
}

/// `order` names each of the entries with the keys `keys`, in the order of the
/// listing.
pub open spec fn listing_order(order: Seq<int>, keys: Seq<(bool, Seq<char>)>) -> bool {
    &&& order.len() == keys.len()
    &&& forall|i: int| 0 <= i < order.len() ==> 0 <= #[trigger] order[i] < keys.len()
    &&& forall|i: int, j: int|
        0 <= i < j < order.len() ==> listed_before(keys, #[trigger] order[i], #[trigger] order[j])
}

/// An entry as it is shown: a section that can be entered, marked as a
/// directory or a file, with its name as an editable field.
pub open spec fn entry_node(e: (bool, Seq<char>)) -> Node {
    let marker = if e.0 {
        "<dir>"@
    } else {
        "<file>"@
    };
    Node::Branch(marker + input_text(e.1), Seq::empty())
}

/// The entries of `list` in the order `order`, as they are shown.
pub open spec fn listing(list: Seq<(bool, Seq<char>)>, order: Seq<int>) -> Seq<Node> {
    Seq::new(order.len(), |i: int| entry_node(list[order[i]]))
}

// ---------------------------------------------------------------------------
// The order
// ---------------------------------------------------------------------------

proof fn lemma_text_less(x: Seq<char>, y: Seq<char>, z: Seq<char>)
    requires
        text_less(x, y),
        !text_less(z, y),
    ensures
        text_less(x, z),
    decreases x.len(),
{
    assert(z.len() > 0);
    if x.len() > 0 {
        if x[0] == y[0] && z[0] == y[0] {
            lemma_text_less(x.skip(1), y.skip(1), z.skip(1));
        }
    }
}

proof fn lemma_key_less(x: (bool, Seq<char>), y: (bool, Seq<char>), z: (bool, Seq<char>))
    requires
        key_less(x, y),
        !key_less(z, y),
    ensures
        key_less(x, z),
{
    if x.0 == y.0 && y.0 == z.0 {
        lemma_text_less(x.1, y.1, z.1);
    }
}

proof fn lemma_text_less_asymmetric(x: Seq<char>, y: Seq<char>)
    requires
        text_less(x, y),
    ensures
        !text_less(y, x),
    decreases x.len(),
{
    if x.len() > 0 && x[0] == y[0] {
        lemma_text_less_asymmetric(x.skip(1), y.skip(1));
    }
}

proof fn lemma_listed_before_asymmetric(keys: Seq<(bool, Seq<char>)>, a: int, b: int)
    requires
        listed_before(keys, a, b),
    ensures
        !listed_before(keys, b, a),
{
    if key_less(keys[a], keys[b]) && keys[a].0 == keys[b].0 {
        lemma_text_less_asymmetric(keys[a].1, keys[b].1);
    }
}

/// There is one order of a listing.
pub proof fn law_listing_order_is_unique(
    keys: Seq<(bool, Seq<char>)>,
    a: Seq<int>,
    b: Seq<int>,
)
    requires
        listing_order(a, keys),
        listing_order(b, keys),
    ensures
        a == b,
{
    assert forall|k: int| 0 <= k < a.len() implies a[k] == b[k] by {
        lemma_same_place(keys, a, b, k);
    }
    assert(a =~= b);
}

/// Folders are listed before files. Entries of the same kind are listed by their
/// names in lower case: one whose name is the start of the other's comes first,
/// and otherwise the one that has the smaller character where they first differ.
/// Entries with the same name in lower case keep their order.
pub proof fn law_entries_are_listed_by_name(
    list: Seq<(bool, Seq<char>)>,
    order: Seq<int>,
    i: int,
    j: int,
)
    requires
        listing_order(order, sort_keys(list)),
        0 <= i < order.len(),
        0 <= j < order.len(),
    ensures
        list[order[i]].0 && !list[order[j]].0 ==> i < j,
        list[order[i]].0 == list[order[j]].0 && (exists|p: int|
            before_at(lower_case(list[order[i]].1), lower_case(list[order[j]].1), p)) ==> i < j,
        list[order[i]].0 == list[order[j]].0 && lower_case(list[order[i]].1) == lower_case(
            list[order[j]].1,
        ) && order[i] < order[j] ==> i < j,
{
    let keys = sort_keys(list);
    assert(0 <= order[i] < keys.len());
    assert(0 <= order[j] < keys.len());
    law_text_order(lower_case(list[order[i]].1), lower_case(list[order[j]].1));
    law_text_order(lower_case(list[order[j]].1), lower_case(list[order[i]].1));
    if j < i {
        assert(listed_before(keys, order[j], order[i]));
    }
}

/// A listing shows every entry once: with the mark of its kind in front, and its
/// name as a field to edit.
pub proof fn law_every_entry_is_shown(list: Seq<(bool, Seq<char>)>, order: Seq<int>, e: int)
    requires
        listing_order(order, sort_keys(list)),
        0 <= e < list.len(),
    ensures
        listing(list, order).len() == list.len(),
        exists|i: int| 0 <= i < order.len() && order[i] == e,
        forall|i: int|
            0 <= i < order.len() && order[i] == e ==> #[trigger] listing(list, order)[i]
                == Node::Branch(
                (if list[e].0 {
                    "<dir>"@
                } else {
                    "<file>"@
                }) + ("<input>"@ + list[e].1 + "</input>"@),
                Seq::empty(),
            ),
        forall|i: int, j: int|
            0 <= i < j < order.len() ==> #[trigger] order[i] != #[trigger] order[j],
{
    let keys = sort_keys(list);
    lemma_every_entry_listed(keys, order, e);
    assert forall|i: int, j: int| 0 <= i < j < order.len() implies #[trigger] order[i]
        != #[trigger] order[j] by {
        lemma_listed_before_asymmetric(keys, order[i], order[j]);
    }
}

/// A listing is the same in whatever order the entries come, as long as no two of
/// a kind have the same name in lower case: `other` holds the entries of `list`,
/// each once, the one at `i` being the one of `list` at `from[i]`.
pub proof fn law_listing_forgets_the_order(
    list: Seq<(bool, Seq<char>)>,
    other: Seq<(bool, Seq<char>)>,
    from: Seq<int>,
    order: Seq<int>,
    other_order: Seq<int>,
)
    requires
        other.len() == list.len(),
        from.len() == list.len(),
        forall|i: int| 0 <= i < from.len() ==> 0 <= #[trigger] from[i] < list.len(),
        forall|i: int, j: int|
            0 <= i < j < from.len() ==> #[trigger] from[i] != #[trigger] from[j],
        forall|i: int| 0 <= i < from.len() ==> #[trigger] other[i] == list[from[i]],
        forall|a: int, b: int|
            0 <= a < b < list.len() ==> (#[trigger] list[a]).0 != (#[trigger] list[b]).0
                || lower_case(list[a].1) != lower_case(list[b].1),
        listing_order(order, sort_keys(list)),
        listing_order(other_order, sort_keys(other)),
    ensures
        listing(list, order) == listing(other, other_order),
{
    let keys = sort_keys(list);
    let other_keys = sort_keys(other);
    let again = Seq::new(other_order.len(), |i: int| from[other_order[i]]);
    assert forall|i: int| 0 <= i < again.len() implies 0 <= #[trigger] again[i] < keys.len() by {
        assert(0 <= other_order[i] < other_keys.len());
    }
    assert forall|i: int, j: int| 0 <= i < j < again.len() implies listed_before(
        keys,
        #[trigger] again[i],
        #[trigger] again[j],
    ) by {
        let a = other_order[i];
        let b = other_order[j];
        assert(listed_before(other_keys, a, b));
        lemma_listed_before_asymmetric(other_keys, a, b);
        assert(other[a] == list[from[a]]);
        assert(other[b] == list[from[b]]);
        assert(from[a] != from[b]);
        let x = list[from[a]];
        let y = list[from[b]];
        assert(x.0 != y.0 || lower_case(x.1) != lower_case(y.1));
        law_text_order(lower_case(x.1), lower_case(y.1));
    }
    law_listing_order_is_unique(keys, order, again);
    assert forall|i: int| 0 <= i < order.len() implies listing(list, order)[i] == listing(
        other,
        other_order,
    )[i] by {
        assert(order[i] == from[other_order[i]]);
        assert(0 <= other_order[i] < other_keys.len());
        assert(other[other_order[i]] == list[from[other_order[i]]]);
    }
    assert(listing(list, order) =~= listing(other, other_order));
}

/// Folders are listed before files.
pub proof fn law_folders_come_first(
    keys: Seq<(bool, Seq<char>)>,
    order: Seq<int>,
    i: int,
    j: int,
)
    requires
        listing_order(order, keys),
        0 <= i < j < order.len(),
    ensures
        keys[order[j]].0 ==> keys[order[i]].0,
{
    assert(listed_before(keys, order[i], order[j]));
}

proof fn lemma_same_place(keys: Seq<(bool, Seq<char>)>, a: Seq<int>, b: Seq<int>, k: int)
    requires
        listing_order(a, keys),
        listing_order(b, keys),
        0 <= k < a.len(),
    ensures
        a[k] == b[k],
    decreases k,
{
    assert forall|j: int| 0 <= j < k implies a[j] == b[j] by {
        lemma_same_place(keys, a, b, j);
    }
    if a[k] != b[k] {
        lemma_every_entry_listed(keys, b, a[k]);
        lemma_every_entry_listed(keys, a, b[k]);
        let i = choose|i: int| 0 <= i < b.len() && b[i] == a[k];
        let j = choose|j: int| 0 <= j < a.len() && a[j] == b[k];
        if i < k {
            lemma_listed_before_asymmetric(keys, a[i], a[k]);
        }
        if j < k {
            lemma_listed_before_asymmetric(keys, b[j], b[k]);
        }
        lemma_listed_before_asymmetric(keys, a[k], a[j]);
        lemma_listed_before_asymmetric(keys, b[k], b[i]);
    }
}

/// A listing leaves no entry out.
pub proof fn lemma_every_entry_listed(keys: Seq<(bool, Seq<char>)>, order: Seq<int>, e: int)
    requires
        listing_order(order, keys),
        0 <= e < keys.len(),
    ensures
        exists|i: int| 0 <= i < order.len() && order[i] == e,
{
    assert(order.no_duplicates()) by {
        assert forall|i: int, j: int| 0 <= i < j < order.len() implies order[i] != order[j] by {
            lemma_listed_before_asymmetric(keys, order[i], order[j]);
        }
    }
    order.unique_seq_to_set();
    let all = vstd::set_lib::set_int_range(0, keys.len() as int);
    vstd::set_lib::lemma_int_range(0, keys.len() as int);
    assert(order.to_set().subset_of(all));
    vstd::set_lib::lemma_subset_equality(order.to_set(), all);
    assert(order.to_set().contains(e));
}

// ---------------------------------------------------------------------------
// Listing
// ---------------------------------------------------------------------------

/// `str::to_lowercase` writes a text in lower case, by the rules of Unicode. The
/// result is a function of the text.
#[verifier::external_body]
fn to_lowercase(s: &str) -> (r: String)
    ensures
        r@ == lower_case(s@),
{
    s.to_lowercase()
}

/// What the entries of `list` are ordered by.
fn sort_keys_of(list: &Vec<(bool, String)>) -> (r: Vec<(bool, String)>)
    ensures
        entries_of(r@) == sort_keys(entries_of(list@)),
{
    let mut out: Vec<(bool, String)> = Vec::new();
    let mut i: usize = 0;
    while i < list.len()
        invariant
            i <= list@.len(),
            entries_of(out@) == sort_keys(entries_of(list@)).take(i as int),
        decreases list@.len() - i,
    {
        let ghost before = out@;
        let key = (list[i].0, to_lowercase(list[i].1.as_str()));
        out.push(key);
        i += 1;
        proof {
            assert(entries_of(out@) =~= entries_of(before).push(entry(key)));
            assert(entries_of(out@) =~= sort_keys(entries_of(list@)).take(i as int));
        }
    }
    assert(sort_keys(entries_of(list@)).take(i as int) =~= sort_keys(entries_of(list@)));
    out
}

/// The numbers in `order`.
pub open spec fn numbers(order: Seq<usize>) -> Seq<int> {
    Seq::new(order.len(), |i: int| order[i] as int)
}

fn less_key(a: &(bool, String), b: &(bool, String)) -> (r: bool)
    ensures
        r == key_less(entry(*a), entry(*b)),
{
    if a.0 == b.0 {
        less(&chars_of(a.1.as_str()), &chars_of(b.1.as_str()))
    } else {
        a.0
    }
}

/// Puts the entry at `at` into the order of the entries before it.
fn insert_in_order(order: &mut Vec<usize>, keys: &Vec<(bool, String)>, at: usize)
    requires
        at < keys@.len(),
        listing_order(numbers(old(order)@), entries_of(keys@).take(at as int)),
    ensures
        listing_order(numbers(final(order)@), entries_of(keys@).take(at as int + 1)),
{
    let ghost before = numbers(order@);
    let ghost front = entries_of(keys@).take(at as int);
    let ghost all = entries_of(keys@).take(at as int + 1);
    assert forall|i: int, j: int| 0 <= i < j < before.len() implies !key_less(
        all[#[trigger] before[j]],
        all[#[trigger] before[i]],
    ) by {
        assert(listed_before(front, before[i], before[j]));
        lemma_listed_before_asymmetric(front, before[i], before[j]);
    }
    let mut p: usize = 0;
    let mut end: usize = order.len();
    while p < end
        invariant
            before == numbers(order@),
            at < keys@.len(),
            all == entries_of(keys@).take(at as int + 1),
            p <= end <= order@.len(),
            forall|i: int| 0 <= i < before.len() ==> 0 <= #[trigger] before[i] < at,
            forall|i: int, j: int|
                0 <= i < j < before.len() ==> !key_less(
                    all[#[trigger] before[j]],
                    all[#[trigger] before[i]],
                ),
            forall|k: int| 0 <= k < p ==> !key_less(all[at as int], all[#[trigger] before[k]]),
            forall|k: int|
                end <= k < before.len() ==> key_less(all[at as int], all[#[trigger] before[k]]),
        decreases end - p,
    {
        let middle: usize = p + (end - p) / 2;
        let other: usize = order[middle];
        assert(before[middle as int] == other);
        if less_key(&keys[at], &keys[other]) {
            assert forall|k: int| middle <= k < before.len() implies key_less(
                all[at as int],
                all[#[trigger] before[k]],
            ) by {
                if k > middle {
                    lemma_key_less(all[at as int], all[before[middle as int]], all[before[k]]);
                }
            }
            end = middle;
        } else {
            assert forall|k: int| 0 <= k <= middle implies !key_less(
                all[at as int],
                all[#[trigger] before[k]],
            ) by {
                if k < middle && key_less(all[at as int], all[before[k]]) {
                    lemma_key_less(all[at as int], all[before[k]], all[before[middle as int]]);
                }
            }
            p = middle + 1;
        }
    }
    order.insert(p, at);
    let ghost after = numbers(order@);
    proof {
        assert(after =~= before.insert(p as int, at as int));
        assert forall|i: int, j: int| 0 <= i < j < after.len() implies listed_before(
            all,
            #[trigger] after[i],
            #[trigger] after[j],
        ) by {
            let a = if i < p {
                i
            } else {
                i - 1
            };
            let b = if j < p {
                j
            } else {
                j - 1
            };
            if i == p {
                assert(after[j] == before[b]);
            } else if j == p {
                assert(after[i] == before[a]);
            } else {
                assert(after[i] == before[a] && after[j] == before[b]);
                assert(listed_before(front, before[a], before[b]));
            }
        }
    }
}

/// The order in which entries with the keys `keys` are listed; a key tells
/// whether the entry is a directory, and its name in lower case.
pub fn order_of(keys: &Vec<(bool, String)>) -> (r: Vec<usize>)
    ensures
        listing_order(numbers(r@), entries_of(keys@)),
{
    let mut order: Vec<usize> = Vec::new();
    let mut i: usize = 0;
    while i < keys.len()
        invariant
            i <= keys@.len(),
            listing_order(numbers(order@), entries_of(keys@).take(i as int)),
        decreases keys@.len() - i,
    {
        insert_in_order(&mut order, keys, i);
        i += 1;
    }
    assert(entries_of(keys@).take(i as int) =~= entries_of(keys@));
    order
}

/// An entry as it is shown.
fn entry_element(is_dir: bool, name: &str) -> (r: FfonElement)
    ensures
        node(r) == entry_node((is_dir, name@)),
{
    let marker = if is_dir {
        "<dir>"
    } else {
        "<file>"
    };
    FfonElement::new_obj(concat(marker, format_input(name).as_str()))
}

/// A directory as it is shown: its `entries`, each a name with whether it is a
/// directory, as elements that can be entered and renamed; directories first,
/// then files, each in the order of their names without regard to case. A
/// directory that cannot be read is shown as empty.
pub fn list_directory(entries: Option<Vec<(bool, String)>>) -> (r: Vec<FfonElement>)
    ensures
        match entries {
            Some(list) => exists|order: Seq<int>|
                #![auto]
                listing_order(order, sort_keys(entries_of(list@))) && nodes(r@) == listing(
                    entries_of(list@),
                    order,
                ),
            None => nodes(r@) == Seq::<Node>::empty(),
        },
{
    let mut out: Vec<FfonElement> = Vec::new();
    let list = match entries {
        Some(list) => list,
        None => {
            return out;
        },
    };
    let order = order_of(&sort_keys_of(&list));
    let ghost numbered = numbers(order@);
    let ghost shown = listing(entries_of(list@), numbered);
    let mut i: usize = 0;
    while i < order.len()
        invariant
            i <= order@.len(),
            numbered == numbers(order@),
            shown == listing(entries_of(list@), numbered),
            listing_order(numbered, sort_keys(entries_of(list@))),
            nodes(out@) == shown.take(i as int),
        decreases order@.len() - i,
    {
        assert(0 <= numbered[i as int] < list@.len());
        let at: usize = order[i];
        let e = entry_element(list[at].0, list[at].1.as_str());
        proof {
            lemma_nodes_push(out@, e);
            assert(node(e) == shown[i as int]);
        }
        out.push(e);
        i += 1;
        assert(nodes(out@) =~= shown.take(i as int));
    }
    assert(shown.take(i as int) =~= shown);
    out
}

} // verus!
