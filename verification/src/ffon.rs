//! Element trees: what the editor shows.

use vstd::prelude::*;

use crate::tags::{format_input, input_text};

verus! {

/// A node of an element tree.
///
/// - `Str` is a leaf: a text, possibly with tags such as `<input>…</input>`.
/// - `Obj` is a named section with children.
#[derive(Debug, PartialEq)]
pub enum FfonElement {
    Str(String),
    Obj(FfonObject),
}

/// A named section.
#[derive(Debug, PartialEq)]
pub struct FfonObject {
    pub key: String,
    pub children: Vec<FfonElement>,
}

/// An element tree, as its texts.
pub enum Node {
    Leaf(Seq<char>),
    Branch(Seq<char>, Seq<Node>),
}

/// The tree that `e` holds.
pub open spec fn node(e: FfonElement) -> Node
    decreases e,
{
    match e {
        FfonElement::Str(s) => Node::Leaf(s@),
        FfonElement::Obj(obj) => Node::Branch(obj.key@, nodes(obj.children@)),
    }
}

/// The trees of a list of elements.
pub open spec fn nodes(list: Seq<FfonElement>) -> Seq<Node>
    decreases list,
{
    if list.len() == 0 {
        Seq::empty()
    } else {
        nodes(list.drop_last()).push(node(list.last()))
    }
}

/// `n` with the text of every node as an editable field.
pub open spec fn editable(n: Node) -> Node
    decreases n,
{
    match n {
        Node::Leaf(s) => Node::Leaf(input_text(s)),
        Node::Branch(key, children) => Node::Branch(input_text(key), all_editable(children)),
    }
}

/// The trees of `list` with the text of every node as an editable field.
pub open spec fn all_editable(list: Seq<Node>) -> Seq<Node>
    decreases list,
{
    if list.len() == 0 {
        Seq::empty()
    } else {
        all_editable(list.drop_last()).push(editable(list.last()))
    }
}

/// The text of a node: that of a leaf, or the key of a section.
pub open spec fn node_text(n: Node) -> Seq<char> {
    match n {
        Node::Leaf(s) => s,
        Node::Branch(key, _) => key,
    }
}

/// Each element of a list has its tree in the list of trees.
pub proof fn lemma_nodes_index(list: Seq<FfonElement>)
    ensures
        nodes(list).len() == list.len(),
        forall|i: int| 0 <= i < list.len() ==> #[trigger] nodes(list)[i] == node(list[i]),
    decreases list,
{
    if list.len() > 0 {
        lemma_nodes_index(list.drop_last());
    }
}

/// An element put behind a list puts its tree behind the list of trees.
pub proof fn lemma_nodes_push(list: Seq<FfonElement>, e: FfonElement)
    ensures
        nodes(list.push(e)) == nodes(list).push(node(e)),
{
    assert(list.push(e).drop_last() =~= list);
}

/// Two lists one after the other have their trees one after the other.
pub proof fn lemma_nodes_append(a: Seq<FfonElement>, b: Seq<FfonElement>)
    ensures
        nodes(a + b) == nodes(a) + nodes(b),
    decreases b.len(),
{
    if b.len() == 0 {
        assert(a + b =~= a);
        assert(nodes(a) + nodes(b) =~= nodes(a));
    } else {
        lemma_nodes_append(a, b.drop_last());
        assert((a + b).drop_last() =~= a + b.drop_last());
        assert(nodes(a) + nodes(b) =~= (nodes(a) + nodes(b.drop_last())).push(node(b.last())));
    }
}

/// Each tree of a list is made editable on its own.
pub proof fn lemma_all_editable_index(list: Seq<Node>)
    ensures
        all_editable(list).len() == list.len(),
        forall|i: int|
            0 <= i < list.len() ==> #[trigger] all_editable(list)[i] == editable(list[i]),
    decreases list,
{
    if list.len() > 0 {
        lemma_all_editable_index(list.drop_last());
    }
}

impl FfonElement {
    /// A leaf.
    pub fn new_str(s: String) -> (r: FfonElement)
        ensures
            node(r) == Node::Leaf(s@),
    {
        FfonElement::Str(s)
    }

    /// A section without children.
    pub fn new_obj(key: String) -> (r: FfonElement)
        ensures
            node(r) == Node::Branch(key@, Seq::empty()),
    {
        FfonElement::Obj(FfonObject { key, children: Vec::new() })
    }

    /// Whether this is a leaf.
    pub fn is_str(&self) -> (r: bool)
        ensures
            r == (node(*self) is Leaf),
    {
        match self {
            FfonElement::Str(_) => true,
            FfonElement::Obj(_) => false,
        }
    }

    /// Whether this is a section.
    pub fn is_obj(&self) -> (r: bool)
        ensures
            r == (node(*self) is Branch),
    {
        match self {
            FfonElement::Str(_) => false,
            FfonElement::Obj(_) => true,
        }
    }

    /// The text of a leaf.
    pub fn as_str(&self) -> (r: Option<&str>)
        ensures
            match r {
                Some(s) => node(*self) == Node::Leaf(s@),
                None => node(*self) is Branch,
            },
    {
        match self {
            FfonElement::Str(s) => Some(s.as_str()),
            FfonElement::Obj(_) => None,
        }
    }

    /// The section, when this is one.
    pub fn as_obj(&self) -> (r: Option<&FfonObject>)
        ensures
            match r {
                Some(obj) => node(*self) == Node::Branch(obj.key@, nodes(obj.children@)),
                None => node(*self) is Leaf,
            },
    {
        match self {
            FfonElement::Str(_) => None,
            FfonElement::Obj(obj) => Some(obj),
        }
    }

    /// The text of a leaf, or the key of a section.
    pub fn text(&self) -> (r: &str)
        ensures
            r@ == node_text(node(*self)),
    {
        match self {
            FfonElement::Str(s) => s.as_str(),
            FfonElement::Obj(obj) => obj.key.as_str(),
        }
    }
}

/// A copy of `e`.
pub(crate) fn copy_element(e: &FfonElement) -> (r: FfonElement)
    ensures
        node(r) == node(*e),
    decreases e,
{
    match e {
        FfonElement::Str(s) => FfonElement::Str(s.clone()),
        FfonElement::Obj(obj) => FfonElement::Obj(
            FfonObject { key: obj.key.clone(), children: copy_elements(obj.children.as_slice()) },
        ),
    }
}

/// A copy of `list`.
pub(crate) fn copy_elements(list: &[FfonElement]) -> (r: Vec<FfonElement>)
    ensures
        nodes(r@) == nodes(list@),
    decreases list@,
{
    let mut out: Vec<FfonElement> = Vec::new();
    let mut i: usize = 0;
    proof {
        lemma_nodes_index(list@);
    }
    while i < list.len()
        invariant
            i <= list@.len(),
            nodes(list@).len() == list@.len(),
            forall|j: int| 0 <= j < list@.len() ==> #[trigger] nodes(list@)[j] == node(list@[j]),
            nodes(out@) == nodes(list@).take(i as int),
        decreases list@.len() - i,
    {
        let e = copy_element(&list[i]);
        proof {
            lemma_nodes_push(out@, e);
            assert(nodes(list@)[i as int] == node(list@[i as int]));
        }
        out.push(e);
        i += 1;
        assert(nodes(out@) =~= nodes(list@).take(i as int));
    }
    assert(nodes(list@).take(i as int) =~= nodes(list@));
    out
}

fn wrap_element(e: &FfonElement) -> (r: FfonElement)
    ensures
        node(r) == editable(node(*e)),
    decreases e,
{
    match e {
        FfonElement::Str(s) => FfonElement::Str(format_input(s.as_str())),
        FfonElement::Obj(obj) => FfonElement::Obj(
            FfonObject {
                key: format_input(obj.key.as_str()),
                children: wrap_ffon_in_input(&obj.children),
            },
        ),
    }
}

/// The elements of `list` with every text, and every section's key, wrapped in
/// `<input>…</input>`, so that each can be edited. What a text holds, such as
/// its `<src=N>`, stays as it is inside the wrapper.
pub fn wrap_ffon_in_input(list: &Vec<FfonElement>) -> (r: Vec<FfonElement>)
    ensures
        nodes(r@) == all_editable(nodes(list@)),
    decreases list@,
{
    let mut out: Vec<FfonElement> = Vec::new();
    let mut i: usize = 0;
    let ghost want = all_editable(nodes(list@));
    proof {
        lemma_nodes_index(list@);
        lemma_all_editable_index(nodes(list@));
    }
    while i < list.len()
        invariant
            i <= list@.len(),
            want.len() == list@.len(),
            forall|j: int| 0 <= j < list@.len() ==> #[trigger] want[j] == editable(node(list@[j])),
            nodes(out@) == want.take(i as int),
        decreases list@.len() - i,
    {
        let e = wrap_element(&list[i]);
        proof {
            lemma_nodes_push(out@, e);
            assert(want[i as int] == editable(node(list@[i as int])));
        }
        out.push(e);
        i += 1;
        assert(nodes(out@) =~= want.take(i as int));
    }
    assert(want.take(i as int) =~= want);
    out
}

} // verus!
