//! The tree assembled while decoding, and its mathematical shape.

use vstd::prelude::*;

use crate::value::{spec_is_scalar, value_model, Value, ValueModel};

verus! {

/// The decode tree.
///
/// Unlike the public [`Value`] model, this representation can carry
/// placeholders and overflow-object state while the decode pipeline is still
/// assembling the final structure. Objects keep their entries in insertion
/// order.
#[derive(Debug, PartialEq)]
pub enum Node {
    /// A placeholder used while compacting or merging sparse structures.
    Undefined,
    /// A finalized scalar or already-materialized public value.
    Value(Value),
    /// A dense list node.
    Array(Vec<Node>),
    /// An ordered object node.
    Object(Vec<(String, Node)>),
    /// A numeric-keyed object used once list growth has overflowed list rules.
    OverflowObject {
        /// The accumulated entries.
        entries: Vec<(String, Node)>,
        /// The greatest numeric index observed so far.
        max_index: usize,
    },
}

/// The shape of a [`Node`]: the same tree, with sequences for lists and
/// object entries and the text of each key.
pub enum Tree {
    /// A placeholder.
    Undefined,
    /// A scalar or materialized value.
    Leaf(Value),
    /// A dense list.
    List(Seq<Tree>),
    /// An ordered object.
    Object(Seq<(Seq<char>, Tree)>),
    /// An overflow object and its greatest numeric index.
    Overflow(Seq<(Seq<char>, Tree)>, nat),
}

/// The shape of a node.
pub open spec fn tree_of(n: Node) -> Tree
    decreases n,
{
    match n {
        Node::Undefined => Tree::Undefined,
        Node::Value(v) => Tree::Leaf(v),
        Node::Array(items) => Tree::List(trees_of(items@)),
        Node::Object(entries) => Tree::Object(entry_trees(entries@)),
        Node::OverflowObject { entries, max_index } => Tree::Overflow(
            entry_trees(entries@),
            max_index as nat,
        ),
    }
}

/// The shapes of a sequence of nodes.
pub open spec fn trees_of(s: Seq<Node>) -> Seq<Tree>
    decreases s,
{
    if s.len() == 0 {
        Seq::empty()
    } else {
        trees_of(s.drop_last()).push(tree_of(s.last()))
    }
}

/// The shape of an object entry: the text of its key and the shape of its value.
pub open spec fn entry_tree(e: (String, Node)) -> (Seq<char>, Tree)
    decreases e,
{
    (e.0@, tree_of(e.1))
}

/// The shapes of a sequence of object entries.
pub open spec fn entry_trees(s: Seq<(String, Node)>) -> Seq<(Seq<char>, Tree)>
    decreases s,
{
    if s.len() == 0 {
        Seq::empty()
    } else {
        entry_trees(s.drop_last()).push(entry_tree(s.last()))
    }
}

impl View for Node {
    type V = Tree;

    open spec fn view(&self) -> Tree {
        tree_of(*self)
    }
}

/// The shapes of a sequence of nodes, element by element.
pub proof fn lemma_trees_of(s: Seq<Node>)
    ensures
        trees_of(s).len() == s.len(),
        forall|i: int| 0 <= i < s.len() ==> #[trigger] trees_of(s)[i] == tree_of(s[i]),
    decreases s.len(),
{
    if s.len() > 0 {
        lemma_trees_of(s.drop_last());
    }
}

/// The shapes of a sequence of entries, entry by entry.
pub proof fn lemma_entry_trees(s: Seq<(String, Node)>)
    ensures
        entry_trees(s).len() == s.len(),
        forall|i: int| 0 <= i < s.len() ==> #[trigger] entry_trees(s)[i] == entry_tree(s[i]),
    decreases s.len(),
{
    if s.len() > 0 {
        lemma_entry_trees(s.drop_last());
    }
}

/// Shapes follow an appended node.
pub proof fn lemma_trees_push(s: Seq<Node>, x: Node)
    ensures
        trees_of(s.push(x)) == trees_of(s).push(tree_of(x)),
{
    assert(s.push(x).drop_last() =~= s);
}

/// Shapes follow a replaced node.
pub proof fn lemma_trees_update(s: Seq<Node>, i: int, x: Node)
    requires
        0 <= i < s.len(),
    ensures
        trees_of(s.update(i, x)) == trees_of(s).update(i, tree_of(x)),
{
    lemma_trees_of(s);
    lemma_trees_of(s.update(i, x));
    assert(trees_of(s.update(i, x)) =~= trees_of(s).update(i, tree_of(x)));
}

/// Shapes follow an appended entry.
pub proof fn lemma_entries_push(s: Seq<(String, Node)>, x: (String, Node))
    ensures
        entry_trees(s.push(x)) == entry_trees(s).push(entry_tree(x)),
{
    assert(s.push(x).drop_last() =~= s);
}

/// Shapes follow a replaced entry.
pub proof fn lemma_entries_update(s: Seq<(String, Node)>, i: int, x: (String, Node))
    requires
        0 <= i < s.len(),
    ensures
        entry_trees(s.update(i, x)) == entry_trees(s).update(i, entry_tree(x)),
{
    lemma_entry_trees(s);
    lemma_entry_trees(s.update(i, x));
    assert(entry_trees(s.update(i, x)) =~= entry_trees(s).update(i, entry_tree(x)));
}

impl Node {
    /// A scalar leaf.
    pub fn scalar(value: Value) -> (r: Self)
        requires
            spec_is_scalar(value),
        ensures
            r == Node::Value(value),
    {
        Node::Value(value)
    }

    /// Whether this node is the placeholder.
    pub fn is_undefined(&self) -> (r: bool)
        ensures
            r == (*self is Undefined),
    {
        match self {
            Node::Undefined => true,
            _ => false,
        }
    }

    /// Whether this node is the null value, which merges as "no source".
    pub fn is_null_source(&self) -> (r: bool)
        ensures
            r == (*self == Node::Value(Value::Null)),
    {
        match self {
            Node::Value(Value::Null) => true,
            _ => false,
        }
    }

    /// Whether this node is an object or an overflow object.
    pub fn is_map_like(&self) -> (r: bool)
        ensures
            r == (*self is Object || *self is OverflowObject),
    {
        match self {
            Node::Object(_) | Node::OverflowObject { .. } => true,
            _ => false,
        }
    }
}

/// The contents of a [`Node`]: the shape of [`tree_of`] with the contents of
/// each leaf value.
pub enum NodeModel {
    Undefined,
    Leaf(ValueModel),
    List(Seq<NodeModel>),
    Object(Seq<(Seq<char>, NodeModel)>),
    Overflow(Seq<(Seq<char>, NodeModel)>, nat),
}

/// The contents of a node.
pub open spec fn node_model(n: Node) -> NodeModel
    decreases n,
{
    match n {
        Node::Undefined => NodeModel::Undefined,
        Node::Value(v) => NodeModel::Leaf(value_model(v)),
        Node::Array(items) => NodeModel::List(node_models(items@)),
        Node::Object(entries) => NodeModel::Object(node_entry_models(entries@)),
        Node::OverflowObject { entries, max_index } => NodeModel::Overflow(
            node_entry_models(entries@),
            max_index as nat,
        ),
    }
}

/// The contents of a sequence of nodes.
pub open spec fn node_models(s: Seq<Node>) -> Seq<NodeModel>
    decreases s,
{
    if s.len() == 0 {
        Seq::empty()
    } else {
        node_models(s.drop_last()).push(node_model(s.last()))
    }
}

/// The contents of an object entry of a node.
pub open spec fn node_entry_model(e: (String, Node)) -> (Seq<char>, NodeModel)
    decreases e,
{
    (e.0@, node_model(e.1))
}

/// The contents of a sequence of object entries of a node.
pub open spec fn node_entry_models(s: Seq<(String, Node)>) -> Seq<(Seq<char>, NodeModel)>
    decreases s,
{
    if s.len() == 0 {
        Seq::empty()
    } else {
        node_entry_models(s.drop_last()).push(node_entry_model(s.last()))
    }
}

impl DeepView for Node {
    type V = NodeModel;

    open spec fn deep_view(&self) -> NodeModel {
        node_model(*self)
    }
}

/// The contents of a sequence of nodes, node by node.
pub proof fn lemma_node_models(s: Seq<Node>)
    ensures
        node_models(s).len() == s.len(),
        forall|i: int| 0 <= i < s.len() ==> #[trigger] node_models(s)[i] == node_model(s[i]),
    decreases s.len(),
{
    if s.len() > 0 {
        lemma_node_models(s.drop_last());
    }
}

/// The contents of a sequence of node entries, entry by entry.
pub proof fn lemma_node_entry_models(s: Seq<(String, Node)>)
    ensures
        node_entry_models(s).len() == s.len(),
        forall|i: int| 0 <= i < s.len() ==> #[trigger] node_entry_models(s)[i] == node_entry_model(s[i]),
    decreases s.len(),
{
    if s.len() > 0 {
        lemma_node_entry_models(s.drop_last());
    }
}

/// A copy of `items`, node by node.
fn clone_nodes(items: &Vec<Node>) -> (r: Vec<Node>)
    ensures
        node_models(r@) == node_models(items@),
    decreases items, 0int,
{
    let mut out: Vec<Node> = Vec::with_capacity(items.len());
    let mut i: usize = 0;
    while i < items.len()
        invariant
            i <= items.len(),
            out@.len() == i,
            forall|j: int| 0 <= j < i ==> #[trigger] node_model(out@[j]) == node_model(items@[j]),
        decreases items.len() - i,
    {
        proof {
            assert(decreases_to!(items => items[i as int]));
        }
        out.push(clone_node(&items[i]));
        i = i + 1;
    }
    proof {
        lemma_node_models(out@);
        lemma_node_models(items@);
        assert(node_models(out@) =~= node_models(items@));
    }
    out
}

/// A copy of `entries`, entry by entry.
fn clone_node_entries(entries: &Vec<(String, Node)>) -> (r: Vec<(String, Node)>)
    ensures
        node_entry_models(r@) == node_entry_models(entries@),
    decreases entries, 0int,
{
    let mut out: Vec<(String, Node)> = Vec::with_capacity(entries.len());
    let mut i: usize = 0;
    while i < entries.len()
        invariant
            i <= entries.len(),
            out@.len() == i,
            forall|j: int| 0 <= j < i ==> #[trigger] node_entry_model(out@[j]) == node_entry_model(entries@[j]),
        decreases entries.len() - i,
    {
        let (key, value) = &entries[i];
        proof {
            assert(decreases_to!(entries => entries[i as int].1));
        }
        out.push((key.clone(), clone_node(value)));
        i = i + 1;
    }
    proof {
        lemma_node_entry_models(out@);
        lemma_node_entry_models(entries@);
        assert(node_entry_models(out@) =~= node_entry_models(entries@));
    }
    out
}

/// A copy of `n`: a node with the same contents.
fn clone_node(n: &Node) -> (r: Node)
    ensures
        node_model(r) == node_model(*n),
    decreases n, 1int,
{
    match n {
        Node::Undefined => Node::Undefined,
        Node::Value(v) => Node::Value(v.clone()),
        Node::Array(items) => Node::Array(clone_nodes(items)),
        Node::Object(entries) => Node::Object(clone_node_entries(entries)),
        Node::OverflowObject { entries, max_index } => Node::OverflowObject {
            entries: clone_node_entries(entries),
            max_index: *max_index,
        },
    }
}

impl Clone for Node {
    /// A node with the same contents.
    fn clone(&self) -> (r: Self)
        ensures
            r.deep_view() == self.deep_view(),
    {
        clone_node(self)
    }
}

} // verus!
