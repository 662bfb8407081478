//! The cache tree: an `indextree` arena of refinement nodes, addressed by the
//! one-based index that `indextree` gives each node.
//!
//! Node `k` of the model (zero-based) is the node whose id is `k + 1`. Nodes are only
//! ever appended, so an id stays valid for the life of the arena.
use crate::refinement::{
    is_child_label, is_octahedron_domain_number, is_tetrahedron_domain_number,
    is_tetrahedron_label, lemma_child_label_bound, Geometry, MAX_LABEL, ROOT_LABEL,
};
use indextree::Arena;
use std::num::NonZeroUsize;
use vstd::prelude::*;

verus! {

#[verifier::external_type_specification]
#[verifier::external_body]
#[verifier::reject_recursive_types(T)]
pub struct ExArena<T>(Arena<T>);

/// Deepest level the refinement reaches; the root is at depth zero.
pub const MAX_DEPTH: usize = 40;

/// What a node of the cache tree records.
#[derive(Clone, Copy, Debug)]
pub struct NodeData {
    /// The refinement test has been run on this node.
    pub checked: bool,
    /// The node's label: which child of its parent it is.
    pub number: u8,
}

impl NodeData {
    pub fn new(checked: bool, number: u8) -> (r: Self)
        ensures
            r.checked == checked,
            r.number == number,
    {
        NodeData { checked, number }
    }
}

impl NodeData {
    /// Whether the node is a tetrahedron of the three-dimensional refinement.
    pub fn is_simplex_subdomain(&self) -> (r: bool)
        requires
            self.number <= MAX_LABEL,
        ensures
            r == is_tetrahedron_label(self.number),
    {
        is_tetrahedron_domain_number(self.number)
    }

    /// Whether the node is an octahedron of the three-dimensional refinement.
    pub fn is_octahedral_subdomain(&self) -> (r: bool)
        requires
            self.number <= MAX_LABEL,
        ensures
            r == !is_tetrahedron_label(self.number),
    {
        is_octahedron_domain_number(self.number)
    }
}

/// One node of the arena as plain values: parent id, child ids in order, checked flag, label.
pub type NodeModel = (Option<usize>, Seq<usize>, bool, u8);

/// What the arena holds: slot `k` is the node with id `k + 1`.
pub uninterp spec fn arena_nodes(a: Arena<NodeData>) -> Seq<NodeModel>;

/// No node of the arena was ever removed, so every slot holds a live node.
pub uninterp spec fn arena_untouched(a: Arena<NodeData>) -> bool;

/// Relies on `Arena::new`: an arena without nodes.
#[verifier::external_body]
pub(crate) fn arena_new() -> (r: Arena<NodeData>)
    ensures
        arena_nodes(r) == Seq::<NodeModel>::empty(),
        arena_untouched(r),
{
    Arena::new()
}

/// Relies on `Arena::new_node`: without removed slots the node is pushed at the end,
/// with no parent and no children; `usize::from` on its `NodeId` gives the one-based
/// index, the new length.
#[verifier::external_body]
pub(crate) fn arena_new_node(a: &mut Arena<NodeData>, data: NodeData) -> (id: usize)
    requires
        arena_untouched(*old(a)),
        arena_nodes(*old(a)).len() + 1 < usize::MAX,
    ensures
        arena_untouched(*final(a)),
        arena_nodes(*final(a)) == arena_nodes(*old(a)).push(
            (None, Seq::<usize>::empty(), data.checked, data.number),
        ),
        id == arena_nodes(*final(a)).len(),
{
    usize::from(a.new_node(data))
}

/// Relies on `NodeId::append_value`: a new node is pushed at the end and appended as
/// the last child of `parent`. The parent's id comes from `Arena::get_node_id_at`, which
/// finds every slot of an arena without removed nodes.
#[verifier::external_body]
pub(crate) fn arena_append_value(a: &mut Arena<NodeData>, parent: usize, data: NodeData) -> (id: usize)
    requires
        arena_untouched(*old(a)),
        1 <= parent <= arena_nodes(*old(a)).len(),
        arena_nodes(*old(a)).len() + 1 < usize::MAX,
    ensures
        arena_untouched(*final(a)),
        id == arena_nodes(*old(a)).len() + 1,
        arena_nodes(*final(a)) == ({
            let s = arena_nodes(*old(a));
            let p = s[parent - 1];
            s.update(parent - 1, (p.0, p.1.push(id), p.2, p.3)).push(
                (Some(parent), Seq::<usize>::empty(), data.checked, data.number),
            )
        }),
{
    let node = a.get_node_id_at(NonZeroUsize::new(parent).unwrap()).unwrap();
    usize::from(node.append_value(data, a))
}

/// Relies on `Arena::get_node_id_at`, indexing an `Arena` and `Node::get`: the data of
/// a live node.
#[verifier::external_body]
pub(crate) fn arena_get(a: &Arena<NodeData>, id: usize) -> (r: NodeData)
    requires
        arena_untouched(*a),
        1 <= id <= arena_nodes(*a).len(),
    ensures
        r.checked == arena_nodes(*a)[id - 1].2,
        r.number == arena_nodes(*a)[id - 1].3,
{
    let node = a.get_node_id_at(NonZeroUsize::new(id).unwrap()).unwrap();
    *a[node].get()
}

/// Relies on `Arena::get_node_id_at`, indexing an `Arena` mutably and `Node::get_mut`:
/// replaces a node's data, leaving the links alone.
#[verifier::external_body]
pub(crate) fn arena_set(a: &mut Arena<NodeData>, id: usize, data: NodeData)
    requires
        arena_untouched(*old(a)),
        1 <= id <= arena_nodes(*old(a)).len(),
    ensures
        arena_untouched(*final(a)),
        arena_nodes(*final(a)) == ({
            let s = arena_nodes(*old(a));
            s.update(id - 1, (s[id - 1].0, s[id - 1].1, data.checked, data.number))
        }),
{
    let node = a.get_node_id_at(NonZeroUsize::new(id).unwrap()).unwrap();
    *a[node].get_mut() = data;
}

/// Relies on `NodeId::is_leaf`: whether the node has no child.
#[verifier::external_body]
pub(crate) fn arena_is_leaf(a: &Arena<NodeData>, id: usize) -> (r: bool)
    requires
        arena_untouched(*a),
        1 <= id <= arena_nodes(*a).len(),
    ensures
        r == (arena_nodes(*a)[id - 1].1.len() == 0),
{
    let node = a.get_node_id_at(NonZeroUsize::new(id).unwrap()).unwrap();
    node.is_leaf(a)
}

/// Relies on `NodeId::children`: the ids of the node's children, in order.
#[verifier::external_body]
pub(crate) fn arena_children(a: &Arena<NodeData>, id: usize) -> (r: Vec<usize>)
    requires
        arena_untouched(*a),
        1 <= id <= arena_nodes(*a).len(),
    ensures
        r@ == arena_nodes(*a)[id - 1].1,
{
    let node = a.get_node_id_at(NonZeroUsize::new(id).unwrap()).unwrap();
    node.children(a).map(usize::from).collect()
}

/// Relies on `NodeId::parent`: the id of the node's parent, if any.
#[verifier::external_body]
pub(crate) fn arena_parent(a: &Arena<NodeData>, id: usize) -> (r: Option<usize>)
    requires
        arena_untouched(*a),
        1 <= id <= arena_nodes(*a).len(),
    ensures
        r == arena_nodes(*a)[id - 1].0,
{
    let node = a.get_node_id_at(NonZeroUsize::new(id).unwrap()).unwrap();
    node.parent(a).map(usize::from)
}

/// Relies on `Arena::len`: the number of slots, which without removals is the number of nodes.
#[verifier::external_body]
pub(crate) fn arena_len(a: &Arena<NodeData>) -> (r: usize)
    ensures
        r == arena_nodes(*a).len(),
{
    a.len()
}

/// Zero-based index of the parent of node `k`, or -1 for a node without parent.
pub open spec fn parent_index(s: Seq<NodeModel>, k: int) -> int {
    match s[k].0 {
        Some(p) => p - 1,
        None => -1,
    }
}

pub open spec fn label(s: Seq<NodeModel>, k: int) -> u8 {
    s[k].3
}

pub open spec fn is_checked(s: Seq<NodeModel>, k: int) -> bool {
    s[k].2
}

pub open spec fn is_leaf(s: Seq<NodeModel>, k: int) -> bool {
    s[k].1.len() == 0
}

/// Number of edges between node `k` and the root.
pub open spec fn depth(s: Seq<NodeModel>, k: int) -> nat
    decreases k,
{
    let p = parent_index(s, k);
    if 0 <= p < k {
        depth(s, p) + 1
    } else {
        0
    }
}

/// The `i`-th ancestor of node `k` (node `k` itself for `i == 0`).
pub open spec fn ancestor(s: Seq<NodeModel>, k: int, i: nat) -> int
    decreases i,
{
    if i == 0 {
        k
    } else {
        ancestor(s, parent_index(s, k), (i - 1) as nat)
    }
}

/// A well-formed cache tree of geometry `g`: node 0 is the root; every other node has
/// an earlier node as parent, a label that may stand below the parent's, and a place in
/// the parent's child list; a child list names, in increasing order, later nodes whose
/// parent is its owner (so it holds exactly those nodes, in the order they were
/// created); no node is deeper than `MAX_DEPTH`.
pub open spec fn tree_wf(g: Geometry, s: Seq<NodeModel>) -> bool {
    &&& s.len() >= 1
    &&& s[0].0 == None::<usize>
    &&& s[0].3 == ROOT_LABEL
    &&& forall|k: int|
        1 <= k < s.len() ==> {
            &&& #[trigger] s[k].0 is Some
            &&& 0 <= parent_index(s, k) < k
            &&& is_child_label(g, label(s, parent_index(s, k)), label(s, k))
            &&& s[parent_index(s, k)].1.contains((k + 1) as usize)
        }
    &&& forall|k: int, i: int, j: int|
        0 <= k < s.len() && 0 <= i < j < s[k].1.len() ==> #[trigger] s[k].1[i] < #[trigger] s[k].1[j]
    &&& forall|k: int, j: int|
        0 <= k < s.len() && 0 <= j < s[k].1.len() ==> {
            &&& k + 1 < #[trigger] s[k].1[j] <= s.len()
            &&& s[s[k].1[j] - 1].0 == Some((k + 1) as usize)
        }
    &&& forall|k: int| 0 <= k < s.len() ==> #[trigger] depth(s, k) <= MAX_DEPTH
}

/// Every label of a well-formed tree belongs to the alphabet.
pub proof fn lemma_label_bound(g: Geometry, s: Seq<NodeModel>, k: int)
    requires
        tree_wf(g, s),
        0 <= k < s.len(),
    ensures
        label(s, k) <= MAX_LABEL,
{
    if k >= 1 {
        assert(s[k].0 is Some);
        lemma_child_label_bound(g, label(s, parent_index(s, k)), label(s, k));
    }
}

/// Nodes that agree on the parents of `0..=k` give node `k` the same depth.
pub proof fn lemma_depth_stable(s: Seq<NodeModel>, t: Seq<NodeModel>, k: int)
    requires
        0 <= k < s.len(),
        k < t.len(),
        forall|j: int| 0 <= j <= k ==> #[trigger] s[j].0 == t[j].0,
    ensures
        depth(s, k) == depth(t, k),
    decreases k,
{
    let p = parent_index(s, k);
    assert(parent_index(t, k) == p);
    if 0 <= p < k {
        lemma_depth_stable(s, t, p);
    }
}

/// In a well-formed tree the ancestor at the node's depth is the root, and every
/// nearer ancestor is an ordinary node whose parent is the next ancestor.
pub proof fn lemma_ancestors(g: Geometry, s: Seq<NodeModel>, k: int, i: nat)
    requires
        tree_wf(g, s),
        0 <= k < s.len(),
        i <= depth(s, k),
    ensures
        0 <= ancestor(s, k, i) <= k,
        depth(s, ancestor(s, k, i)) == depth(s, k) - i,
        i == depth(s, k) ==> ancestor(s, k, i) == 0,
        i < depth(s, k) ==> ancestor(s, k, i) >= 1 && ancestor(s, k, (i + 1) as nat)
            == parent_index(s, ancestor(s, k, i)),
    decreases i,
{
    if k >= 1 {
        assert(s[k].0 is Some);
    }
    if i > 0 {
        let p = parent_index(s, k);
        assert(k >= 1) by {
            if k == 0 {
                assert(depth(s, 0) == 0);
            }
        }
        lemma_ancestors(g, s, p, (i - 1) as nat);
        assert(ancestor(s, k, i) == ancestor(s, p, (i - 1) as nat));
        if i < depth(s, k) {
            assert(ancestor(s, k, (i + 1) as nat) == ancestor(s, p, i as nat));
        }
    } else {
        if depth(s, k) == 0 {
            if k >= 1 {
                assert(0 <= parent_index(s, k) < k);
            }
        } else {
            assert(k >= 1);
            assert(ancestor(s, k, 1) == ancestor(s, parent_index(s, k), 0));
        }
    }
}

/// Setting the checked flag of a node keeps a tree well formed and every depth unchanged.
pub proof fn lemma_flag_wf(g: Geometry, s: Seq<NodeModel>, k: int, b: bool)
    requires
        tree_wf(g, s),
        0 <= k < s.len(),
    ensures
        tree_wf(g, s.update(k, (s[k].0, s[k].1, b, s[k].3))),
        forall|j: int|
            0 <= j < s.len() ==> #[trigger] depth(s.update(k, (s[k].0, s[k].1, b, s[k].3)), j)
                == depth(s, j),
{
    let t = s.update(k, (s[k].0, s[k].1, b, s[k].3));
    assert forall|j: int| 0 <= j < s.len() implies #[trigger] depth(t, j) == depth(s, j) by {
        lemma_depth_stable(s, t, j);
    }
    assert forall|j: int| 0 <= j < t.len() implies #[trigger] depth(t, j) <= MAX_DEPTH by {
        lemma_depth_stable(s, t, j);
    }
    assert forall|j: int, c: int| 0 <= j < t.len() && 0 <= c < t[j].1.len() implies {
        &&& j + 1 < #[trigger] t[j].1[c] <= t.len()
        &&& t[t[j].1[c] - 1].0 == Some((j + 1) as usize)
    } by {
        assert(t[j].1 == s[j].1);
    }
}

/// The model after appending a new node labelled `l` as last child of node `p`.
pub open spec fn appended(s: Seq<NodeModel>, p: int, l: u8) -> Seq<NodeModel> {
    s.update(p, (s[p].0, s[p].1.push((s.len() + 1) as usize), s[p].2, s[p].3)).push(
        (Some((p + 1) as usize), Seq::<usize>::empty(), false, l),
    )
}

/// Appending a child with a fitting label below a node that is not at the deepest level
/// keeps a tree well formed; the new node is one level below its parent.
pub proof fn lemma_append_wf(g: Geometry, s: Seq<NodeModel>, p: int, l: u8)
    requires
        tree_wf(g, s),
        0 <= p < s.len(),
        is_child_label(g, label(s, p), l),
        depth(s, p) < MAX_DEPTH,
        s.len() + 1 < usize::MAX,
    ensures
        tree_wf(g, appended(s, p, l)),
        depth(appended(s, p, l), s.len() as int) == depth(s, p) + 1,
        forall|j: int| 0 <= j < s.len() ==> #[trigger] depth(appended(s, p, l), j) == depth(s, j),
{
    let t = appended(s, p, l);
    let n = s.len() as int;
    assert forall|j: int| 0 <= j < n implies #[trigger] depth(t, j) == depth(s, j) by {
        lemma_depth_stable(s, t, j);
    }
    assert(parent_index(t, n) == p);
    assert(depth(t, p) == depth(s, p));
    assert forall|j: int| 0 <= j < t.len() implies #[trigger] depth(t, j) <= MAX_DEPTH by {
        if j < n {
            assert(depth(t, j) == depth(s, j));
        }
    }
    assert forall|k: int| 1 <= k < t.len() implies {
        &&& #[trigger] t[k].0 is Some
        &&& 0 <= parent_index(t, k) < k
        &&& is_child_label(g, label(t, parent_index(t, k)), label(t, k))
        &&& t[parent_index(t, k)].1.contains((k + 1) as usize)
    } by {
        if k < n {
            assert(s[k].0 is Some);
            let q = parent_index(s, k);
            let i = choose|i: int| 0 <= i < s[q].1.len() && s[q].1[i] == (k + 1) as usize;
            assert(t[q].1[i] == s[q].1[i]);
        } else {
            assert(t[p].1[s[p].1.len() as int] == (n + 1) as usize);
        }
    }
    assert forall|k: int, i: int, j: int| 0 <= k < t.len() && 0 <= i < j < t[k].1.len() implies #[trigger] t[k].1[i] < #[trigger] t[k].1[j] by {
        if k == p {
            assert(s[p].1[i] <= n);
            if j < s[p].1.len() {
                assert(s[p].1[i] < s[p].1[j]);
            }
        } else if k < n {
            assert(t[k].1 == s[k].1);
            assert(s[k].1[i] < s[k].1[j]);
        }
    }
    assert forall|j: int, c: int| 0 <= j < t.len() && 0 <= c < t[j].1.len() implies {
        &&& j + 1 < #[trigger] t[j].1[c] <= t.len()
        &&& t[t[j].1[c] - 1].0 == Some((j + 1) as usize)
    } by {
        if j != p && j < n {
            assert(t[j].1 == s[j].1);
            assert(s[j].1[c] <= n);
        } else if j == p {
            if c < s[p].1.len() {
                assert(t[j].1[c] == s[p].1[c]);
            } else {
                assert(t[j].1[c] == n + 1);
            }
        }
    }
}

/// A fresh arena holding only an unchecked root.
pub fn new_root_arena() -> (a: Arena<NodeData>)
    ensures
        arena_untouched(a),
        arena_nodes(a) == seq![root_model()],
{
    let mut a = arena_new();
    let _root = arena_new_node(&mut a, NodeData::new(false, ROOT_LABEL));
    assert(arena_nodes(a) =~= seq![root_model()]);
    a
}

/// The model of an unchecked root without children.
pub open spec fn root_model() -> NodeModel {
    (None, Seq::<usize>::empty(), false, ROOT_LABEL)
}

pub proof fn lemma_root_wf(g: Geometry)
    ensures
        tree_wf(g, seq![root_model()]),
{
    let s = seq![root_model()];
    assert(depth(s, 0) == 0);
}

} // verus!
