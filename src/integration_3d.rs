//! The adaptive integrator over tetrahedra.
use crate::cache_tree::{
    appended, arena_append_value, depth, label, lemma_append_wf, lemma_depth_stable, root_model,
    arena_get, arena_is_leaf, arena_len, arena_nodes, arena_parent, arena_set, arena_untouched,
    lemma_flag_wf, new_root_arena, tree_wf, NodeData, NodeModel,
};
use crate::hierarchic::{
    integrate_tree, integration_outcome, start_tree, tree_value, decided_since, Duplicate, transform_ok, ResultType, SimplexIntegrator,
};
use crate::refinement::{is_child_label, Geometry, MAX_LABEL, ROOT_LABEL};
use crate::cache_tree::MAX_DEPTH;
use crate::hierarchic::MAX_NODES;
use crate::transform::{mat_identity, Transform};
use indextree::Arena;
use vstd::prelude::*;

verus! {

/// Token that opens the child scope of the preceding node.
pub const OPEN_SCOPE: u8 = 20;

/// Token that closes a child scope.
pub const CLOSE_SCOPE: u8 = 21;

/// Reads the children of a node (its index `parent`, its label `parent_label`) from
/// `tokens[pos..]`, up to the token that closes their scope. Each child is a label that
/// may stand below the parent, optionally followed by an opened scope of its own
/// children; the children are `depth` deep and get the node indices from `next` on.
/// Returns the position of the closing token and the nodes read, in order, as
/// (parent index, label); `None` for a malformed sequence.
pub open spec fn parse_children(
    tokens: Seq<u8>,
    pos: int,
    parent: int,
    parent_label: u8,
    depth: nat,
    next: int,
) -> Option<(int, Seq<(int, u8)>)>
    decreases tokens.len() - pos,
{
    if pos < 0 || pos >= tokens.len() {
        None
    } else if tokens[pos] == CLOSE_SCOPE {
        Some((pos, Seq::empty()))
    } else if depth <= MAX_DEPTH && is_child_label(Geometry::Tetrahedron, parent_label, tokens[pos]) {
        let l = tokens[pos];
        if pos + 1 < tokens.len() && tokens[pos + 1] == OPEN_SCOPE {
            match parse_children(tokens, pos + 2, next, l, depth + 1, next + 1) {
                Some(inner) => if pos < inner.0 < tokens.len() {
                    match parse_children(
                        tokens,
                        inner.0 + 1,
                        parent,
                        parent_label,
                        depth,
                        next + 1 + inner.1.len(),
                    ) {
                        Some(rest) => Some((rest.0, seq![(parent, l)] + inner.1 + rest.1)),
                        None => None,
                    }
                } else {
                    None
                },
                None => None,
            }
        } else {
            match parse_children(tokens, pos + 1, parent, parent_label, depth, next + 1) {
                Some(rest) => Some((rest.0, seq![(parent, l)] + rest.1)),
                None => None,
            }
        }
    } else {
        None
    }
}

/// The tree that a token sequence describes: the root marker, an opened scope, the
/// root's children and the closing token, with nothing after it. The nodes below the
/// root, in the order of their tokens, as (parent index, label).
pub open spec fn vec_tree_nodes(tokens: Seq<u8>) -> Option<Seq<(int, u8)>> {
    if 2 <= tokens.len() <= MAX_NODES && tokens[0] == ROOT_LABEL && tokens[1] == OPEN_SCOPE {
        match parse_children(tokens, 2, 0, ROOT_LABEL, 1, 1) {
            Some(r) => if r.0 == tokens.len() - 1 {
                Some(r.1)
            } else {
                None
            },
            None => None,
        }
    } else {
        None
    }
}

/// The encoding of a root whose children are leaves labelled `labels`: the root marker,
/// an opened scope, the labels, and the closing token.
pub open spec fn flat_tree_tokens(labels: Seq<u8>) -> Seq<u8> {
    seq![ROOT_LABEL, OPEN_SCOPE] + labels + seq![CLOSE_SCOPE]
}

proof fn lemma_flat_children(labels: Seq<u8>, i: int)
    requires
        0 <= i <= labels.len(),
        forall|j: int| 0 <= j < labels.len() ==> is_child_label(Geometry::Tetrahedron, ROOT_LABEL, #[trigger] labels[j]),
    ensures
        parse_children(flat_tree_tokens(labels), 2 + i, 0, ROOT_LABEL, 1, 1 + i) == Some(
            ((2 + labels.len()) as int, Seq::new((labels.len() - i) as nat, |x: int| (0int, labels[i + x]))),
        ),
    decreases labels.len() - i,
{
    let tokens = flat_tree_tokens(labels);
    assert(tokens.len() == labels.len() + 3);
    if i == labels.len() {
        assert(tokens[2 + i] == CLOSE_SCOPE);
        assert(Seq::new((labels.len() - i) as nat, |x: int| (0int, labels[i + x])) =~= Seq::<(int, u8)>::empty());
    } else {
        lemma_flat_children(labels, i + 1);
        assert(tokens[2 + i] == labels[i]);
        crate::refinement::lemma_child_label_bound(Geometry::Tetrahedron, ROOT_LABEL, labels[i]);
        if i + 1 < labels.len() {
            assert(tokens[3 + i] == labels[i + 1]);
            crate::refinement::lemma_child_label_bound(Geometry::Tetrahedron, ROOT_LABEL, labels[i + 1]);
        } else {
            assert(tokens[3 + i] == CLOSE_SCOPE);
        }
        assert(seq![(0int, labels[i])] + Seq::new((labels.len() - (i + 1)) as nat, |x: int| (0int, labels[i + 1 + x]))
            =~= Seq::new((labels.len() - i) as nat, |x: int| (0int, labels[i + x])));
    }
}

/// Decoding the encoding of a root with leaf children gives that tree back: one node per
/// label, in order, each a child of the root.
pub proof fn lemma_flat_tree_round_trip(labels: Seq<u8>)
    requires
        labels.len() + 3 <= MAX_NODES,
        forall|j: int| 0 <= j < labels.len() ==> is_child_label(Geometry::Tetrahedron, ROOT_LABEL, #[trigger] labels[j]),
    ensures
        vec_tree_nodes(flat_tree_tokens(labels)) == Some(
            Seq::new(labels.len(), |x: int| (0int, labels[x])),
        ),
{
    lemma_flat_children(labels, 0);
    assert(Seq::new(labels.len(), |x: int| (0int, labels[0 + x])) =~= Seq::new(labels.len(), |x: int| (0int, labels[x])));
}

/// The model `s` holds an unchecked root followed by the unchecked nodes `ns`.
pub open spec fn holds_nodes(s: Seq<NodeModel>, ns: Seq<(int, u8)>) -> bool {
    &&& s.len() == ns.len() + 1
    &&& s[0].0 == None::<usize> && s[0].3 == ROOT_LABEL && !s[0].2
    &&& forall|i: int|
        0 <= i < ns.len() ==> {
            &&& #[trigger] s[i + 1].0 == Some((ns[i].0 + 1) as usize)
            &&& s[i + 1].3 == ns[i].1
            &&& !s[i + 1].2
        }
}

/// The nodes of `s0` keep their parent, flag and label in `s`.
pub open spec fn keeps_nodes(s0: Seq<NodeModel>, s: Seq<NodeModel>) -> bool {
    &&& s.len() >= s0.len()
    &&& forall|j: int|
        0 <= j < s0.len() ==> #[trigger] s[j].0 == s0[j].0 && s[j].2 == s0[j].2 && s[j].3 == s0[j].3
}

/// `s` is `s0` followed by the unchecked nodes `ns`, given as (parent index, label).
pub open spec fn appends_nodes(s0: Seq<NodeModel>, s: Seq<NodeModel>, ns: Seq<(int, u8)>) -> bool {
    &&& s.len() == s0.len() + ns.len()
    &&& forall|i: int|
        0 <= i < ns.len() ==> {
            &&& #[trigger] s[s0.len() + i].0 == Some((ns[i].0 + 1) as usize)
            &&& s[s0.len() + i].3 == ns[i].1
            &&& !s[s0.len() + i].2
        }
}

proof fn lemma_keeps_trans(a: Seq<NodeModel>, b: Seq<NodeModel>, c: Seq<NodeModel>)
    requires
        keeps_nodes(a, b),
        keeps_nodes(b, c),
    ensures
        keeps_nodes(a, c),
{
    assert forall|j: int| 0 <= j < a.len() implies #[trigger] c[j].0 == a[j].0 && c[j].2 == a[j].2 && c[j].3 == a[j].3 by {
        assert(c[j].0 == b[j].0);
        assert(b[j].0 == a[j].0);
    }
}

proof fn lemma_appended_keeps(s: Seq<NodeModel>, p: int, l: u8)
    requires
        0 <= p < s.len(),
    ensures
        keeps_nodes(s, appended(s, p, l)),
{
    let t = appended(s, p, l);
    assert forall|j: int| 0 <= j < s.len() implies #[trigger] t[j].0 == s[j].0 && t[j].2 == s[j].2 && t[j].3 == s[j].3 by {
        assert(t[j] == s.update(p, (s[p].0, s[p].1.push((s.len() + 1) as usize), s[p].2, s[p].3))[j]);
    }
}

/// Reads children as `parse_children` describes, appending them to the arena.
#[verifier::rlimit(100)]
fn read_children(
    tokens: &Vec<u8>,
    pos: usize,
    parent: usize,
    parent_label: u8,
    level: usize,
    a: &mut Arena<NodeData>,
) -> (r: Option<usize>)
    requires
        arena_untouched(*old(a)),
        tree_wf(Geometry::Tetrahedron, arena_nodes(*old(a))),
        1 <= parent <= arena_nodes(*old(a)).len(),
        label(arena_nodes(*old(a)), parent - 1) == parent_label,
        depth(arena_nodes(*old(a)), parent - 1) + 1 == level,
        pos <= tokens@.len(),
        level <= MAX_DEPTH + 1,
        tokens@.len() <= MAX_NODES,
        arena_nodes(*old(a)).len() + tokens@.len() - pos <= MAX_NODES + 1,
    ensures
        arena_untouched(*final(a)),
        tree_wf(Geometry::Tetrahedron, arena_nodes(*final(a))),
        ({
            let s0 = arena_nodes(*old(a));
            let s = arena_nodes(*final(a));
            let spec_r = parse_children(tokens@, pos as int, parent - 1, parent_label, level as nat, s0.len() as int);
            &&& r is Some <==> spec_r is Some
            &&& keeps_nodes(s0, s)
            &&& s.len() <= s0.len() + tokens@.len() - pos
            &&& r matches Some(e) ==> {
                &&& e == spec_r.unwrap().0
                &&& s.len() <= s0.len() + e - pos
                &&& appends_nodes(s0, s, spec_r.unwrap().1)
            }
        }),
    decreases tokens@.len() - pos,
{
    let ghost s0 = arena_nodes(*a);
    if pos >= tokens.len() {
        return None;
    }
    let tok = tokens[pos];
    if tok == CLOSE_SCOPE {
        return Some(pos);
    }
    if level > MAX_DEPTH || tok < 1 || tok > MAX_LABEL {
        return None;
    }
    proof {
        crate::cache_tree::lemma_label_bound(Geometry::Tetrahedron, s0, parent - 1);
    }
    let found = crate::refinement::fits_below(Geometry::Tetrahedron, parent_label, tok);
    if !found {
        return None;
    }
    proof {
        lemma_append_wf(Geometry::Tetrahedron, s0, parent - 1, tok);
    }
    let id = arena_append_value(a, parent, NodeData::new(false, tok));
    let ghost s1 = arena_nodes(*a);
    proof {
        assert(s1 == appended(s0, parent - 1, tok));
    }
    if pos + 1 < tokens.len() && tokens[pos + 1] == OPEN_SCOPE {
        let inner = read_children(tokens, pos + 2, id, tok, level + 1, a);
        let ghost s2 = arena_nodes(*a);
        proof {
            lemma_appended_keeps(s0, parent - 1, tok);
            lemma_keeps_trans(s0, s1, s2);
        }
        match inner {
            Some(e) => {
                if pos < e && e < tokens.len() {
                    proof {
                        assert(s2[parent - 1].0 == s0[parent - 1].0);
                        assert forall|j: int| 0 <= j <= parent - 1 implies #[trigger] s0[j].0 == s2[j].0 by {
                            assert(s2[j].0 == s0[j].0);
                        }
                        lemma_depth_stable(s0, s2, parent - 1);
                    }
                    let rest = read_children(tokens, e + 1, parent, parent_label, level, a);
                    proof {
                        let s3 = arena_nodes(*a);
                        assert(label(s2, parent - 1) == parent_label);
                        assert(depth(s2, parent - 1) == depth(s0, parent - 1)) by {
                            lemma_depth_stable(s0, s2, parent - 1);
                        }
                        let sp = parse_children(tokens@, pos as int, parent - 1, parent_label, level as nat, s0.len() as int);
                        lemma_keeps_trans(s0, s2, s3);
                        let insp = parse_children(tokens@, pos + 2, s0.len() as int, tok, (level + 1) as nat, (s0.len() + 1) as int);
                        assert(insp is Some && insp.unwrap().0 == e);
                        let rsp = parse_children(tokens@, e + 1, parent - 1, parent_label, level as nat, (s0.len() + 1 + insp.unwrap().1.len()) as int);
                        assert(s2.len() == s0.len() + 1 + insp.unwrap().1.len());
                        assert(rest is Some <==> rsp is Some);
                        assert(rest is Some <==> sp is Some);
                        if rest is Some {
                            let ins = insp.unwrap();
                            let rs = rsp.unwrap();
                            assert(sp.unwrap().1 == seq![(parent - 1, tok)] + ins.1 + rs.1);
                            assert forall|i: int| 0 <= i < sp.unwrap().1.len() implies {
                                &&& #[trigger] s3[s0.len() + i].0 == Some((sp.unwrap().1[i].0 + 1) as usize)
                                &&& s3[s0.len() + i].3 == sp.unwrap().1[i].1
                                &&& !s3[s0.len() + i].2
                            } by {
                                if i == 0 {
                                    assert(s3[s0.len() as int].0 == s2[s0.len() as int].0);
                                } else if i < 1 + ins.1.len() {
                                    assert(s3[s0.len() + i].0 == s2[s0.len() + i].0);
                                    assert(s2[s1.len() + (i - 1)].0 == Some((ins.1[i - 1].0 + 1) as usize));
                                } else {
                                    assert(s3[s2.len() + (i - 1 - ins.1.len())].0 == Some((rs.1[i - 1 - ins.1.len()].0 + 1) as usize));
                                }
                            }
                            assert(appends_nodes(s0, s3, sp.unwrap().1));
                        }
                    }
                    rest
                } else {
                    None
                }
            },
            None => None,
        }
    } else {
        let rest = read_children(tokens, pos + 1, parent, parent_label, level, a);
        proof {
            let s3 = arena_nodes(*a);
            assert(label(s1, parent - 1) == parent_label);
            assert(depth(s1, parent - 1) == depth(s0, parent - 1));
            let sp = parse_children(tokens@, pos as int, parent - 1, parent_label, level as nat, s0.len() as int);
            lemma_appended_keeps(s0, parent - 1, tok);
            lemma_keeps_trans(s0, s1, s3);
            if rest is Some {
                let rs = parse_children(tokens@, pos + 1, parent - 1, parent_label, level as nat, (s0.len() + 1) as int).unwrap();
                assert(sp.unwrap().1 == seq![(parent - 1, tok)] + rs.1);
                assert forall|i: int| 0 <= i < sp.unwrap().1.len() implies {
                    &&& #[trigger] s3[s0.len() + i].0 == Some((sp.unwrap().1[i].0 + 1) as usize)
                    &&& s3[s0.len() + i].3 == sp.unwrap().1[i].1
                    &&& !s3[s0.len() + i].2
                } by {
                    if i == 0 {
                        assert(s3[s0.len() as int].0 == s1[s0.len() as int].0);
                    } else {
                        assert(s3[s1.len() + (i - 1)].0 == Some((rs.1[i - 1].0 + 1) as usize));
                    }
                }
                assert(appends_nodes(s0, s3, sp.unwrap().1));
            }
        }
        rest
    }
}

/// Adaptive hierarchical integration over a tetrahedron: `base_integrator` integrates the
/// leaves of the cache tree; a leaf is red-refined when its refined estimate differs
/// from its own by more than `precision`; `consolidated` disables refinement.
pub struct Hierarchic3DIntegrator<I, P> {
    pub base_integrator: I,
    pub consolidated: bool,
    pub precision: P,
}

/// The cache tree of a tetrahedron, kept across integrations.
pub struct Hierarchic3DIntegratorData {
    cached: bool,
    arena: Arena<NodeData>,
}

impl Hierarchic3DIntegratorData {
    /// The nodes of the tree, the root first.
    pub closed spec fn nodes(&self) -> Seq<NodeModel> {
        arena_nodes(self.arena)
    }

    /// Whether an integration has initialised the tree.
    pub closed spec fn is_cached(&self) -> bool {
        self.cached
    }

    pub closed spec fn wf(&self) -> bool {
        arena_untouched(self.arena) && tree_wf(Geometry::Tetrahedron, arena_nodes(self.arena))
    }

    /// An uninitialised cache; the first integration builds its tree.
    pub fn new_cache() -> (r: Self)
        ensures
            r.wf(),
            !r.is_cached(),
            r.nodes() == seq![root_model()],
    {
        proof {
            crate::cache_tree::lemma_root_wf(Geometry::Tetrahedron);
        }
        Hierarchic3DIntegratorData { cached: false, arena: new_root_arena() }
    }

    /// Rebuilds a cache tree from its token encoding (see `vec_tree_nodes`), without
    /// running the adaptive loop; `None` for a malformed sequence.
    pub fn try_new_cache_from_vec_tree(vec_tree: &Vec<u8>) -> (r: Option<Self>)
        ensures
            r is Some <==> vec_tree_nodes(vec_tree@) is Some,
            r matches Some(c) ==> c.wf() && c.is_cached() && tree_wf(Geometry::Tetrahedron, c.nodes())
                && holds_nodes(c.nodes(), vec_tree_nodes(vec_tree@).unwrap()),
    {
        if vec_tree.len() < 2 || vec_tree.len() > MAX_NODES || vec_tree[0] != ROOT_LABEL
            || vec_tree[1] != OPEN_SCOPE {
            return None;
        }
        let mut arena = new_root_arena();
        proof {
            crate::cache_tree::lemma_root_wf(Geometry::Tetrahedron);
            assert(depth(arena_nodes(arena), 0) == 0);
        }
        match read_children(vec_tree, 2, 1, ROOT_LABEL, 1, &mut arena) {
            Some(e) => {
                if e == vec_tree.len() - 1 {
                    proof {
                        let s = arena_nodes(arena);
                        let s0 = seq![root_model()];
                        let ns = vec_tree_nodes(vec_tree@).unwrap();
                        assert(s[0].0 == s0[0].0);
                        assert(appends_nodes(s0, s, ns));
                        assert forall|i: int| 0 <= i < ns.len() implies {
                            &&& #[trigger] s[i + 1].0 == Some((ns[i].0 + 1) as usize)
                            &&& s[i + 1].3 == ns[i].1
                            &&& !s[i + 1].2
                        } by {
                            assert(s[s0.len() + i].0 == Some((ns[i].0 + 1) as usize));
                            assert(s0.len() + i == i + 1);
                        }
                    }
                    Some(Hierarchic3DIntegratorData { cached: true, arena })
                } else {
                    None
                }
            },
            None => None,
        }
    }

    /// Rebuilds a cache tree from a well-formed token encoding.
    pub fn new_cache_from_vec_tree(vec_tree: &Vec<u8>) -> (r: Self)
        requires
            vec_tree_nodes(vec_tree@) is Some,
        ensures
            r.wf(),
            r.is_cached(),
            tree_wf(Geometry::Tetrahedron, r.nodes()),
            holds_nodes(r.nodes(), vec_tree_nodes(vec_tree@).unwrap()),
    {
        match Self::try_new_cache_from_vec_tree(vec_tree) {
            Some(c) => c,
            None => Self::new_cache(),
        }
    }

    /// Clears the checked flag of every leaf, so that the next integration re-validates
    /// the leaves while keeping the shape of the tree.
    pub fn make_leafs_unchecked(&mut self)
        requires
            old(self).wf(),
        ensures
            final(self).wf(),
            final(self).is_cached() == old(self).is_cached(),
            final(self).nodes() == crate::hierarchic::leaves_unchecked(old(self).nodes()),
    {
        let ghost s0 = arena_nodes(self.arena);
        let n = arena_len(&self.arena);
        let mut k: usize = 0;
        while k < n
            invariant
                n == s0.len(),
                k <= n,
                self.cached == old(self).cached,
                arena_untouched(self.arena),
                tree_wf(Geometry::Tetrahedron, arena_nodes(self.arena)),
                arena_nodes(self.arena).len() == n,
                forall|j: int|
                    0 <= j < k ==> #[trigger] arena_nodes(self.arena)[j]
                        == crate::hierarchic::leaves_unchecked(s0)[j],
                forall|j: int| k <= j < n ==> #[trigger] arena_nodes(self.arena)[j] == s0[j],
            decreases n - k,
        {
            let id = k + 1;
            if arena_is_leaf(&self.arena, id) {
                let data = arena_get(&self.arena, id);
                proof {
                    lemma_flag_wf(Geometry::Tetrahedron, arena_nodes(self.arena), k as int, false);
                }
                arena_set(&mut self.arena, id, NodeData::new(false, data.number));
            }
            k += 1;
        }
        assert(arena_nodes(self.arena) =~= crate::hierarchic::leaves_unchecked(s0));
    }

    /// Number of nodes of the tree.
    pub fn tree_size(&self) -> (r: usize)
        ensures
            r == self.nodes().len(),
    {
        arena_len(&self.arena)
    }

    /// The data of node `id` (the root has id 1), if there is such a node.
    pub fn node_data(&self, id: usize) -> (r: Option<NodeData>)
        requires
            self.wf(),
        ensures
            r is Some <==> 1 <= id <= self.nodes().len(),
            r matches Some(d) ==> d.checked == self.nodes()[id - 1].2 && d.number
                == self.nodes()[id - 1].3,
    {
        if 1 <= id && id <= arena_len(&self.arena) {
            Some(arena_get(&self.arena, id))
        } else {
            None
        }
    }

    /// The id of the parent of node `id`, if there is such a node and it has a parent.
    pub fn node_parent(&self, id: usize) -> (r: Option<usize>)
        requires
            self.wf(),
        ensures
            r == (if 1 <= id <= self.nodes().len() {
                self.nodes()[id - 1].0
            } else {
                None
            }),
    {
        if 1 <= id && id <= arena_len(&self.arena) {
            arena_parent(&self.arena, id)
        } else {
            None
        }
    }
}

impl<I: Duplicate, P: Copy> Duplicate for Hierarchic3DIntegrator<I, P> {
    fn dupe(&self) -> Self {
        Hierarchic3DIntegrator {
            base_integrator: self.base_integrator.dupe(),
            consolidated: self.consolidated,
            precision: self.precision,
        }
    }
}

impl<I, P> Hierarchic3DIntegrator<I, P> {
    pub fn new(base_integrator: I, consolidated: bool, precision: P) -> (r: Self)
        ensures
            r.base_integrator == base_integrator,
            r.consolidated == consolidated,
            r.precision == precision,
    {
        Hierarchic3DIntegrator { base_integrator, consolidated, precision }
    }

    /// Integrates `func` over the sub-tetrahedron that `transformation` designates, refining
    /// and reusing the cache tree of `cached_data`; returns the leaves' integrals summed in
    /// depth-first order. Leaves at depth `MAX_DEPTH` are never refined and stay
    /// unchecked, and a tree of more than `MAX_NODES` nodes is no longer refined.
    pub fn integrate_over_domain<F, R: ResultType<P>>(
        &self,
        transformation: &Transform,
        func: &F,
        cached_data: &mut Hierarchic3DIntegratorData,
    ) -> (r: R)
        where
            I: SimplexIntegrator<F, R>,
        requires
            old(cached_data).wf(),
            transform_ok(Geometry::Tetrahedron, transformation),
        ensures
            final(cached_data).wf(),
            final(cached_data).is_cached(),
            tree_wf(Geometry::Tetrahedron, final(cached_data).nodes()),
            integration_outcome(
                self.consolidated,
                start_tree(old(cached_data).is_cached(), old(cached_data).nodes()),
                final(cached_data).nodes(),
            ),
            r == tree_value(
                Geometry::Tetrahedron,
                self.base_integrator,
                *func,
                transformation@,
                final(cached_data).nodes(),
            ),
            decided_since(
                Geometry::Tetrahedron,
                self.base_integrator,
                *func,
                transformation@,
                self.precision,
                start_tree(old(cached_data).is_cached(), old(cached_data).nodes()),
                final(cached_data).nodes(),
            ),
    {
        integrate_tree(
            Geometry::Tetrahedron,
            &self.base_integrator,
            self.consolidated,
            &self.precision,
            transformation,
            func,
            &mut cached_data.cached,
            &mut cached_data.arena,
        )
    }

    /// Integrates `func` over the whole tetrahedron.
    pub fn integrate_simplex<F, R: ResultType<P>>(
        &self,
        func: &F,
        cached_data: &mut Hierarchic3DIntegratorData,
    ) -> (r: R)
        where
            I: SimplexIntegrator<F, R>,
        requires
            old(cached_data).wf(),
        ensures
            final(cached_data).wf(),
            final(cached_data).is_cached(),
            tree_wf(Geometry::Tetrahedron, final(cached_data).nodes()),
            integration_outcome(
                self.consolidated,
                start_tree(old(cached_data).is_cached(), old(cached_data).nodes()),
                final(cached_data).nodes(),
            ),
            decided_since(
                Geometry::Tetrahedron,
                self.base_integrator,
                *func,
                mat_identity(4),
                self.precision,
                start_tree(old(cached_data).is_cached(), old(cached_data).nodes()),
                final(cached_data).nodes(),
            ),
            r == tree_value(
                Geometry::Tetrahedron,
                self.base_integrator,
                *func,
                mat_identity(4),
                final(cached_data).nodes(),
            ),
    {
        let identity = Transform::identity(4);
        self.integrate_over_domain(&identity, func, cached_data)
    }
}

} // verus!
