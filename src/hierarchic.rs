//! The adaptive hierarchical integrator shared by both geometries: transformations of
//! cache-tree nodes, the refinement pass and the fixed-point loop around it.
use crate::cache_tree::{
    ancestor, appended, arena_append_value, arena_children, arena_get, arena_is_leaf, arena_len, arena_nodes,
    arena_parent, arena_set, arena_untouched, depth, is_checked, is_leaf, label, lemma_ancestors,
    lemma_append_wf, lemma_flag_wf, new_root_arena, parent_index, root_model,
    tree_wf, NodeData, NodeModel, MAX_DEPTH,
};
use crate::refinement::{
    child_labels, is_child_label, label_coords, lemma_subdivision_matrix,
    is_tetrahedron_domain_number, octahedron_transformation, simplex_coords, subdivision_matrix,
    subdivision_transformation, Geometry, MAX_LABEL, ROOT_LABEL, is_tetrahedron_label,
    octahedron_matrix,
};
use crate::transform::{mat_mul, Mat, Transform, MAX_DENOMINATOR};
use vstd::arithmetic::mul::lemma_mul_inequality;
use vstd::arithmetic::power2::{lemma2_to64, lemma_pow2_adds, lemma_pow2_strictly_increases, pow2};
use indextree::Arena;
use vstd::prelude::*;

verus! {

/// Largest denominator of a transformation handed to the integrator (`2^21`), so that
/// the deepest sub-region still has an exact transformation.
pub const MAX_TRANSFORM_DENOMINATOR: u64 = 2097152;

/// The denominator of a transformation, refined `n` levels deep, stays representable.
pub proof fn lemma_denominator_bound(d: nat, n: nat)
    requires
        1 <= d <= MAX_TRANSFORM_DENOMINATOR,
        n <= MAX_DEPTH + 1,
    ensures
        1 <= d * pow2(n) <= MAX_DENOMINATOR,
{
    lemma2_to64();
    vstd::arithmetic::power2::lemma2_to64_rest();
    if n < 41 {
        lemma_pow2_strictly_increases(n, 41);
    }
    lemma_pow2_adds(21, 41);
    let p = pow2(n);
    assert(1 <= p <= pow2(41));
    assert(pow2(21) * pow2(41) == MAX_DENOMINATOR);
    assert(d * p <= pow2(21) * pow2(41)) by (nonlinear_arith)
        requires
            1 <= d <= pow2(21),
            1 <= p <= pow2(41),
    ;
    assert(1 <= d * p) by (nonlinear_arith)
        requires
            1 <= d,
            1 <= p,
    ;
}

/// A base quadrature rule bound to an integrand: an approximation of the integral over
/// the sub-region that `transformation` designates. The rule depends on the region and
/// the integrand alone: `spec_integral` names its value.
pub trait SimplexIntegrator<F, R> {
    spec fn spec_integral(&self, t: Mat, func: F) -> R;

    fn integrate_over_domain(&self, transformation: &Transform, func: &F) -> (r: R)
        ensures
            r == self.spec_integral(transformation@, *func),
    ;
}

/// Rules that hand out independent copies of themselves, so that an integrator built on a
/// rule can be copied with it.
pub trait Duplicate: Sized {
    fn dupe(&self) -> (r: Self)
        ensures
            r == *self,
    ;
}

/// Values that accumulate: integrals over parts add up to the integral over the whole.
pub trait Accumulate: Sized {
    spec fn spec_add(a: Self, b: Self) -> Self;

    spec fn spec_zero() -> Self;

    /// `self += other`
    fn add_assign(&mut self, other: &Self)
        ensures
            *final(self) == Self::spec_add(*old(self), *other),
    ;

    /// The additive identity.
    fn additive_neutral_element() -> (r: Self)
        ensures
            r == Self::spec_zero(),
    ;
}

/// The values an integrand produces: they accumulate, and two of them can be compared
/// against a precision.
pub trait ResultType<P>: Accumulate {
    spec fn spec_exceeds(a: Self, b: Self, precision: P) -> bool;

    /// Whether `distance(self, other) > precision`.
    fn exceeds(&self, other: &Self, precision: &P) -> (r: bool)
        ensures
            r == Self::spec_exceeds(*self, *other, *precision),
    ;
}

/// A chain of labels from a node (first) up to the root (last), each the label of a
/// child of the next, no longer than the tree may be deep.
pub open spec fn valid_path(g: Geometry, path: Seq<u8>) -> bool {
    &&& 1 <= path.len() <= MAX_DEPTH + 1
    &&& path.last() == ROOT_LABEL
    &&& forall|j: int| 0 <= j < path.len() - 1 ==> is_child_label(g, path[j + 1], #[trigger] path[j])
}

/// `t` followed by the tables of the `n` labels nearest the root (the root itself excluded).
pub open spec fn chain_transform(g: Geometry, t: Mat, path: Seq<u8>, n: nat) -> Mat
    decreases n,
{
    if n == 0 {
        t
    } else {
        mat_mul(
            chain_transform(g, t, path, (n - 1) as nat),
            subdivision_matrix(g, path[path.len() - 1 - n]),
        )
    }
}

/// The transformation of node `k` of a tree: the caller's transformation `t` composed
/// with the table of every label on the way from the root down to `k`.
pub open spec fn node_transform(g: Geometry, t: Mat, s: Seq<NodeModel>, k: int) -> Mat
    decreases k,
{
    let p = parent_index(s, k);
    if 0 <= p < k {
        mat_mul(node_transform(g, t, s, p), subdivision_matrix(g, label(s, k)))
    } else {
        t
    }
}

/// A transformation the integrator accepts for geometry `g`.
pub open spec fn transform_ok(g: Geometry, t: &Transform) -> bool {
    &&& t.wf()
    &&& t.rows == simplex_coords(g)
    &&& t.cols == simplex_coords(g)
    &&& t.denominator <= MAX_TRANSFORM_DENOMINATOR
}

/// The labels of the children of a node labelled `parent`, in the order they are created.
pub fn child_label_vec(g: Geometry, parent: u8) -> (r: Vec<u8>)
    requires
        parent <= MAX_LABEL,
    ensures
        r@ == child_labels(g, parent),
{
    let r = match g {
        Geometry::Triangle => vec![1u8, 2, 3, 4],
        Geometry::Tetrahedron => if is_tetrahedron_domain_number(parent) {
            vec![1u8, 2, 3, 4, 13]
        } else {
            vec![5u8, 6, 7, 8, 9, 10, 11, 12, 14, 15, 16, 17, 18, 19]
        },
    };
    assert(r@ =~= child_labels(g, parent));
    r
}

/// The transformation of the node whose ancestors (itself first, the root last) carry
/// the labels `parent_vector`.
pub fn get_transformation(g: Geometry, transformation: &Transform, parent_vector: &Vec<u8>) -> (r: Transform)
    requires
        transform_ok(g, transformation),
        valid_path(g, parent_vector@),
    ensures
        r.wf(),
        r@ == chain_transform(g, transformation@, parent_vector@, (parent_vector@.len() - 1) as nat),
        r.rows == transformation.rows,
        r.cols == label_coords(g, parent_vector@[0]),
        r.denominator == transformation.denominator * pow2((parent_vector@.len() - 1) as nat),
        transformation@.column_stochastic() ==> r@.column_stochastic(),
{
    let ghost path = parent_vector@;
    let len = parent_vector.len();
    let mut acc = transformation.duplicate();
    proof {
        lemma2_to64();
    }
    let mut n: usize = 0;
    while n + 1 < len
        invariant
            transform_ok(g, transformation),
            valid_path(g, path),
            path == parent_vector@,
            len == path.len(),
            n + 1 <= len,
            acc.wf(),
            acc@ == chain_transform(g, transformation@, path, n as nat),
            acc.rows == transformation.rows,
            acc.cols == label_coords(g, path[len - 1 - n]),
            acc.denominator == transformation.denominator * pow2(n as nat),
            transformation@.column_stochastic() ==> acc@.column_stochastic(),
        decreases len - n,
    {
        let lab = parent_vector[len - 2 - n];
        proof {
            assert(is_child_label(g, path[len - 1 - n], path[len - 2 - n]));
            lemma_subdivision_matrix(g, path[len - 1 - n], lab);
            lemma_denominator_bound(transformation.denominator as nat, (n + 1) as nat);
            vstd::arithmetic::power2::lemma_pow2_unfold((n + 1) as nat);
            vstd::arithmetic::mul::lemma_mul_is_associative(
                transformation.denominator as int,
                pow2(n as nat) as int,
                2,
            );
        }
        let table = subdivision_transformation(g, Ghost(path[len - 1 - n]), lab);
        acc = acc.dot(&table);
        n += 1;
    }
    acc
}

/// The labels of node `id` and of all its ancestors, the root last, and the node's depth.
fn ancestor_labels(g: Geometry, a: &Arena<NodeData>, id: usize) -> (r: Vec<u8>)
    requires
        arena_untouched(*a),
        tree_wf(g, arena_nodes(*a)),
        1 <= id <= arena_nodes(*a).len(),
    ensures
        r@.len() == depth(arena_nodes(*a), id - 1) + 1,
        forall|j: int|
            0 <= j < r@.len() ==> #[trigger] r@[j] == label(
                arena_nodes(*a),
                ancestor(arena_nodes(*a), id - 1, j as nat),
            ),
{
    let ghost s = arena_nodes(*a);
    let ghost k = id - 1;
    let mut path: Vec<u8> = Vec::new();
    let mut cur: usize = id;
    let mut done = false;
    while !done
        invariant
            arena_untouched(*a),
            tree_wf(g, s),
            s == arena_nodes(*a),
            0 <= k < s.len(),
            !done ==> path@.len() <= depth(s, k) && cur - 1 == ancestor(s, k, path@.len() as nat)
                && 1 <= cur <= s.len(),
            done ==> path@.len() == depth(s, k) + 1,
            forall|j: int|
                0 <= j < path@.len() ==> #[trigger] path@[j] == label(s, ancestor(s, k, j as nat)),
        decreases depth(s, k) + 1 - path@.len(),
    {
        proof {
            lemma_ancestors(g, s, k, path@.len() as nat);
        }
        let data = arena_get(a, cur);
        path.push(data.number);
        match arena_parent(a, cur) {
            Some(p) => {
                proof {
                    let i = (path@.len() - 1) as nat;
                    if i == depth(s, k) {
                        assert(ancestor(s, k, i) == 0);
                    }
                    assert(i < depth(s, k));
                    lemma_ancestors(g, s, k, (i + 1) as nat);
                    assert(parent_index(s, cur - 1) == p - 1);
                }
                cur = p;
            },
            None => {
                proof {
                    let i = (path@.len() - 1) as nat;
                    if i < depth(s, k) {
                        assert(ancestor(s, k, i) >= 1);
                        assert(s[ancestor(s, k, i)].0 is Some);
                    }
                }
                done = true;
            },
        }
    }
    path
}

/// The chain of a node's ancestor labels composes to the node's transformation.
proof fn lemma_chain_is_node_transform(
    g: Geometry,
    t: Mat,
    s: Seq<NodeModel>,
    k: int,
    path: Seq<u8>,
    n: nat,
)
    requires
        tree_wf(g, s),
        0 <= k < s.len(),
        path.len() == depth(s, k) + 1,
        forall|j: int| 0 <= j < path.len() ==> #[trigger] path[j] == label(s, ancestor(s, k, j as nat)),
        n <= depth(s, k),
    ensures
        chain_transform(g, t, path, n) == node_transform(g, t, s, ancestor(s, k, (depth(s, k) - n) as nat)),
    decreases n,
{
    let d = depth(s, k);
    lemma_ancestors(g, s, k, (d - n) as nat);
    if n == 0 {
        let r = ancestor(s, k, d);
        assert(r == 0);
        assert(parent_index(s, 0) == -1);
    } else {
        lemma_chain_is_node_transform(g, t, s, k, path, (n - 1) as nat);
        let i = (d - n) as nat;
        let m = ancestor(s, k, i);
        assert(ancestor(s, k, (i + 1) as nat) == parent_index(s, m));
        assert(path[path.len() - 1 - n] == label(s, m));
    }
}

/// The transformation of node `id`, with the node's depth.
pub(crate) fn node_transformation(g: Geometry, a: &Arena<NodeData>, transformation: &Transform, id: usize) -> (r: (Transform, usize))
    requires
        arena_untouched(*a),
        tree_wf(g, arena_nodes(*a)),
        1 <= id <= arena_nodes(*a).len(),
        transform_ok(g, transformation),
    ensures
        r.0.wf(),
        r.0@ == node_transform(g, transformation@, arena_nodes(*a), id - 1),
        r.1 == depth(arena_nodes(*a), id - 1),
        r.0.rows == transformation.rows,
        r.0.cols == label_coords(g, label(arena_nodes(*a), id - 1)),
        r.0.denominator == transformation.denominator * pow2(r.1 as nat),
{
    let ghost s = arena_nodes(*a);
    let ghost k = id - 1;
    let path = ancestor_labels(g, a, id);
    proof {
        let d = depth(s, k);
        assert(d <= MAX_DEPTH);
        assert forall|j: int| 0 <= j < path@.len() - 1 implies is_child_label(g, path@[j + 1], #[trigger] path@[j]) by {
            lemma_ancestors(g, s, k, j as nat);
            let m = ancestor(s, k, j as nat);
            assert(m >= 1);
            assert(s[m].0 is Some);
        }
        lemma_ancestors(g, s, k, d);
        assert(path@.last() == path@[path@.len() - 1]);
        lemma_chain_is_node_transform(g, transformation@, s, k, path@, d);
        lemma_ancestors(g, s, k, 0);
    }
    let t = get_transformation(g, transformation, &path);
    (t, path.len() - 1)
}

/// Whether `label` denotes a simplex of geometry `g` rather than an octahedron.
pub open spec fn is_simplex_label(g: Geometry, label: u8) -> bool {
    match g {
        Geometry::Triangle => true,
        Geometry::Tetrahedron => is_tetrahedron_label(label),
    }
}

/// The base rule summed over the first `n` of the four tetrahedra of the octahedron `t`.
pub open spec fn octahedron_sum<F, R: Accumulate, I: SimplexIntegrator<F, R>>(
    base: I,
    func: F,
    t: Mat,
    n: nat,
) -> R
    decreases n,
{
    if n == 0 {
        R::spec_zero()
    } else {
        R::spec_add(
            octahedron_sum(base, func, t, (n - 1) as nat),
            base.spec_integral(mat_mul(t, octahedron_matrix((n - 1) as u8)), func),
        )
    }
}

/// The integral over the region `t` labelled `label`: one call of the base rule for a
/// simplex, the sum over its four tetrahedra for an octahedron.
pub open spec fn region_value<F, R: Accumulate, I: SimplexIntegrator<F, R>>(
    g: Geometry,
    base: I,
    func: F,
    t: Mat,
    label: u8,
) -> R {
    if is_simplex_label(g, label) {
        base.spec_integral(t, func)
    } else {
        octahedron_sum(base, func, t, 4)
    }
}

/// The sum of the integrals over the first `n` children `labels` of the region `t`.
pub open spec fn refined_value<F, R: Accumulate, I: SimplexIntegrator<F, R>>(
    g: Geometry,
    base: I,
    func: F,
    t: Mat,
    labels: Seq<u8>,
    n: nat,
) -> R
    decreases n,
{
    if n == 0 {
        R::spec_zero()
    } else {
        let l = labels[n - 1];
        R::spec_add(
            refined_value(g, base, func, t, labels, (n - 1) as nat),
            region_value(g, base, func, mat_mul(t, subdivision_matrix(g, l)), l),
        )
    }
}

/// The refined estimate of the region `t` labelled `number`: the sum over its children.
pub open spec fn children_value<F, R: Accumulate, I: SimplexIntegrator<F, R>>(
    g: Geometry,
    base: I,
    func: F,
    t: Mat,
    number: u8,
) -> R {
    refined_value(g, base, func, t, child_labels(g, number), child_labels(g, number).len())
}

/// The base rule's integral over the region that `t` designates: directly for a simplex,
/// as the sum over its four tetrahedra for an octahedron.
pub(crate) fn region_integral<F, R: Accumulate, I: SimplexIntegrator<F, R>>(
    g: Geometry,
    base: &I,
    func: &F,
    t: &Transform,
    label: u8,
) -> (r: R)
    requires
        t.wf(),
        t.rows == simplex_coords(g),
        t.cols == label_coords(g, label),
        label <= MAX_LABEL,
    ensures
        r == region_value(g, *base, *func, t@, label),
{
    let simplex = match g {
        Geometry::Triangle => true,
        Geometry::Tetrahedron => is_tetrahedron_domain_number(label),
    };
    if simplex {
        base.integrate_over_domain(t, func)
    } else {
        let mut sum = R::additive_neutral_element();
        let mut i: u8 = 0;
        while i < 4
            invariant
                t.wf(),
                t.cols == 6,
                i <= 4,
                sum == octahedron_sum(*base, *func, t@, i as nat),
            decreases 4 - i,
        {
            let piece = t.dot(&octahedron_transformation(i));
            sum.add_assign(&base.integrate_over_domain(&piece, func));
            i += 1;
        }
        sum
    }
}

/// Largest number of nodes at the start of a pass for which the pass may still refine:
/// one pass can at most multiply the number of nodes by fifteen.
pub const MAX_NODES: usize = 268435455;

/// Node `y` grew out of node `x`: same parent and label, the child list only extended,
/// the checked flag kept, and children added only to an unchecked leaf, which is then
/// checked.
pub open spec fn node_refines(x: NodeModel, y: NodeModel) -> bool {
    &&& y.0 == x.0
    &&& y.3 == x.3
    &&& prefix_of(x.1, y.1)
    &&& x.2 ==> y.2
    &&& x.2 ==> y.1 == x.1
    &&& x.1.len() > 0 ==> y.1 == x.1
    &&& y.1.len() > x.1.len() ==> y.2
}

/// `s` grew out of `s0`: the old nodes keep their parents and labels, their child lists
/// are only extended, a checked node stays checked, and only unchecked leaves gain
/// children.
pub open spec fn refines(s0: Seq<NodeModel>, s: Seq<NodeModel>) -> bool {
    &&& s0.len() <= s.len()
    &&& forall|k: int| 0 <= k < s0.len() ==> node_refines(s0[k], #[trigger] s[k])
}

pub open spec fn prefix_of(x: Seq<usize>, y: Seq<usize>) -> bool {
    &&& x.len() <= y.len()
    &&& forall|i: int| 0 <= i < x.len() ==> #[trigger] y[i] == x[i]
}

/// Every leaf above the deepest level has been checked: the refinement has converged.
pub open spec fn settled(s: Seq<NodeModel>) -> bool {
    forall|k: int|
        0 <= k < s.len() && is_leaf(s, k) && depth(s, k) < MAX_DEPTH ==> #[trigger] is_checked(s, k)
}

/// Every unchecked leaf above the deepest level is at least `level` deep.
pub open spec fn unchecked_below(s: Seq<NodeModel>, level: nat) -> bool {
    forall|k: int|
        0 <= k < s.len() && is_leaf(s, k) && !is_checked(s, k) && depth(s, k) < MAX_DEPTH
            ==> #[trigger] depth(s, k) >= level
}

/// A leaf that a pass which may refine examines.
pub open spec fn open_leaf(s: Seq<NodeModel>, k: int) -> bool {
    is_leaf(s, k) && !is_checked(s, k) && depth(s, k) < MAX_DEPTH
}

pub proof fn lemma_node_refines_trans(x: NodeModel, y: NodeModel, z: NodeModel)
    requires
        node_refines(x, y),
        node_refines(y, z),
    ensures
        node_refines(x, z),
{
    assert forall|i: int| 0 <= i < x.1.len() implies #[trigger] z.1[i] == x.1[i] by {
        assert(z.1[i] == y.1[i]);
    }
}

pub proof fn lemma_refines_trans(a: Seq<NodeModel>, b: Seq<NodeModel>, c: Seq<NodeModel>)
    requires
        refines(a, b),
        refines(b, c),
    ensures
        refines(a, c),
{
    assert forall|k: int| 0 <= k < a.len() implies node_refines(a[k], #[trigger] c[k]) by {
        assert(node_refines(a[k], b[k]));
        assert(node_refines(b[k], c[k]));
        lemma_node_refines_trans(a[k], b[k], c[k]);
    }
}

pub proof fn lemma_refines_refl(a: Seq<NodeModel>)
    ensures
        refines(a, a),
{
    assert forall|k: int| 0 <= k < a.len() implies node_refines(a[k], #[trigger] a[k]) by {
        assert(prefix_of(a[k].1, a[k].1));
    }
}

/// The ids given to `c` nodes appended to an arena of `n` nodes.
pub open spec fn new_ids(n: nat, c: nat) -> Seq<usize> {
    Seq::new(c, |i: int| (n + 1 + i) as usize)
}

/// Appends the children of node `id`, labelled `number`, in the order of `child_labels`.
fn append_children(g: Geometry, a: &mut Arena<NodeData>, id: usize, number: u8)
    requires
        arena_untouched(*old(a)),
        tree_wf(g, arena_nodes(*old(a))),
        1 <= id <= arena_nodes(*old(a)).len(),
        label(arena_nodes(*old(a)), id - 1) == number,
        !arena_nodes(*old(a))[id - 1].2,
        arena_nodes(*old(a))[id - 1].1.len() == 0,
        depth(arena_nodes(*old(a)), id - 1) < MAX_DEPTH,
        arena_nodes(*old(a)).len() + 16 < usize::MAX,
    ensures
        arena_untouched(*final(a)),
        tree_wf(g, arena_nodes(*final(a))),
        arena_nodes(*final(a)).len() == arena_nodes(*old(a)).len() + child_labels(g, number).len(),
        arena_nodes(*final(a))[id - 1].1.len() > 0,
        arena_nodes(*final(a))[id - 1].1 == new_ids(
            arena_nodes(*old(a)).len(),
            child_labels(g, number).len(),
        ),
        forall|m: int|
            0 <= m < child_labels(g, number).len() ==> #[trigger] arena_nodes(*final(a))[arena_nodes(
                *old(a),
            ).len() + m] == (
                Some(id),
                Seq::<usize>::empty(),
                false,
                child_labels(g, number)[m],
            ),
        arena_nodes(*final(a))[id - 1].0 == arena_nodes(*old(a))[id - 1].0,
        arena_nodes(*final(a))[id - 1].2 == arena_nodes(*old(a))[id - 1].2,
        arena_nodes(*final(a))[id - 1].3 == arena_nodes(*old(a))[id - 1].3,
        forall|j: int|
            0 <= j < arena_nodes(*old(a)).len() && j != id - 1 ==> #[trigger] arena_nodes(*final(a))[j]
                == arena_nodes(*old(a))[j],
        forall|j: int|
            0 <= j < arena_nodes(*old(a)).len() ==> #[trigger] depth(arena_nodes(*final(a)), j) == depth(
                arena_nodes(*old(a)),
                j,
            ),
        forall|m: int|
            arena_nodes(*old(a)).len() <= m < arena_nodes(*final(a)).len() ==> #[trigger] depth(
                arena_nodes(*final(a)),
                m,
            ) == depth(arena_nodes(*old(a)), id - 1) + 1,
{
    let ghost s0 = arena_nodes(*a);
    let ghost n = s0.len() as int;
    let ghost k = id - 1;
    proof {
        crate::cache_tree::lemma_label_bound(g, s0, k);
    }
    let labels = child_label_vec(g, number);
    let mut i: usize = 0;
    while i < labels.len()
        invariant
            labels@ == child_labels(g, number),
            labels@.len() <= 14,
            i <= labels@.len(),
            arena_untouched(*a),
            tree_wf(g, arena_nodes(*a)),
            arena_nodes(*a).len() == n + i,
            n == s0.len(),
            n + 16 < usize::MAX,
            0 <= k < n,
            id == k + 1,
            label(s0, k) == number,
            !s0[k].2,
            s0[k].1.len() == 0,
            depth(s0, k) < MAX_DEPTH,
            i > 0 ==> arena_nodes(*a)[k].1.len() > 0,
            arena_nodes(*a)[k].1 == new_ids(n as nat, i as nat),
            forall|m: int| 0 <= m < i ==> #[trigger] arena_nodes(*a)[n + m] == (
                Some(id),
                Seq::<usize>::empty(),
                false,
                labels@[m],
            ),
            arena_nodes(*a)[k].0 == s0[k].0,
            arena_nodes(*a)[k].3 == s0[k].3,
            arena_nodes(*a)[k].2 == s0[k].2,
            label(arena_nodes(*a), k) == number,
            forall|j: int| 0 <= j < n && j != k ==> #[trigger] arena_nodes(*a)[j] == s0[j],
            forall|j: int| 0 <= j < n ==> #[trigger] depth(arena_nodes(*a), j) == depth(s0, j),
            forall|m: int|
                n <= m < arena_nodes(*a).len() ==> #[trigger] depth(arena_nodes(*a), m) == depth(s0, k) + 1,
        decreases labels@.len() - i,
    {
        let ghost s = arena_nodes(*a);
        let l = labels[i];
        proof {
            assert(forall|j: int| 0 <= j < n && j != k ==> #[trigger] s[j] == s0[j]);
            assert(child_labels(g, number).contains(l)) by {
                assert(child_labels(g, number)[i as int] == l);
            }
            assert(depth(s, k) == depth(s0, k));
            lemma_append_wf(g, s, k, l);
        }
        let _child = arena_append_value(a, id, NodeData::new(false, l));
        proof {
            let t = arena_nodes(*a);
            assert(t == appended(s, k, l));
            assert(t[k].1 =~= new_ids(n as nat, (i + 1) as nat));
            assert forall|m: int| 0 <= m < i + 1 implies #[trigger] t[n + m] == (
                Some(id),
                Seq::<usize>::empty(),
                false,
                labels@[m],
            ) by {
                if m < i {
                    assert(t[n + m] == s[n + m]);
                }
            }
            assert forall|m: int| n <= m < t.len() implies #[trigger] depth(t, m) == depth(s0, k) + 1 by {
                if m < s.len() {
                    assert(depth(t, m) == depth(s, m));
                }
            }
        }
        i += 1;
    }
}

/// `acc` plus the value of node `k` if `k` is a leaf; `acc` itself for an inner node.
pub open spec fn add_leaf<R: Accumulate>(s: Seq<NodeModel>, vals: Seq<R>, k: int, acc: R) -> R {
    if is_leaf(s, k) {
        R::spec_add(acc, vals[k])
    } else {
        acc
    }
}

/// Continues a depth-first sum at child `c` of node `k`: each child `ch` within `vals`
/// adds its value if it is a leaf, then its subtree, before the next child is visited.
pub open spec fn subtree_fold<R: Accumulate>(s: Seq<NodeModel>, vals: Seq<R>, k: int, c: int, acc: R) -> R
    decreases s.len() - k, s[k].1.len() - c,
{
    if 0 <= k < s.len() && 0 <= c < s[k].1.len() {
        let ch = s[k].1[c] as int;
        let acc2 = if k + 1 < ch <= vals.len() && ch <= s.len() {
            subtree_fold(s, vals, ch - 1, 0, add_leaf(s, vals, ch - 1, acc))
        } else {
            acc
        };
        subtree_fold(s, vals, k, c + 1, acc2)
    } else {
        acc
    }
}

/// The value recorded for node `k`: the integral over its region for a leaf, zero for
/// an inner node (whose value is never added).
pub open spec fn node_value<F, R: Accumulate, I: SimplexIntegrator<F, R>>(
    g: Geometry,
    base: I,
    func: F,
    t: Mat,
    s: Seq<NodeModel>,
    k: int,
) -> R {
    if is_leaf(s, k) {
        region_value(g, base, func, node_transform(g, t, s, k), label(s, k))
    } else {
        R::spec_zero()
    }
}

/// The integral over the tree: starting from zero, the integrals over the leaves added
/// in depth-first order (a node's subtree before its next sibling, children in order).
pub open spec fn tree_value<F, R: Accumulate, I: SimplexIntegrator<F, R>>(
    g: Geometry,
    base: I,
    func: F,
    t: Mat,
    s: Seq<NodeModel>,
) -> R {
    let vals = Seq::new(s.len(), |j: int| node_value(g, base, func, t, s, j));
    subtree_fold(s, vals, 0, 0, add_leaf(s, vals, 0, R::spec_zero()))
}

/// Adds `values[k - 1]` of every leaf `k <= limit` of the subtree of node `id` to
/// `total`, depth first, children in order.
fn sum_depth_first<R: Accumulate>(
    g: Geometry,
    a: &Arena<NodeData>,
    id: usize,
    limit: usize,
    values: &Vec<R>,
    total: &mut R,
)
    requires
        arena_untouched(*a),
        tree_wf(g, arena_nodes(*a)),
        1 <= id <= limit,
        limit == values@.len(),
        limit <= arena_nodes(*a).len(),
    ensures
        *final(total) == subtree_fold(
            arena_nodes(*a),
            values@,
            id - 1,
            0,
            add_leaf(arena_nodes(*a), values@, id - 1, *old(total)),
        ),
    decreases arena_nodes(*a).len() - id,
{
    let ghost s = arena_nodes(*a);
    let ghost k = id - 1;
    let children = arena_children(a, id);
    if children.len() == 0 {
        total.add_assign(&values[id - 1]);
    }
    let ghost start = *total;
    let mut c: usize = 0;
    while c < children.len()
        invariant
            arena_untouched(*a),
            tree_wf(g, arena_nodes(*a)),
            s == arena_nodes(*a),
            k == id - 1,
            1 <= id <= limit,
            limit == values@.len(),
            limit <= arena_nodes(*a).len(),
            children@ == arena_nodes(*a)[id - 1].1,
            c <= children@.len(),
            subtree_fold(s, values@, k, 0, start) == subtree_fold(s, values@, k, c as int, *total),
        decreases children@.len() - c,
    {
        let child = children[c];
        proof {
            assert(id < child <= arena_nodes(*a).len());
        }
        let ghost before = *total;
        if child <= limit {
            sum_depth_first(g, a, child, limit, values, total);
        }
        proof {
            assert(subtree_fold(s, values@, k, c as int, before) == subtree_fold(
                s,
                values@,
                k,
                c + 1,
                *total,
            ));
        }
        c += 1;
    }
}

/// Checking the leaf `k`, after possibly appending its children, refines the tree.
proof fn lemma_checked_leaf_refines(s: Seq<NodeModel>, s1: Seq<NodeModel>, s2: Seq<NodeModel>, k: int)
    requires
        0 <= k < s.len() <= s1.len(),
        s[k].1.len() == 0,
        !s[k].2,
        s1[k].0 == s[k].0,
        s1[k].3 == s[k].3,
        forall|j: int| 0 <= j < s.len() && j != k ==> #[trigger] s1[j] == s[j],
        s2 == s1.update(k, (s1[k].0, s1[k].1, true, s1[k].3)),
    ensures
        refines(s, s2),
{
    assert forall|j: int| 0 <= j < s.len() implies node_refines(s[j], #[trigger] s2[j]) by {
        if j != k {
            assert(s1[j] == s[j]);
        }
        assert(prefix_of(s[j].1, s2[j].1));
    }
}

/// After the refinement test on the open leaf `k` the decision is recorded on `k`, and
/// every earlier decision survives.
proof fn lemma_examined_leaf<F, R: ResultType<P>, P, I: SimplexIntegrator<F, R>>(
    g: Geometry,
    base: I,
    func: F,
    t0: Mat,
    precision: P,
    start: Seq<NodeModel>,
    s: Seq<NodeModel>,
    s2: Seq<NodeModel>,
    k: int,
    number: u8,
    grew: bool,
)
    requires
        tree_wf(g, s),
        refines(start, s),
        refines(s, s2),
        decided_since(g, base, func, t0, precision, start, s),
        0 <= k < s.len(),
        s.len() + 16 < usize::MAX,
        is_leaf(s, k),
        label(s, k) == number,
        is_checked(s2, k),
        forall|j: int| 0 <= j < s.len() && j != k ==> #[trigger] s2[j] == s[j],
        grew == R::spec_exceeds(
            region_value(g, base, func, node_transform(g, t0, s, k), number),
            children_value(g, base, func, node_transform(g, t0, s, k), number),
            precision,
        ),
        grew ==> {
            &&& s2.len() == s.len() + child_labels(g, number).len()
            &&& s2[k] == (s[k].0, new_ids(s.len(), child_labels(g, number).len()), true, s[k].3)
            &&& forall|m: int|
                0 <= m < child_labels(g, number).len() ==> #[trigger] s2[s.len() + m] == (
                    Some((k + 1) as usize),
                    Seq::<usize>::empty(),
                    false,
                    child_labels(g, number)[m],
                )
        },
        !grew ==> s2 == s.update(k, (s[k].0, s[k].1, true, s[k].3)),
    ensures
        decided_since(g, base, func, t0, precision, start, s2),
        forall|m: int| s.len() <= m < s2.len() ==> (#[trigger] s2[m]).1.len() == 0,
{
    lemma_node_transform_stable(g, t0, s, s2, k);
    let labels = child_labels(g, number);
    if grew {
        assert forall|i: int| 0 <= i < labels.len() implies label(s2, #[trigger] s2[k].1[i] - 1) == labels[i] by {
            assert(s2[k].1[i] - 1 == s.len() + i);
            assert(s2[s.len() + i] == (Some((k + 1) as usize), Seq::<usize>::empty(), false, labels[i]));
        }
        assert forall|j: int| s.len() <= j < s2.len() && j != k implies !(#[trigger] s2[j].2) by {
            assert(s2[s.len() + (j - s.len())] == (Some((k + 1) as usize), Seq::<usize>::empty(), false, labels[j - s.len()]));
        }
        assert forall|m: int| s.len() <= m < s2.len() implies (#[trigger] s2[m]).1.len() == 0 by {
            assert(s2[s.len() + (m - s.len())] == (Some((k + 1) as usize), Seq::<usize>::empty(), false, labels[m - s.len()]));
        }
    }
    assert(decided(g, base, func, t0, precision, s2, k));
    lemma_decided_since_stable(g, base, func, t0, precision, start, s, s2, k);
}

/// The refined estimate of the region `t` labelled `number`: the sum of the base rule
/// over its children, in the order of `child_labels`.
fn refined_integral<F, R: Accumulate, I: SimplexIntegrator<F, R>>(
    g: Geometry,
    base: &I,
    func: &F,
    t: &Transform,
    number: u8,
) -> (r: R)
    requires
        number <= MAX_LABEL,
        t.wf(),
        t.rows == simplex_coords(g),
        t.cols == label_coords(g, number),
        t.denominator * 2 <= MAX_DENOMINATOR,
    ensures
        r == children_value(g, *base, *func, t@, number),
{
    let labels = child_label_vec(g, number);
    let mut refined = R::additive_neutral_element();
    let mut c: usize = 0;
    while c < labels.len()
        invariant
            labels@ == child_labels(g, number),
            number <= MAX_LABEL,
            t.wf(),
            t.rows == simplex_coords(g),
            t.cols == label_coords(g, number),
            t.denominator * 2 <= MAX_DENOMINATOR,
            c <= labels@.len(),
            refined == refined_value(g, *base, *func, t@, labels@, c as nat),
        decreases labels@.len() - c,
    {
        let l = labels[c];
        proof {
            assert(child_labels(g, number)[c as int] == l);
            assert(is_child_label(g, number, l));
            crate::refinement::lemma_child_label_bound(g, number, l);
        }
        let table = subdivision_transformation(g, Ghost(number), l);
        let ct = t.dot(&table);
        let v = region_integral(g, base, func, &ct, l);
        refined.add_assign(&v);
        c += 1;
    }
    refined
}

/// Records the refinement test on the open leaf `id`: appends its children when `grow`
/// holds, and marks it checked.
fn record_decision(g: Geometry, a: &mut Arena<NodeData>, id: usize, number: u8, grow: bool)
    requires
        arena_untouched(*old(a)),
        tree_wf(g, arena_nodes(*old(a))),
        1 <= id <= arena_nodes(*old(a)).len(),
        open_leaf(arena_nodes(*old(a)), id - 1),
        label(arena_nodes(*old(a)), id - 1) == number,
        arena_nodes(*old(a)).len() + 16 < usize::MAX,
    ensures
        ({
            let s = arena_nodes(*old(a));
            let s2 = arena_nodes(*final(a));
            let k = id - 1;
            let labels = child_labels(g, number);
            &&& grow ==> {
                &&& s2.len() == s.len() + labels.len()
                &&& s2[k] == (s[k].0, new_ids(s.len(), labels.len()), true, s[k].3)
                &&& forall|m: int|
                    0 <= m < labels.len() ==> #[trigger] s2[s.len() + m] == (
                        Some(id),
                        Seq::<usize>::empty(),
                        false,
                        labels[m],
                    )
            }
            &&& !grow ==> s2 == s.update(k, (s[k].0, s[k].1, true, s[k].3))
            &&& arena_untouched(*final(a))
            &&& tree_wf(g, s2)
            &&& refines(s, s2)
            &&& is_checked(s2, k)
            &&& s2.len() <= s.len() + 14
            &&& forall|j: int| 0 <= j < s.len() && j != k ==> #[trigger] s2[j] == s[j]
            &&& forall|j: int| 0 <= j < s.len() ==> #[trigger] depth(s2, j) == depth(s, j)
            &&& forall|m: int| s.len() <= m < s2.len() ==> #[trigger] depth(s2, m) == depth(s, k) + 1
            &&& !grow ==> s2.len() == s.len() && s2[k].1 == s[k].1
        }),
{
    let ghost s = arena_nodes(*a);
    let ghost k = id - 1;
    if grow {
        append_children(g, a, id, number);
    }
    let ghost s1 = arena_nodes(*a);
    proof {
        lemma_flag_wf(g, s1, k, true);
    }
    arena_set(a, id, NodeData::new(true, number));
    proof {
        let s2 = arena_nodes(*a);
        assert(s2 == s1.update(k, (s1[k].0, s1[k].1, true, s1[k].3)));
        lemma_checked_leaf_refines(s, s1, s2, k);
        assert(is_checked(s2, k));
        assert(forall|j: int| 0 <= j < s.len() && j != k ==> #[trigger] s2[j] == s[j]);
        if grow {
            assert forall|m: int| 0 <= m < child_labels(g, number).len() implies #[trigger] s2[s.len() + m] == (
                Some(id),
                Seq::<usize>::empty(),
                false,
                child_labels(g, number)[m],
            ) by {
                assert(s2[s.len() + m] == s1[s.len() + m]);
            }
        } else {
            assert(s2 =~= s.update(k, (s[k].0, s[k].1, true, s[k].3)));
        }
    }
}

/// Checks the unchecked leaf `id` (labelled `number`, transformation `t`, integral
/// `current`): computes the sum over its children and, when it differs from `current` by
/// more than the precision, appends the children. Returns the leaf's contribution and
/// whether children were appended.
#[verifier::rlimit(100)]
fn refine_leaf<F, R: ResultType<P>, P, I: SimplexIntegrator<F, R>>(
    g: Geometry,
    base: &I,
    precision: &P,
    t: &Transform,
    func: &F,
    a: &mut Arena<NodeData>,
    id: usize,
    number: u8,
    current: R,
    t0: Ghost<Mat>,
    start: Ghost<Seq<NodeModel>>,
) -> (r: (R, bool))
    requires
        t@ == node_transform(g, t0@, arena_nodes(*old(a)), id - 1),
        current == region_value(g, *base, *func, t@, number),
        refines(start@, arena_nodes(*old(a))),
        decided_since(g, *base, *func, t0@, *precision, start@, arena_nodes(*old(a))),
        arena_untouched(*old(a)),
        tree_wf(g, arena_nodes(*old(a))),
        1 <= id <= arena_nodes(*old(a)).len(),
        open_leaf(arena_nodes(*old(a)), id - 1),
        label(arena_nodes(*old(a)), id - 1) == number,
        arena_nodes(*old(a)).len() + 16 < usize::MAX,
        t.wf(),
        t.rows == simplex_coords(g),
        t.cols == label_coords(g, number),
        t.denominator * 2 <= MAX_DENOMINATOR,
    ensures
        ({
            let s = arena_nodes(*old(a));
            let s2 = arena_nodes(*final(a));
            let k = id - 1;
            let refined = children_value(g, *base, *func, t@, number);
            let labels = child_labels(g, number);
            &&& r.1 == R::spec_exceeds(current, refined, *precision)
            &&& r.0 == (if r.1 {
                refined
            } else {
                current
            })
            &&& r.1 ==> {
                &&& s2.len() == s.len() + labels.len()
                &&& s2[k] == (s[k].0, new_ids(s.len(), labels.len()), true, s[k].3)
                &&& forall|m: int|
                    0 <= m < labels.len() ==> #[trigger] s2[s.len() + m] == (
                        Some(id),
                        Seq::<usize>::empty(),
                        false,
                        labels[m],
                    )
            }
            &&& !r.1 ==> s2 == s.update(k, (s[k].0, s[k].1, true, s[k].3))
            &&& forall|m: int| s.len() <= m < s2.len() ==> (#[trigger] s2[m]).1.len() == 0
            &&& decided_since(g, *base, *func, t0@, *precision, start@, s2)
            &&& arena_untouched(*final(a))
            &&& tree_wf(g, s2)
            &&& refines(s, s2)
            &&& is_checked(s2, k)
            &&& s2.len() <= s.len() + 14
            &&& forall|j: int| 0 <= j < s.len() && j != k ==> #[trigger] s2[j] == s[j]
            &&& forall|j: int| 0 <= j < s.len() ==> #[trigger] depth(s2, j) == depth(s, j)
            &&& forall|m: int| s.len() <= m < s2.len() ==> #[trigger] depth(s2, m) == depth(s, k) + 1
            &&& !r.1 ==> s2.len() == s.len() && s2[k].1 == s[k].1
        }),
{
    let ghost s = arena_nodes(*a);
    let ghost k = id - 1;
    proof {
        crate::cache_tree::lemma_label_bound(g, s, k);
    }
    let refined = refined_integral(g, base, func, t, number);
    let grew = current.exceeds(&refined, precision);
    record_decision(g, a, id, number, grew);
    proof {
        let s2 = arena_nodes(*a);
        lemma_examined_leaf(g, *base, *func, t0@, *precision, start@, s, s2, k, number, grew);
    }
    let result = if grew {
        refined
    } else {
        current
    };
    (result, grew)
}

/// The refinement test on node `k` of `s` came out as the tree shows: `k` has children
/// exactly when its estimate and the sum over its children differ by more than the
/// precision, and then its children carry the labels of `child_labels`, in order.
pub open spec fn decided<F, R: ResultType<P>, P, I: SimplexIntegrator<F, R>>(
    g: Geometry,
    base: I,
    func: F,
    t: Mat,
    precision: P,
    s: Seq<NodeModel>,
    k: int,
) -> bool {
    let tk = node_transform(g, t, s, k);
    let lab = label(s, k);
    let labels = child_labels(g, lab);
    &&& (s[k].1.len() > 0) == R::spec_exceeds(
        region_value(g, base, func, tk, lab),
        children_value(g, base, func, tk, lab),
        precision,
    )
    &&& s[k].1.len() > 0 ==> s[k].1.len() == labels.len() && forall|i: int|
        0 <= i < labels.len() ==> label(s, #[trigger] s[k].1[i] - 1) == labels[i]
}

/// Every node that this integration checked (new since `start`, or unchecked there and
/// checked now) was refined exactly as the refinement test decided.
pub open spec fn decided_since<F, R: ResultType<P>, P, I: SimplexIntegrator<F, R>>(
    g: Geometry,
    base: I,
    func: F,
    t: Mat,
    precision: P,
    start: Seq<NodeModel>,
    s: Seq<NodeModel>,
) -> bool {
    forall|k: int|
        0 <= k < s.len() && (k >= start.len() || !start[k].2) && #[trigger] s[k].2 ==> decided(
            g,
            base,
            func,
            t,
            precision,
            s,
            k,
        )
}

/// A decision recorded on a checked node survives the growth of the tree.
pub proof fn lemma_decided_stable<F, R: ResultType<P>, P, I: SimplexIntegrator<F, R>>(
    g: Geometry,
    base: I,
    func: F,
    t: Mat,
    precision: P,
    s: Seq<NodeModel>,
    s2: Seq<NodeModel>,
    k: int,
)
    requires
        tree_wf(g, s),
        refines(s, s2),
        0 <= k < s.len(),
        s[k].2,
        decided(g, base, func, t, precision, s, k),
    ensures
        decided(g, base, func, t, precision, s2, k),
{
    assert(node_refines(s[k], s2[k]));
    lemma_node_transform_stable(g, t, s, s2, k);
    assert(s2[k].1 == s[k].1);
    assert forall|i: int| 0 <= i < s2[k].1.len() implies label(s2, #[trigger] s2[k].1[i] - 1) == label(
        s,
        s[k].1[i] - 1,
    ) by {
        let c = s[k].1[i] - 1;
        assert(k + 1 < s[k].1[i] <= s.len());
        assert(node_refines(s[c], s2[c]));
    }
}

/// Decisions recorded since `start` survive the growth of the tree.
pub proof fn lemma_decided_since_stable<F, R: ResultType<P>, P, I: SimplexIntegrator<F, R>>(
    g: Geometry,
    base: I,
    func: F,
    t: Mat,
    precision: P,
    start: Seq<NodeModel>,
    s: Seq<NodeModel>,
    s2: Seq<NodeModel>,
    fresh: int,
)
    requires
        tree_wf(g, s),
        refines(start, s),
        refines(s, s2),
        decided_since(g, base, func, t, precision, start, s),
        0 <= fresh <= s2.len(),
        forall|k: int| s.len() <= k < s2.len() && k != fresh ==> !(#[trigger] s2[k].2),
        forall|k: int| 0 <= k < s.len() && k != fresh && #[trigger] s2[k].2 ==> s[k].2,
        fresh < s2.len() && s2[fresh].2 ==> decided(g, base, func, t, precision, s2, fresh),
    ensures
        decided_since(g, base, func, t, precision, start, s2),
{
    assert forall|k: int|
        0 <= k < s2.len() && (k >= start.len() || !start[k].2) && #[trigger] s2[k].2 implies decided(
            g,
            base,
            func,
            t,
            precision,
            s2,
            k,
        ) by {
        if k != fresh {
            assert(k < s.len());
            assert(s[k].2);
            lemma_decided_stable(g, base, func, t, precision, s, s2, k);
        }
    }
}

/// One pass over the nodes present at its start. Every leaf contributes its integral;
/// an unchecked leaf above the deepest level is checked, and refined when its refined
/// estimate differs from its own by more than the precision. The contributions are
/// summed depth first. Returns the sum and whether the tree grew.
#[verifier::rlimit(100)]
fn refinement_pass<F, R: ResultType<P>, P, I: SimplexIntegrator<F, R>>(
    g: Geometry,
    base: &I,
    consolidated: bool,
    precision: &P,
    transformation: &Transform,
    func: &F,
    a: &mut Arena<NodeData>,
    level: Ghost<nat>,
    start: Ghost<Seq<NodeModel>>,
) -> (r: (R, bool))
    requires
        arena_untouched(*old(a)),
        tree_wf(g, arena_nodes(*old(a))),
        transform_ok(g, transformation),
        unchecked_below(arena_nodes(*old(a)), level@),
        refines(start@, arena_nodes(*old(a))),
        decided_since(g, *base, *func, transformation@, *precision, start@, arena_nodes(*old(a))),
    ensures
        ({
            let s0 = arena_nodes(*old(a));
            let s = arena_nodes(*final(a));
            let en = !consolidated && s0.len() <= MAX_NODES;
            &&& arena_untouched(*final(a))
            &&& tree_wf(g, s)
            &&& refines(s0, s)
            &&& !en ==> s == s0
            &&& settled(s0) ==> s == s0
            &&& en ==> unchecked_below(s, level@ + 1)
            &&& r.1 ==> level@ < MAX_DEPTH
            &&& !r.1 && en ==> settled(s)
            &&& !r.1 ==> s.len() == s0.len()
            &&& !en ==> !r.1
            &&& !r.1 ==> r.0 == tree_value(g, *base, *func, transformation@, s)
            &&& decided_since(g, *base, *func, transformation@, *precision, start@, s)
            &&& forall|m: int| s0.len() <= m < s.len() ==> (#[trigger] s[m]).1.len() == 0
        }),
{
    let ghost s0 = arena_nodes(*a);
    let n0 = arena_len(a);
    let enabled = !consolidated && n0 <= MAX_NODES;
    let mut values: Vec<R> = Vec::new();
    let mut changed = false;
    let mut k: usize = 0;
    proof {
        lemma_refines_refl(s0);
    }
    while k < n0
        invariant
            arena_untouched(*a),
            tree_wf(g, arena_nodes(*a)),
            transform_ok(g, transformation),
            unchecked_below(s0, level@),
            n0 == s0.len(),
            n0 <= usize::MAX,
            enabled == (!consolidated && n0 <= MAX_NODES),
            k <= n0,
            values@.len() == k,
            refines(s0, arena_nodes(*a)),
            refines(start@, s0),
            decided_since(g, *base, *func, transformation@, *precision, start@, arena_nodes(*a)),
            forall|m: int| n0 <= m < arena_nodes(*a).len() ==> (#[trigger] arena_nodes(*a)[m]).1.len() == 0,
            enabled ==> arena_nodes(*a).len() <= n0 + 14 * k,
            forall|j: int| k <= j < n0 ==> #[trigger] arena_nodes(*a)[j] == s0[j],
            forall|j: int|
                0 <= j < k && !(enabled && open_leaf(s0, j)) ==> #[trigger] arena_nodes(*a)[j] == s0[j],
            forall|j: int|
                0 <= j < k && enabled && is_leaf(s0, j) && depth(s0, j) < MAX_DEPTH
                    ==> #[trigger] is_checked(arena_nodes(*a), j),
            forall|j: int| 0 <= j < n0 ==> #[trigger] depth(arena_nodes(*a), j) == depth(s0, j),
            forall|m: int|
                n0 <= m < arena_nodes(*a).len() ==> #[trigger] depth(arena_nodes(*a), m) >= level@ + 1,
            changed ==> level@ < MAX_DEPTH && enabled,
            settled(s0) ==> !changed,
            !changed ==> arena_nodes(*a).len() == n0,
            !changed ==> forall|j: int|
                0 <= j < n0 ==> (#[trigger] arena_nodes(*a)[j]).1 == s0[j].1,
            !changed ==> forall|j: int|
                0 <= j < k ==> #[trigger] values@[j] == node_value(
                    g,
                    *base,
                    *func,
                    transformation@,
                    s0,
                    j,
                ),
        decreases n0 - k,
    {
        let ghost s = arena_nodes(*a);
        let id = k + 1;
        if arena_is_leaf(a, id) {
            let (t, d) = node_transformation(g, a, transformation, id);
            let data = arena_get(a, id);
            proof {
                crate::cache_tree::lemma_label_bound(g, s, k as int);
            }
            let mut current = region_integral(g, base, func, &t, data.number);
            proof {
                assert(s[k as int] == s0[k as int]);
                lemma_node_transform_stable(g, transformation@, s0, s, k as int);
                assert(current == node_value(g, *base, *func, transformation@, s0, k as int));
            }
            if enabled && !data.checked && d < MAX_DEPTH {
                proof {
                    lemma_denominator_bound(transformation.denominator as nat, (d + 1) as nat);
                    vstd::arithmetic::power2::lemma_pow2_unfold((d + 1) as nat);
                    vstd::arithmetic::mul::lemma_mul_is_associative(
                        transformation.denominator as int,
                        pow2(d as nat) as int,
                        2,
                    );
                    assert(open_leaf(s0, k as int));
                    assert(s[k as int] == s0[k as int]);
                    assert(n0 + 14 * k + 16 < usize::MAX) by {
                        assert(n0 <= MAX_NODES);
                    }
                }
                proof {
                    lemma_refines_trans(start@, s0, s);
                    lemma_node_transform_stable(g, transformation@, s0, s, k as int);
                }
                let (v, grew) = refine_leaf(
                    g,
                    base,
                    precision,
                    &t,
                    func,
                    a,
                    id,
                    data.number,
                    current,
                    Ghost(transformation@),
                    start,
                );
                proof {
                    lemma_refines_trans(s0, s, arena_nodes(*a));
                }
                current = v;
                if grew {
                    changed = true;
                }
            }
            values.push(current);
        } else {
            proof {
                assert(s[k as int] == s0[k as int]);
            }
            values.push(R::additive_neutral_element());
        }
        proof {
            let sn = arena_nodes(*a);
            assert forall|j: int| 0 <= j < k + 1 && enabled && is_leaf(s0, j) && depth(s0, j) < MAX_DEPTH implies #[trigger] is_checked(sn, j) by {
                if j < k {
                    assert(is_checked(s, j));
                    assert(sn[j] == s[j]);
                } else {
                    assert(s[j] == s0[j]);
                }
            }
        }
        k += 1;
    }
    proof {
        let s = arena_nodes(*a);
        if !enabled || settled(s0) {
            assert(s =~= s0);
        }
        if enabled {
            assert forall|j: int| 0 <= j < s.len() && is_leaf(s, j) && !is_checked(s, j) && depth(s, j) < MAX_DEPTH implies #[trigger] depth(s, j) >= level@ + 1 by {
                if j < n0 {
                    assert(prefix_of(s0[j].1, s[j].1));
                    assert(is_leaf(s0, j));
                }
            }
        }
        if !changed && enabled {
            assert forall|j: int| 0 <= j < s.len() && is_leaf(s, j) && depth(s, j) < MAX_DEPTH implies #[trigger] is_checked(s, j) by {
                assert(s[j].1 == s0[j].1);
            }
        }
    }
    let mut total = R::additive_neutral_element();
    sum_depth_first(g, a, 1, n0, &values, &mut total);
    proof {
        let s = arena_nodes(*a);
        if !changed {
            let vals = Seq::new(s.len(), |j: int| node_value(g, *base, *func, transformation@, s, j));
            assert forall|j: int| 0 <= j < n0 implies #[trigger] values@[j] == vals[j] by {
                assert(s[j].1 == s0[j].1);
                assert(node_refines(s0[j], s[j]));
                lemma_node_transform_stable(g, transformation@, s0, s, j);
            }
            assert(values@ =~= vals);
        }
    }
    (total, changed)
}

/// Trees that agree on the parents and labels of `0..=k` give node `k` the same
/// transformation.
pub proof fn lemma_node_transform_stable(g: Geometry, t: Mat, s: Seq<NodeModel>, s2: Seq<NodeModel>, k: int)
    requires
        0 <= k < s.len(),
        k < s2.len(),
        refines(s, s2) || forall|j: int| 0 <= j <= k ==> #[trigger] s[j] == s2[j],
    ensures
        node_transform(g, t, s, k) == node_transform(g, t, s2, k),
    decreases k,
{
    assert forall|j: int| 0 <= j <= k implies #[trigger] s2[j].0 == s[j].0 && s2[j].3 == s[j].3 by {
        if refines(s, s2) {
            assert(node_refines(s[j], s2[j]));
        }
    }
    let p = parent_index(s, k);
    assert(parent_index(s2, k) == p);
    if 0 <= p < k {
        lemma_node_transform_stable(g, t, s, s2, p);
    }
}

/// The tree with the checked flag of every leaf cleared.
pub open spec fn leaves_unchecked(s: Seq<NodeModel>) -> Seq<NodeModel> {
    Seq::new(
        s.len(),
        |k: int|
            if is_leaf(s, k) {
                (s[k].0, s[k].1, false, s[k].3)
            } else {
                s[k]
            },
    )
}

/// Every node created since `s0` that has children has been checked.
pub open spec fn new_inner_checked(s0: Seq<NodeModel>, s: Seq<NodeModel>) -> bool {
    forall|k: int| s0.len() <= k < s.len() && (#[trigger] s[k]).1.len() > 0 ==> s[k].2
}

/// A pass that only checks and refines old nodes and leaves its new nodes childless
/// keeps every inner node created since `start` checked.
proof fn lemma_new_inner_checked(start: Seq<NodeModel>, s0: Seq<NodeModel>, s: Seq<NodeModel>)
    requires
        new_inner_checked(start, s0),
        refines(s0, s),
        forall|m: int| s0.len() <= m < s.len() ==> (#[trigger] s[m]).1.len() == 0,
    ensures
        new_inner_checked(start, s),
{
    assert forall|k: int| start.len() <= k < s.len() && (#[trigger] s[k]).1.len() > 0 implies s[k].2 by {
        if k < s0.len() {
            assert(node_refines(s0[k], s[k]));
            if s0[k].1.len() > 0 {
                assert(s0[k].2);
            }
        }
    }
}

/// The tree an integration starts from: the cached tree, or a lone unchecked root when
/// the cache has not been initialised.
pub open spec fn start_tree(cached: bool, s: Seq<NodeModel>) -> Seq<NodeModel> {
    if cached {
        s
    } else {
        seq![root_model()]
    }
}

/// What one integration does to the cache tree `s0`, leaving `s`: the tree only grows,
/// and every node that has gained children, old or new, is checked; a consolidated
/// integrator, a tree that has already converged, or a tree beyond `MAX_NODES` is left
/// as it was; otherwise every leaf above the deepest level ends up checked, unless the
/// tree outgrew `MAX_NODES`. Leaves at depth `MAX_DEPTH` are never refined or checked.
pub open spec fn integration_outcome(consolidated: bool, s0: Seq<NodeModel>, s: Seq<NodeModel>) -> bool {
    &&& refines(s0, s)
    &&& new_inner_checked(s0, s)
    &&& consolidated ==> s == s0
    &&& settled(s0) ==> s == s0
    &&& s0.len() > MAX_NODES ==> s == s0
    &&& !consolidated ==> settled(s) || s.len() > MAX_NODES
}

/// The adaptive fixed-point loop: passes over the tree until one leaves its shape alone,
/// returning that pass's sum of leaf integrals.
pub(crate) fn integrate_tree<F, R: ResultType<P>, P, I: SimplexIntegrator<F, R>>(
    g: Geometry,
    base: &I,
    consolidated: bool,
    precision: &P,
    transformation: &Transform,
    func: &F,
    cached: &mut bool,
    a: &mut Arena<NodeData>,
) -> (r: R)
    requires
        transform_ok(g, transformation),
        *old(cached) ==> arena_untouched(*old(a)) && tree_wf(g, arena_nodes(*old(a))),
    ensures
        *final(cached),
        arena_untouched(*final(a)),
        tree_wf(g, arena_nodes(*final(a))),
        integration_outcome(
            consolidated,
            start_tree(*old(cached), arena_nodes(*old(a))),
            arena_nodes(*final(a)),
        ),
        r == tree_value(g, *base, *func, transformation@, arena_nodes(*final(a))),
        decided_since(
            g,
            *base,
            *func,
            transformation@,
            *precision,
            start_tree(*old(cached), arena_nodes(*old(a))),
            arena_nodes(*final(a)),
        ),
{
    if !*cached {
        *a = new_root_arena();
        *cached = true;
        proof {
            crate::cache_tree::lemma_root_wf(g);
        }
    }
    let ghost s0 = arena_nodes(*a);
    let ghost mut level: nat = 0;
    proof {
        lemma_refines_refl(s0);
        assert(s0 == start_tree(*old(cached), arena_nodes(*old(a))));
    }
    loop
        invariant
            *cached,
            s0 == start_tree(*old(cached), arena_nodes(*old(a))),
            transform_ok(g, transformation),
            arena_untouched(*a),
            tree_wf(g, arena_nodes(*a)),
            refines(s0, arena_nodes(*a)),
            unchecked_below(arena_nodes(*a), level),
            level <= MAX_DEPTH,
            consolidated ==> arena_nodes(*a) == s0,
            settled(s0) ==> arena_nodes(*a) == s0,
            decided_since(g, *base, *func, transformation@, *precision, s0, arena_nodes(*a)),
            new_inner_checked(s0, arena_nodes(*a)),
            s0.len() > MAX_NODES ==> arena_nodes(*a) == s0,
        decreases MAX_DEPTH - level,
    {
        let ghost s = arena_nodes(*a);
        let (total, changed) = refinement_pass(
            g,
            base,
            consolidated,
            precision,
            transformation,
            func,
            a,
            Ghost(level),
            Ghost(s0),
        );
        proof {
            lemma_refines_trans(s0, s, arena_nodes(*a));
            lemma_new_inner_checked(s0, s, arena_nodes(*a));
        }
        if !changed {
            proof {
                let sf = arena_nodes(*a);
                assert(refines(s0, sf));
                assert(consolidated ==> sf == s0);
                assert(settled(s0) ==> sf == s0);
                assert(!consolidated ==> settled(sf) || sf.len() > MAX_NODES);
            }
            return total;
        }
        proof {
            level = level + 1;
        }
    }
}

} // verus!
