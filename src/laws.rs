//! Laws relating successive integrations over one cache tree.
use crate::cache_tree::{is_leaf, label, NodeModel};
use crate::hierarchic::{
    decided, decided_since, integration_outcome, node_refines, prefix_of, tree_value,
    Accumulate, ResultType, SimplexIntegrator,
};
use crate::refinement::{child_labels, Geometry};
use crate::transform::Mat;
use vstd::prelude::*;

verus! {

/// An integration by a consolidated integrator leaves the cache tree exactly as it
/// found it and returns the depth-first sum over that tree: repeated integrations
/// neither grow the tree nor change a flag, and return the same value.
pub proof fn lemma_consolidated_integration_keeps_tree<F, R: Accumulate, I: SimplexIntegrator<F, R>>(
    g: Geometry,
    base: I,
    func: F,
    t: Mat,
    s0: Seq<NodeModel>,
    s: Seq<NodeModel>,
    r: R,
)
    requires
        integration_outcome(true, s0, s),
        r == tree_value(g, base, func, t, s),
    ensures
        s == s0,
        r == tree_value(g, base, func, t, s0),
{
}

/// After an integration that may refine, a further integration of the same integrand
/// leaves the tree as it is and returns the same value, as long as no flag is cleared in
/// between: the first left every leaf checked, or outgrew the node ceiling, past which
/// nothing is refined.
pub proof fn lemma_repeated_integration_keeps_tree<F, R: Accumulate, I: SimplexIntegrator<F, R>>(
    g: Geometry,
    base: I,
    func: F,
    t: Mat,
    s0: Seq<NodeModel>,
    s1: Seq<NodeModel>,
    s2: Seq<NodeModel>,
    r1: R,
    r2: R,
    consolidated: bool,
)
    requires
        integration_outcome(false, s0, s1),
        r1 == tree_value(g, base, func, t, s1),
        integration_outcome(consolidated, s1, s2),
        r2 == tree_value(g, base, func, t, s2),
    ensures
        s2 == s1,
        r2 == r1,
{
}

/// Integrating over a tree `u` whose flags were cleared on some leaves reuses it: every
/// old node keeps its place, parent and label; a node still checked in `u` keeps exactly
/// its children; and a node that gains children was an unchecked leaf of `u` whose
/// refinement test failed, and gains exactly the children of its label, in order.
pub proof fn lemma_reintegration_reuses_tree<F, R: ResultType<P>, P, I: SimplexIntegrator<F, R>>(
    g: Geometry,
    base: I,
    func: F,
    t: Mat,
    precision: P,
    u: Seq<NodeModel>,
    s1: Seq<NodeModel>,
    consolidated: bool,
)
    requires
        integration_outcome(consolidated, u, s1),
        decided_since(g, base, func, t, precision, u, s1),
    ensures
        u.len() <= s1.len(),
        forall|k: int|
            0 <= k < u.len() ==> {
                &&& #[trigger] s1[k].0 == u[k].0
                &&& s1[k].3 == u[k].3
                &&& prefix_of(u[k].1, s1[k].1)
                &&& u[k].2 ==> s1[k].1 == u[k].1
                &&& s1[k].1.len() > u[k].1.len() ==> {
                    &&& is_leaf(u, k)
                    &&& !u[k].2
                    &&& decided(g, base, func, t, precision, s1, k)
                    &&& s1[k].1.len() == child_labels(g, label(s1, k)).len()
                }
            },
{
    assert forall|k: int| 0 <= k < u.len() implies {
        &&& #[trigger] s1[k].0 == u[k].0
        &&& s1[k].3 == u[k].3
        &&& prefix_of(u[k].1, s1[k].1)
        &&& u[k].2 ==> s1[k].1 == u[k].1
        &&& s1[k].1.len() > u[k].1.len() ==> {
            &&& is_leaf(u, k)
            &&& !u[k].2
            &&& decided(g, base, func, t, precision, s1, k)
            &&& s1[k].1.len() == child_labels(g, label(s1, k)).len()
        }
    } by {
        assert(node_refines(u[k], s1[k]));
    }
}

} // verus!
