//! The adaptive integrator over triangles.
use crate::cache_tree::{
    arena_get, arena_is_leaf, arena_len, arena_nodes, arena_parent, arena_set, arena_untouched,
    lemma_flag_wf, root_model, new_root_arena, tree_wf, NodeData, NodeModel,
};
use crate::hierarchic::{
    integrate_tree, integration_outcome, start_tree, tree_value, decided_since, Duplicate, transform_ok, ResultType, SimplexIntegrator,
};
use crate::refinement::Geometry;
use crate::transform::{mat_identity, Transform};
use indextree::Arena;
use vstd::prelude::*;

verus! {

/// Adaptive hierarchical integration over a triangle: `base_integrator` integrates the
/// leaves of the cache tree; a leaf is split in four when its refined estimate differs
/// from its own by more than `precision`; `consolidated` disables refinement.
pub struct Hierarchic2DIntegrator<I, P> {
    pub base_integrator: I,
    pub consolidated: bool,
    pub precision: P,
}

/// The cache tree of a triangle, kept across integrations.
pub struct Hierarchic2DIntegratorData {
    cached: bool,
    arena: Arena<NodeData>,
}

impl Hierarchic2DIntegratorData {
    /// The nodes of the tree, the root first.
    pub closed spec fn nodes(&self) -> Seq<NodeModel> {
        arena_nodes(self.arena)
    }

    /// Whether an integration has initialised the tree.
    pub closed spec fn is_cached(&self) -> bool {
        self.cached
    }

    pub closed spec fn wf(&self) -> bool {
        arena_untouched(self.arena) && tree_wf(Geometry::Triangle, arena_nodes(self.arena))
    }

    /// An uninitialised cache; the first integration builds its tree.
    pub fn new_cache() -> (r: Self)
        ensures
            r.wf(),
            !r.is_cached(),
            r.nodes() == seq![root_model()],
    {
        proof {
            crate::cache_tree::lemma_root_wf(Geometry::Triangle);
        }
        Hierarchic2DIntegratorData { cached: false, arena: new_root_arena() }
    }

    /// Clears the checked flag of every leaf, so that the next integration re-validates
    /// the leaves while keeping the shape of the tree.
    pub fn make_leafs_unchecked(&mut self)
        requires
            old(self).wf(),
        ensures
            final(self).wf(),
            final(self).is_cached() == old(self).is_cached(),
            final(self).nodes() == crate::hierarchic::leaves_unchecked(old(self).nodes()),
    {
        let ghost s0 = arena_nodes(self.arena);
        let n = arena_len(&self.arena);
        let mut k: usize = 0;
        while k < n
            invariant
                n == s0.len(),
                k <= n,
                self.cached == old(self).cached,
                arena_untouched(self.arena),
                tree_wf(Geometry::Triangle, arena_nodes(self.arena)),
                arena_nodes(self.arena).len() == n,
                forall|j: int|
                    0 <= j < k ==> #[trigger] arena_nodes(self.arena)[j]
                        == crate::hierarchic::leaves_unchecked(s0)[j],
                forall|j: int| k <= j < n ==> #[trigger] arena_nodes(self.arena)[j] == s0[j],
            decreases n - k,
        {
            let id = k + 1;
            if arena_is_leaf(&self.arena, id) {
                let data = arena_get(&self.arena, id);
                proof {
                    lemma_flag_wf(Geometry::Triangle, arena_nodes(self.arena), k as int, false);
                }
                arena_set(&mut self.arena, id, NodeData::new(false, data.number));
            }
            k += 1;
        }
        assert(arena_nodes(self.arena) =~= crate::hierarchic::leaves_unchecked(s0));
    }

    /// Number of nodes of the tree.
    pub fn tree_size(&self) -> (r: usize)
        ensures
            r == self.nodes().len(),
    {
        arena_len(&self.arena)
    }

    /// The data of node `id` (the root has id 1), if there is such a node.
    pub fn node_data(&self, id: usize) -> (r: Option<NodeData>)
        requires
            self.wf(),
        ensures
            r is Some <==> 1 <= id <= self.nodes().len(),
            r matches Some(d) ==> d.checked == self.nodes()[id - 1].2 && d.number
                == self.nodes()[id - 1].3,
    {
        if 1 <= id && id <= arena_len(&self.arena) {
            Some(arena_get(&self.arena, id))
        } else {
            None
        }
    }

    /// The id of the parent of node `id`, if there is such a node and it has a parent.
    pub fn node_parent(&self, id: usize) -> (r: Option<usize>)
        requires
            self.wf(),
        ensures
            r == (if 1 <= id <= self.nodes().len() {
                self.nodes()[id - 1].0
            } else {
                None
            }),
    {
        if 1 <= id && id <= arena_len(&self.arena) {
            arena_parent(&self.arena, id)
        } else {
            None
        }
    }
}

impl<I: Duplicate, P: Copy> Duplicate for Hierarchic2DIntegrator<I, P> {
    fn dupe(&self) -> Self {
        Hierarchic2DIntegrator {
            base_integrator: self.base_integrator.dupe(),
            consolidated: self.consolidated,
            precision: self.precision,
        }
    }
}

impl<I, P> Hierarchic2DIntegrator<I, P> {
    pub fn new(base_integrator: I, consolidated: bool, precision: P) -> (r: Self)
        ensures
            r.base_integrator == base_integrator,
            r.consolidated == consolidated,
            r.precision == precision,
    {
        Hierarchic2DIntegrator { base_integrator, consolidated, precision }
    }

    /// Integrates `func` over the sub-triangle that `transformation` designates, refining
    /// and reusing the cache tree of `cached_data`; returns the leaves' integrals summed in
    /// depth-first order. Leaves at depth `MAX_DEPTH` are never refined and stay
    /// unchecked, and a tree of more than `MAX_NODES` nodes is no longer refined.
    pub fn integrate_over_domain<F, R: ResultType<P>>(
        &self,
        transformation: &Transform,
        func: &F,
        cached_data: &mut Hierarchic2DIntegratorData,
    ) -> (r: R)
        where
            I: SimplexIntegrator<F, R>,
        requires
            old(cached_data).wf(),
            transform_ok(Geometry::Triangle, transformation),
        ensures
            final(cached_data).wf(),
            final(cached_data).is_cached(),
            tree_wf(Geometry::Triangle, final(cached_data).nodes()),
            integration_outcome(
                self.consolidated,
                start_tree(old(cached_data).is_cached(), old(cached_data).nodes()),
                final(cached_data).nodes(),
            ),
            r == tree_value(
                Geometry::Triangle,
                self.base_integrator,
                *func,
                transformation@,
                final(cached_data).nodes(),
            ),
            decided_since(
                Geometry::Triangle,
                self.base_integrator,
                *func,
                transformation@,
                self.precision,
                start_tree(old(cached_data).is_cached(), old(cached_data).nodes()),
                final(cached_data).nodes(),
            ),
    {
        integrate_tree(
            Geometry::Triangle,
            &self.base_integrator,
            self.consolidated,
            &self.precision,
            transformation,
            func,
            &mut cached_data.cached,
            &mut cached_data.arena,
        )
    }

    /// Integrates `func` over the whole triangle.
    pub fn integrate_simplex<F, R: ResultType<P>>(
        &self,
        func: &F,
        cached_data: &mut Hierarchic2DIntegratorData,
    ) -> (r: R)
        where
            I: SimplexIntegrator<F, R>,
        requires
            old(cached_data).wf(),
        ensures
            final(cached_data).wf(),
            final(cached_data).is_cached(),
            tree_wf(Geometry::Triangle, final(cached_data).nodes()),
            integration_outcome(
                self.consolidated,
                start_tree(old(cached_data).is_cached(), old(cached_data).nodes()),
                final(cached_data).nodes(),
            ),
            decided_since(
                Geometry::Triangle,
                self.base_integrator,
                *func,
                mat_identity(3),
                self.precision,
                start_tree(old(cached_data).is_cached(), old(cached_data).nodes()),
                final(cached_data).nodes(),
            ),
            r == tree_value(
                Geometry::Triangle,
                self.base_integrator,
                *func,
                mat_identity(3),
                final(cached_data).nodes(),
            ),
    {
        let identity = Transform::identity(3);
        self.integrate_over_domain(&identity, func, cached_data)
    }
}

} // verus!
