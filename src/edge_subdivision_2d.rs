//! Uniform edge subdivision of a triangle: each edge cut into `order` pieces, the
//! triangle into `order^2` congruent sub-triangles, the base rule applied to each.
use crate::grid::{
    as_ints, cells_value, grid_ok, grid_simplex, grid_transformation, lemma_cells_value_prefix,
    offsets_as_ints, MAX_EDGE_ORDER,
};
use crate::hierarchic::{Accumulate, Duplicate, SimplexIntegrator};
use crate::transform::{col_sum, mat_identity, Mat, Transform, MAX_DENOMINATOR};
use vstd::prelude::*;

verus! {

/// The vertices of an upward grid triangle relative to its first vertex.
pub open spec fn up_offsets() -> Seq<Seq<int>> {
    seq![seq![0int, 0, 0], seq![-1int, 1, 0], seq![-1int, 0, 1]]
}

/// The vertices of a downward grid triangle relative to its first vertex.
pub open spec fn down_offsets() -> Seq<Seq<int>> {
    seq![seq![0int, 0, 0], seq![-1int, 0, 1], seq![0int, -1, 1]]
}

/// The grid triangles of the cell `(i, j)` of the subdivision of order `n`: the downward
/// triangle (from the second row on), then the upward one.
pub open spec fn grid_cell(n: nat, i: int, j: int) -> Seq<Mat> {
    let base = seq![j + 1, i, n - 1 - i - j];
    if i >= 1 {
        seq![grid_simplex(n, base, down_offsets()), grid_simplex(n, base, up_offsets())]
    } else {
        seq![grid_simplex(n, base, up_offsets())]
    }
}

/// The cells `(i, 0), ..., (i, m - 1)` of row `i`.
pub open spec fn grid_row(n: nat, i: int, m: nat) -> Seq<Mat>
    decreases m,
{
    if m == 0 {
        Seq::empty()
    } else {
        grid_row(n, i, (m - 1) as nat) + grid_cell(n, i, m - 1)
    }
}

/// Rows `0, ..., m - 1`, row `i` holding `n - i` cells.
pub open spec fn grid_rows(n: nat, m: nat) -> Seq<Mat>
    decreases m,
{
    if m == 0 {
        Seq::empty()
    } else {
        grid_rows(n, (m - 1) as nat) + grid_row(n, m - 1, (n - (m - 1)) as nat)
    }
}

/// All grid triangles of the subdivision of order `n`, in the order they are integrated.
pub open spec fn grid_triangles(n: nat) -> Seq<Mat> {
    grid_rows(n, n)
}

fn up_offsets_vec() -> (r: Vec<Vec<i64>>)
    ensures
        offsets_as_ints(r@) == up_offsets(),
{
    let r = vec![vec![0i64, 0, 0], vec![-1i64, 1, 0], vec![-1i64, 0, 1]];
    assert(offsets_as_ints(r@) =~~= up_offsets());
    r
}

fn down_offsets_vec() -> (r: Vec<Vec<i64>>)
    ensures
        offsets_as_ints(r@) == down_offsets(),
{
    let r = vec![vec![0i64, 0, 0], vec![-1i64, 0, 1], vec![0i64, -1, 1]];
    assert(offsets_as_ints(r@) =~~= down_offsets());
    r
}

/// Grid triangles whose first vertex is `base` lie on the grid of order `n`: the upward
/// one when `base[0] >= 1`, the downward one when also `base[1] >= 1`.
proof fn lemma_grid_triangles(n: nat, base: Seq<int>)
    requires
        base.len() == 3,
        base[0] >= 1,
        base[1] >= 0,
        base[2] >= 0,
        base[0] + base[1] + base[2] == n,
    ensures
        grid_ok(n, base, up_offsets()),
        base[1] >= 1 ==> grid_ok(n, base, down_offsets()),
{
    reveal_with_fuel(col_sum, 4);
    let up = grid_simplex(n, base, up_offsets());
    assert forall|c: int| 0 <= c < 3 implies #[trigger] col_sum(up.e, c, 3) == n by {
        assert(c == 0 || c == 1 || c == 2);
    }
    assert forall|r: int, c: int| 0 <= r < 3 && 0 <= c < 3 implies 0 <= base[r] + #[trigger] up_offsets()[c][r] <= n by {
        assert(c == 0 || c == 1 || c == 2);
        assert(r == 0 || r == 1 || r == 2);
    }
    assert forall|c: int| 0 <= c < 3 implies (#[trigger] up_offsets()[c]).len() == 3 by {
        assert(c == 0 || c == 1 || c == 2);
    }
    if base[1] >= 1 {
        let down = grid_simplex(n, base, down_offsets());
        assert forall|c: int| 0 <= c < 3 implies #[trigger] col_sum(down.e, c, 3) == n by {
            assert(c == 0 || c == 1 || c == 2);
        }
        assert forall|r: int, c: int| 0 <= r < 3 && 0 <= c < 3 implies 0 <= base[r] + #[trigger] down_offsets()[c][r] <= n by {
            assert(c == 0 || c == 1 || c == 2);
            assert(r == 0 || r == 1 || r == 2);
        }
        assert forall|c: int| 0 <= c < 3 implies (#[trigger] down_offsets()[c]).len() == 3 by {
            assert(c == 0 || c == 1 || c == 2);
        }
    }
}

/// Applies `base_integrator` to every grid triangle of the subdivision of order `order`.
pub struct EdgeSubdivisionIntegrator<I> {
    pub base_integrator: I,
    pub order: usize,
}

impl<I: Duplicate> Duplicate for EdgeSubdivisionIntegrator<I> {
    fn dupe(&self) -> Self {
        EdgeSubdivisionIntegrator { base_integrator: self.base_integrator.dupe(), order: self.order }
    }
}

impl<I> EdgeSubdivisionIntegrator<I> {
    pub fn new(base_integrator: I, order: usize) -> (r: Self)
        ensures
            r.base_integrator == base_integrator,
            r.order == order,
    {
        EdgeSubdivisionIntegrator { base_integrator, order }
    }

    /// The sum of the base rule over the grid triangles of the sub-triangle `transformation`,
    /// row by row: for each row the downward triangle (if any) before the upward one.
    pub fn integrate_over_domain<F, R: Accumulate>(&self, transformation: &Transform, func: &F) -> (r: R)
        where
            I: SimplexIntegrator<F, R>,
        requires
            transformation.wf(),
            transformation.rows == 3,
            transformation.cols == 3,
            1 <= self.order <= MAX_EDGE_ORDER,
            transformation.denominator * self.order <= MAX_DENOMINATOR,
        ensures
            r == cells_value(
                self.base_integrator,
                *func,
                transformation@,
                grid_triangles(self.order as nat),
                grid_triangles(self.order as nat).len(),
            ),
    {
        let ghost nn = self.order as nat;
        let ghost mut done: Seq<Mat> = Seq::empty();
        let n = self.order as u64;
        let top = self.order - 1;
        let up = up_offsets_vec();
        let down = down_offsets_vec();
        let mut result = R::additive_neutral_element();
        let mut i: usize = 0;
        while i <= top
            invariant
                transformation.wf(),
                transformation.cols == 3,
                1 <= self.order <= MAX_EDGE_ORDER,
                transformation.denominator * self.order <= MAX_DENOMINATOR,
                n == self.order,
                top == self.order - 1,
                offsets_as_ints(up@) == up_offsets(),
                offsets_as_ints(down@) == down_offsets(),
                i <= top + 1,
                nn == self.order,
                done == grid_rows(nn, i as nat),
                result == cells_value(self.base_integrator, *func, transformation@, done, done.len()),
            decreases top + 1 - i,
        {
            let mut j: usize = 0;
            while j <= top - i
                invariant
                    transformation.wf(),
                    transformation.cols == 3,
                    1 <= self.order <= MAX_EDGE_ORDER,
                    transformation.denominator * self.order <= MAX_DENOMINATOR,
                    n == self.order,
                    top == self.order - 1,
                    offsets_as_ints(up@) == up_offsets(),
                    offsets_as_ints(down@) == down_offsets(),
                    i <= top,
                    j <= top - i + 1,
                    nn == self.order,
                    done == grid_rows(nn, i as nat) + grid_row(nn, i as int, j as nat),
                    result == cells_value(self.base_integrator, *func, transformation@, done, done.len()),
                decreases top - i + 1 - j,
            {
                let k = top - i - j;
                let base = vec![(j + 1) as u64, i as u64, k as u64];
                proof {
                    assert(as_ints(base@) =~= seq![(j + 1) as int, i as int, k as int]);
                    lemma_grid_triangles(n as nat, as_ints(base@));
                }
                let ghost before = done;
                if i != 0 {
                    let t = grid_transformation(n, &base, &down);
                    let piece = transformation.dot(&t);
                    result.add_assign(&self.base_integrator.integrate_over_domain(&piece, func));
                    proof {
                        lemma_cells_value_prefix(self.base_integrator, *func, transformation@, done, done.push(t@), done.len());
                        done = done.push(t@);
                    }
                }
                let t = grid_transformation(n, &base, &up);
                let piece = transformation.dot(&t);
                result.add_assign(&self.base_integrator.integrate_over_domain(&piece, func));
                proof {
                    lemma_cells_value_prefix(self.base_integrator, *func, transformation@, done, done.push(t@), done.len());
                    done = done.push(t@);
                    assert(done =~= before + grid_cell(nn, i as int, j as int));
                    assert(done =~= grid_rows(nn, i as nat) + grid_row(nn, i as int, (j + 1) as nat));
                }
                j += 1;
            }
            proof {
                assert(done =~= grid_rows(nn, (i + 1) as nat));
            }
            i += 1;
        }
        result
    }

    /// The sum of the base rule over the grid triangles of the whole triangle.
    pub fn integrate_simplex<F, R: Accumulate>(&self, func: &F) -> (r: R)
        where
            I: SimplexIntegrator<F, R>,
        requires
            1 <= self.order <= MAX_EDGE_ORDER,
        ensures
            r == cells_value(
                self.base_integrator,
                *func,
                mat_identity(3),
                grid_triangles(self.order as nat),
                grid_triangles(self.order as nat).len(),
            ),
    {
        let identity = Transform::identity(3);
        self.integrate_over_domain(&identity, func)
    }
}

} // verus!
