//! Uniform edge subdivision of a tetrahedron: each edge cut into `order` pieces, the
//! tetrahedron into `order^3` grid tetrahedra (the octahedra of the grid each cut into
//! four), the base rule applied to each.
use crate::grid::{
    as_ints, cells_value, grid_ok, grid_simplex, grid_transformation, lemma_cells_value_prefix,
    offsets_as_ints, MAX_EDGE_ORDER,
};
use crate::hierarchic::{Accumulate, Duplicate, SimplexIntegrator};
use crate::transform::{col_sum, mat_identity, Mat, Transform, MAX_DENOMINATOR};
use vstd::prelude::*;

verus! {

/// The vertices of the grid tetrahedra of shape `s` relative to the grid point of a cell:
/// shape 0 the upright tetrahedron, shapes 1-4 the four tetrahedra of the octahedron
/// below it, shape 5 the inverted tetrahedron.
pub open spec fn tet_offsets(s: int) -> Seq<Seq<int>> {
    if s == 0 {
        seq![seq![0int, 0, 0, 0], seq![-1int, 1, 0, 0], seq![-1int, 0, 1, 0], seq![-1int, 0, 0, 1]]
    } else if s == 1 {
        seq![seq![-1int, 0, 0, 1], seq![-1int, 1, 0, 0], seq![-1int, 0, 1, 0], seq![-2int, 1, 1, 0]]
    } else if s == 2 {
        seq![seq![-1int, 0, 1, 0], seq![-2int, 0, 1, 1], seq![-1int, 0, 0, 1], seq![-2int, 1, 1, 0]]
    } else if s == 3 {
        seq![seq![-2int, 1, 1, 0], seq![-2int, 0, 1, 1], seq![-1int, 0, 0, 1], seq![-2int, 1, 0, 1]]
    } else if s == 4 {
        seq![seq![-2int, 1, 0, 1], seq![-2int, 1, 1, 0], seq![-1int, 1, 0, 0], seq![-1int, 0, 0, 1]]
    } else {
        seq![seq![-2int, 0, 1, 1], seq![-2int, 1, 0, 1], seq![-2int, 1, 1, 0], seq![-3int, 1, 1, 1]]
    }
}

/// How far the first coordinate of a cell's grid point must reach for shape `s`.
pub open spec fn shape_reach(s: int) -> int {
    if s == 0 {
        1
    } else if s <= 4 {
        2
    } else {
        3
    }
}

/// How many shapes the cell with grid point `base` holds: the upright tetrahedron, the
/// octahedron's four once the first coordinate reaches 2, the inverted one once it reaches 3.
pub open spec fn shape_count(first: int) -> nat {
    if first >= 3 {
        6
    } else if first >= 2 {
        5
    } else {
        1
    }
}

/// The first `m` grid tetrahedra of the cell `(i, j, k)` of the subdivision of order `n`.
pub open spec fn grid_cell(n: nat, i: int, j: int, k: int, m: nat) -> Seq<Mat> {
    Seq::new(
        m,
        |sh: int| grid_simplex(n, seq![j + 1, i, k, n - 1 - i - j - k], tet_offsets(sh)),
    )
}

/// The cells `(i, j, 0), ..., (i, j, m - 1)`.
pub open spec fn grid_line(n: nat, i: int, j: int, m: nat) -> Seq<Mat>
    decreases m,
{
    if m == 0 {
        Seq::empty()
    } else {
        grid_line(n, i, j, (m - 1) as nat) + grid_cell(n, i, j, m - 1, shape_count(j + 1))
    }
}

/// The lines `(i, 0), ..., (i, m - 1)`, line `(i, j)` holding `n - i - j` cells.
pub open spec fn grid_plane(n: nat, i: int, m: nat) -> Seq<Mat>
    decreases m,
{
    if m == 0 {
        Seq::empty()
    } else {
        grid_plane(n, i, (m - 1) as nat) + grid_line(n, i, m - 1, (n - i - (m - 1)) as nat)
    }
}

/// The planes `0, ..., m - 1`, plane `i` holding `n - i` lines.
pub open spec fn grid_planes(n: nat, m: nat) -> Seq<Mat>
    decreases m,
{
    if m == 0 {
        Seq::empty()
    } else {
        grid_planes(n, (m - 1) as nat) + grid_plane(n, m - 1, (n - (m - 1)) as nat)
    }
}

/// All grid tetrahedra of the subdivision of order `n`, in the order they are integrated.
pub open spec fn grid_tetrahedra(n: nat) -> Seq<Mat> {
    grid_planes(n, n)
}

fn tet_offsets_vec(s: usize) -> (r: Vec<Vec<i64>>)
    requires
        s <= 5,
    ensures
        offsets_as_ints(r@) == tet_offsets(s as int),
{
    let r = if s == 0 {
        vec![vec![0i64, 0, 0, 0], vec![-1i64, 1, 0, 0], vec![-1i64, 0, 1, 0], vec![-1i64, 0, 0, 1]]
    } else if s == 1 {
        vec![vec![-1i64, 0, 0, 1], vec![-1i64, 1, 0, 0], vec![-1i64, 0, 1, 0], vec![-2i64, 1, 1, 0]]
    } else if s == 2 {
        vec![vec![-1i64, 0, 1, 0], vec![-2i64, 0, 1, 1], vec![-1i64, 0, 0, 1], vec![-2i64, 1, 1, 0]]
    } else if s == 3 {
        vec![vec![-2i64, 1, 1, 0], vec![-2i64, 0, 1, 1], vec![-1i64, 0, 0, 1], vec![-2i64, 1, 0, 1]]
    } else if s == 4 {
        vec![vec![-2i64, 1, 0, 1], vec![-2i64, 1, 1, 0], vec![-1i64, 1, 0, 0], vec![-1i64, 0, 0, 1]]
    } else {
        vec![vec![-2i64, 0, 1, 1], vec![-2i64, 1, 0, 1], vec![-2i64, 1, 1, 0], vec![-3i64, 1, 1, 1]]
    };
    assert(offsets_as_ints(r@) =~~= tet_offsets(s as int));
    r
}

/// The grid tetrahedron of shape `s` at grid point `base` lies on the grid of order `n`.
proof fn lemma_grid_tetrahedron(n: nat, base: Seq<int>, s: int)
    requires
        0 <= s <= 5,
        base.len() == 4,
        base[0] >= shape_reach(s),
        base[1] >= 0,
        base[2] >= 0,
        base[3] >= 0,
        base[0] + base[1] + base[2] + base[3] == n,
    ensures
        grid_ok(n, base, tet_offsets(s)),
{
    reveal_with_fuel(col_sum, 5);
    let o = tet_offsets(s);
    let m = grid_simplex(n, base, o);
    assert forall|c: int| 0 <= c < 4 implies (#[trigger] o[c]).len() == 4 by {
        assert(c == 0 || c == 1 || c == 2 || c == 3);
    }
    assert forall|r: int, c: int| 0 <= r < 4 && 0 <= c < 4 implies 0 <= base[r] + #[trigger] o[c][r] <= n by {
        assert(c == 0 || c == 1 || c == 2 || c == 3);
        assert(r == 0 || r == 1 || r == 2 || r == 3);
    }
    assert forall|c: int| 0 <= c < 4 implies #[trigger] col_sum(m.e, c, 4) == n by {
        assert(c == 0 || c == 1 || c == 2 || c == 3);
    }
}

/// Applies `base_integrator` to every grid tetrahedron of the subdivision of order `order`.
pub struct EdgeSubdivisionIntegrator<I> {
    pub base_integrator: I,
    pub order: usize,
}

impl<I: Duplicate> Duplicate for EdgeSubdivisionIntegrator<I> {
    fn dupe(&self) -> Self {
        EdgeSubdivisionIntegrator { base_integrator: self.base_integrator.dupe(), order: self.order }
    }
}

impl<I> EdgeSubdivisionIntegrator<I> {
    pub fn new(base_integrator: I, order: usize) -> (r: Self)
        ensures
            r.base_integrator == base_integrator,
            r.order == order,
    {
        EdgeSubdivisionIntegrator { base_integrator, order }
    }

    /// The sum of the base rule over the grid tetrahedra of the sub-tetrahedron
    /// `transformation`, cell by cell, the shapes of a cell in order.
    pub fn integrate_over_domain<F, R: Accumulate>(&self, transformation: &Transform, func: &F) -> (r: R)
        where
            I: SimplexIntegrator<F, R>,
        requires
            transformation.wf(),
            transformation.rows == 4,
            transformation.cols == 4,
            1 <= self.order <= MAX_EDGE_ORDER,
            transformation.denominator * self.order <= MAX_DENOMINATOR,
        ensures
            r == cells_value(
                self.base_integrator,
                *func,
                transformation@,
                grid_tetrahedra(self.order as nat),
                grid_tetrahedra(self.order as nat).len(),
            ),
    {
        let ghost nn = self.order as nat;
        let ghost mut done: Seq<Mat> = Seq::empty();
        let n = self.order as u64;
        let top = self.order - 1;
        let mut result = R::additive_neutral_element();
        let mut i: usize = 0;
        while i <= top
            invariant
                transformation.wf(),
                transformation.cols == 4,
                1 <= self.order <= MAX_EDGE_ORDER,
                transformation.denominator * self.order <= MAX_DENOMINATOR,
                n == self.order,
                top == self.order - 1,
                i <= top + 1,
                nn == self.order,
                result == cells_value(self.base_integrator, *func, transformation@, done, done.len()),
                done == grid_planes(nn, i as nat),
            decreases top + 1 - i,
        {
            let mut j: usize = 0;
            while j <= top - i
                invariant
                    transformation.wf(),
                    transformation.cols == 4,
                    1 <= self.order <= MAX_EDGE_ORDER,
                    transformation.denominator * self.order <= MAX_DENOMINATOR,
                    n == self.order,
                    top == self.order - 1,
                    i <= top,
                    j <= top - i + 1,
                    nn == self.order,
                    result == cells_value(self.base_integrator, *func, transformation@, done, done.len()),
                    done == grid_planes(nn, i as nat) + grid_plane(nn, i as int, j as nat),
                decreases top - i + 1 - j,
            {
                let mut k: usize = 0;
                while k <= top - i - j
                    invariant
                        transformation.wf(),
                        transformation.cols == 4,
                        1 <= self.order <= MAX_EDGE_ORDER,
                        transformation.denominator * self.order <= MAX_DENOMINATOR,
                        n == self.order,
                        top == self.order - 1,
                        i <= top,
                        j <= top - i,
                        k <= top - i - j + 1,
                        nn == self.order,
                        result == cells_value(self.base_integrator, *func, transformation@, done, done.len()),
                        done == grid_planes(nn, i as nat) + grid_plane(nn, i as int, j as nat)
                            + grid_line(nn, i as int, j as int, k as nat),
                    decreases top - i - j + 1 - k,
                {
                    let m = top - i - j - k;
                    let base = vec![(j + 1) as u64, i as u64, k as u64, m as u64];
                    proof {
                        assert(as_ints(base@) =~= seq![(j + 1) as int, i as int, k as int, m as int]);
                    }
                    let last: usize = if j + 1 >= 3 {
                        5
                    } else if j + 1 >= 2 {
                        4
                    } else {
                        0
                    };
                    let ghost before = done;
                    let mut s: usize = 0;
                    while s <= last
                        invariant
                            transformation.wf(),
                            transformation.cols == 4,
                            1 <= self.order <= MAX_EDGE_ORDER,
                            transformation.denominator * self.order <= MAX_DENOMINATOR,
                            n == self.order,
                            last <= 5,
                            as_ints(base@) == seq![(j + 1) as int, i as int, k as int, m as int],
                            forall|t: int| 0 <= t <= last ==> shape_reach(t) <= j + 1,
                            (j + 1) + i + k + m == n,
                            s <= last + 1,
                            last + 1 == shape_count(j + 1),
                            nn == self.order,
                            result == cells_value(self.base_integrator, *func, transformation@, done, done.len()),
                            done == before + grid_cell(nn, i as int, j as int, k as int, s as nat),
                        decreases last + 1 - s,
                    {
                        let offsets = tet_offsets_vec(s);
                        proof {
                            lemma_grid_tetrahedron(n as nat, as_ints(base@), s as int);
                        }
                        let t = grid_transformation(n, &base, &offsets);
                        let piece = transformation.dot(&t);
                        result.add_assign(&self.base_integrator.integrate_over_domain(&piece, func));
                        proof {
                            lemma_cells_value_prefix(self.base_integrator, *func, transformation@, done, done.push(t@), done.len());
                            done = done.push(t@);
                            assert(done =~= before + grid_cell(nn, i as int, j as int, k as int, (s + 1) as nat));
                        }
                        s += 1;
                    }
                    proof {
                        assert(done =~= grid_planes(nn, i as nat) + grid_plane(nn, i as int, j as nat)
                            + grid_line(nn, i as int, j as int, (k + 1) as nat));
                    }
                    k += 1;
                }
                proof {
                    assert(done =~= grid_planes(nn, i as nat) + grid_plane(nn, i as int, (j + 1) as nat));
                }
                j += 1;
            }
            proof {
                assert(done =~= grid_planes(nn, (i + 1) as nat));
            }
            i += 1;
        }
        result
    }

    /// The sum of the base rule over the grid tetrahedra of the whole tetrahedron.
    pub fn integrate_simplex<F, R: Accumulate>(&self, func: &F) -> (r: R)
        where
            I: SimplexIntegrator<F, R>,
        requires
            1 <= self.order <= MAX_EDGE_ORDER,
        ensures
            r == cells_value(
                self.base_integrator,
                *func,
                mat_identity(4),
                grid_tetrahedra(self.order as nat),
                grid_tetrahedra(self.order as nat).len(),
            ),
    {
        let identity = Transform::identity(4);
        self.integrate_over_domain(&identity, func)
    }
}

} // verus!
