//! The uniform edge subdivision: a simplex cut into congruent sub-simplices whose vertices
//! lie on the grid of barycentric points with denominator `n`.
use crate::hierarchic::{Accumulate, SimplexIntegrator};
use crate::transform::{col_sum, mat_mul, Mat, Transform, MAX_DENOMINATOR};
use vstd::prelude::*;

verus! {

/// Largest order of an edge subdivision.
pub const MAX_EDGE_ORDER: usize = 1048576;

/// The grid simplex with vertex `c` at `base + offsets[c]` (numerators over `n`).
pub open spec fn grid_simplex(n: nat, base: Seq<int>, offsets: Seq<Seq<int>>) -> Mat {
    Mat {
        rows: base.len(),
        cols: offsets.len(),
        den: n,
        e: Seq::new(base.len(), |r: int| Seq::new(offsets.len(), |c: int| base[r] + offsets[c][r])),
    }
}

/// The vertices lie on the grid: nonnegative numerators summing to `n`.
pub open spec fn grid_ok(n: nat, base: Seq<int>, offsets: Seq<Seq<int>>) -> bool {
    &&& forall|r: int| 0 <= r < base.len() ==> 0 <= #[trigger] base[r] <= n
    &&& forall|c: int| 0 <= c < offsets.len() ==> (#[trigger] offsets[c]).len() == base.len()
    &&& forall|r: int, c: int|
        0 <= r < base.len() && 0 <= c < offsets.len() ==> 0 <= base[r] + #[trigger] offsets[c][r] <= n
    &&& forall|c: int|
        0 <= c < offsets.len() ==> #[trigger] col_sum(grid_simplex(n, base, offsets).e, c, base.len()) == n
}

pub open spec fn as_ints(v: Seq<u64>) -> Seq<int> {
    v.map_values(|x: u64| x as int)
}

pub open spec fn offsets_as_ints(v: Seq<Vec<i64>>) -> Seq<Seq<int>> {
    v.map_values(|o: Vec<i64>| o@.map_values(|x: i64| x as int))
}

/// The base rule summed, in order, over the first `n` regions `cells` of the region `t`.
pub open spec fn cells_value<F, R: Accumulate, I: SimplexIntegrator<F, R>>(
    base: I,
    func: F,
    t: Mat,
    cells: Seq<Mat>,
    n: nat,
) -> R
    decreases n,
{
    if n == 0 {
        R::spec_zero()
    } else {
        R::spec_add(
            cells_value(base, func, t, cells, (n - 1) as nat),
            base.spec_integral(mat_mul(t, cells[n - 1]), func),
        )
    }
}

/// The sum over a list of regions depends on that list alone.
pub proof fn lemma_cells_value_prefix<F, R: Accumulate, I: SimplexIntegrator<F, R>>(
    base: I,
    func: F,
    t: Mat,
    a: Seq<Mat>,
    b: Seq<Mat>,
    n: nat,
)
    requires
        n <= a.len(),
        n <= b.len(),
        forall|i: int| 0 <= i < n ==> a[i] == b[i],
    ensures
        cells_value(base, func, t, a, n) == cells_value(base, func, t, b, n),
    decreases n,
{
    if n > 0 {
        lemma_cells_value_prefix(base, func, t, a, b, (n - 1) as nat);
    }
}

/// The transformation of the grid simplex with vertex `c` at `base + offsets[c]`.
pub fn grid_transformation(n: u64, base: &Vec<u64>, offsets: &Vec<Vec<i64>>) -> (r: Transform)
    requires
        1 <= n <= MAX_EDGE_ORDER,
        grid_ok(n as nat, as_ints(base@), offsets_as_ints(offsets@)),
    ensures
        r@ == grid_simplex(n as nat, as_ints(base@), offsets_as_ints(offsets@)),
        r.wf(),
        r@.column_stochastic(),
        r.denominator == n,
        r.rows == base@.len(),
        r.cols == offsets@.len(),
{
    let ghost b = as_ints(base@);
    let ghost o = offsets_as_ints(offsets@);
    let ghost m = grid_simplex(n as nat, b, o);
    let mut entries: Vec<Vec<u64>> = Vec::new();
    let mut i: usize = 0;
    while i < base.len()
        invariant
            1 <= n <= MAX_EDGE_ORDER,
            b == as_ints(base@),
            o == offsets_as_ints(offsets@),
            m == grid_simplex(n as nat, b, o),
            grid_ok(n as nat, b, o),
            i <= base@.len(),
            entries@.len() == i,
            forall|p: int| 0 <= p < i ==> (#[trigger] entries@[p])@.map_values(|x: u64| x as int) =~= m.e[p],
        decreases base@.len() - i,
    {
        let mut row: Vec<u64> = Vec::new();
        let mut c: usize = 0;
        while c < offsets.len()
            invariant
                1 <= n <= MAX_EDGE_ORDER,
                b == as_ints(base@),
                o == offsets_as_ints(offsets@),
                m == grid_simplex(n as nat, b, o),
                grid_ok(n as nat, b, o),
                i < base@.len(),
                c <= offsets@.len(),
                row@.len() == c,
                forall|q: int| 0 <= q < c ==> #[trigger] row@[q] as int == m.e[i as int][q],
            decreases offsets@.len() - c,
        {
            proof {
                assert(o[c as int].len() == b.len());
                assert(o[c as int] == offsets@[c as int]@.map_values(|x: i64| x as int));
                assert(0 <= b[i as int] + o[c as int][i as int] <= n);
                assert(b[i as int] == base@[i as int] as int);
                assert(o[c as int][i as int] == offsets@[c as int]@[i as int] as int);
                assert(0 <= b[i as int] <= n);
            }
            let v = (base[i] as i64 + offsets[c][i]) as u64;
            row.push(v);
            c += 1;
        }
        proof {
            assert(row@.map_values(|x: u64| x as int) =~= m.e[i as int]);
        }
        entries.push(row);
        i += 1;
    }
    let r = Transform { rows: base.len(), cols: offsets.len(), denominator: n, entries };
    assert(r@.e =~~= m.e);
    assert(MAX_EDGE_ORDER <= MAX_DENOMINATOR);
    r
}

} // verus!
