//! Barycentric-to-barycentric transformations with exact rational entries.
//!
//! A [`Transform`] holds the matrix `entries / denominator`. Every table of the red
//! refinement has entries in `{0, 1/2, 1}` and every grid simplex of an edge subdivision
//! of order `n` entries in `{0, 1/n, ..., 1}`, so products of them stay exact.
use vstd::arithmetic::mul::{lemma_mul_inequality, lemma_mul_is_distributive_add};
use vstd::prelude::*;

verus! {

/// Largest denominator a transformation may carry (`2^62`).
pub const MAX_DENOMINATOR: u64 = 4611686018427387904;

/// Mathematical model of a transformation: a `rows x cols` matrix of numerators
/// over the common denominator `den`.
pub struct Mat {
    pub rows: nat,
    pub cols: nat,
    pub den: nat,
    pub e: Seq<Seq<int>>,
}

/// `sum_{k < n} a[k] * b[k][j]`
pub open spec fn row_dot(a: Seq<int>, b: Seq<Seq<int>>, j: int, n: nat) -> int
    decreases n,
{
    if n == 0 {
        0
    } else {
        row_dot(a, b, j, (n - 1) as nat) + a[n - 1] * b[n - 1][j]
    }
}

/// `sum_{i < n} e[i][j]`
pub open spec fn col_sum(e: Seq<Seq<int>>, j: int, n: nat) -> int
    decreases n,
{
    if n == 0 {
        0
    } else {
        col_sum(e, j, (n - 1) as nat) + e[n - 1][j]
    }
}

/// The matrix product; denominators multiply.
pub open spec fn mat_mul(a: Mat, b: Mat) -> Mat {
    Mat {
        rows: a.rows,
        cols: b.cols,
        den: a.den * b.den,
        e: Seq::new(a.rows, |i: int| Seq::new(b.cols, |j: int| row_dot(a.e[i], b.e, j, a.cols))),
    }
}

/// The `n x n` identity.
pub open spec fn mat_identity(n: nat) -> Mat {
    Mat {
        rows: n,
        cols: n,
        den: 1,
        e: Seq::new(n, |i: int| Seq::new(n, |j: int| if i == j { 1int } else { 0int })),
    }
}

impl Mat {
    pub open spec fn shaped(self) -> bool {
        &&& self.e.len() == self.rows
        &&& forall|i: int| 0 <= i < self.rows ==> #[trigger] self.e[i].len() == self.cols
    }

    /// Every entry lies in `[0, 1]`.
    pub open spec fn bounded(self) -> bool {
        forall|i: int, j: int|
            0 <= i < self.rows && 0 <= j < self.cols ==> 0 <= #[trigger] self.e[i][j] <= self.den
    }

    /// Every column holds barycentric coordinates: it sums to one.
    pub open spec fn column_stochastic(self) -> bool {
        forall|j: int| 0 <= j < self.cols ==> #[trigger] col_sum(self.e, j, self.rows) == self.den
    }
}

/// A transformation `entries / denominator`, mapping the barycentric coordinates of a
/// sub-region (columns) to those of the enclosing simplex (rows).
pub struct Transform {
    pub rows: usize,
    pub cols: usize,
    pub denominator: u64,
    pub entries: Vec<Vec<u64>>,
}

impl View for Transform {
    type V = Mat;

    open spec fn view(&self) -> Mat {
        Mat {
            rows: self.rows as nat,
            cols: self.cols as nat,
            den: self.denominator as nat,
            e: self.entries@.map_values(|r: Vec<u64>| r@.map_values(|x: u64| x as int)),
        }
    }
}

proof fn lemma_col_sum_monotone(e: Seq<Seq<int>>, j: int, k: nat, n: nat)
    requires
        k <= n <= e.len(),
        forall|i: int| 0 <= i < n ==> 0 <= #[trigger] e[i][j],
    ensures
        0 <= col_sum(e, j, k) <= col_sum(e, j, n),
    decreases n,
{
    if n > 0 {
        let k2: nat = if k < n { k } else { (n - 1) as nat };
        lemma_col_sum_monotone(e, j, k2, (n - 1) as nat);
    }
}

proof fn lemma_identity_col_sum(n: nat, j: int, k: nat)
    requires
        0 <= j < n,
        k <= n,
    ensures
        col_sum(mat_identity(n).e, j, k) == if j < k { 1int } else { 0int },
    decreases k,
{
    if k > 0 {
        lemma_identity_col_sum(n, j, (k - 1) as nat);
    }
}

/// `sum_{k < m} b[k][j] * col_sum(a, k, n)`
pub open spec fn weighted_col_sum(a: Seq<Seq<int>>, b: Seq<Seq<int>>, j: int, n: nat, m: nat) -> int
    decreases m,
{
    if m == 0 {
        0
    } else {
        weighted_col_sum(a, b, j, n, (m - 1) as nat) + b[m - 1][j] * col_sum(a, m - 1, n)
    }
}

proof fn lemma_weighted_step(a: Seq<Seq<int>>, b: Seq<Seq<int>>, j: int, n: nat, m: nat)
    ensures
        weighted_col_sum(a, b, j, n + 1, m) == weighted_col_sum(a, b, j, n, m) + row_dot(
            a[n as int],
            b,
            j,
            m,
        ),
    decreases m,
{
    if m > 0 {
        lemma_weighted_step(a, b, j, n, (m - 1) as nat);
        let k = m - 1;
        assert(col_sum(a, k, n + 1) == col_sum(a, k, n) + a[n as int][k]);
        assert(b[k][j] * col_sum(a, k, n + 1) == b[k][j] * col_sum(a, k, n) + a[n as int][k] * b[k][j])
            by (nonlinear_arith)
            requires
                col_sum(a, k, n + 1) == col_sum(a, k, n) + a[n as int][k],
        ;
    }
}

proof fn lemma_col_sum_product(a: Mat, b: Mat, j: int, n: nat)
    requires
        n <= a.rows,
        0 <= j < b.cols,
    ensures
        col_sum(mat_mul(a, b).e, j, n) == weighted_col_sum(a.e, b.e, j, n, a.cols),
    decreases n,
{
    if n == 0 {
        lemma_weighted_zero(a.e, b.e, j, a.cols);
    } else {
        lemma_col_sum_product(a, b, j, (n - 1) as nat);
        lemma_weighted_step(a.e, b.e, j, (n - 1) as nat, a.cols);
    }
}

proof fn lemma_weighted_zero(a: Seq<Seq<int>>, b: Seq<Seq<int>>, j: int, m: nat)
    ensures
        weighted_col_sum(a, b, j, 0, m) == 0,
    decreases m,
{
    if m > 0 {
        lemma_weighted_zero(a, b, j, (m - 1) as nat);
    }
}

proof fn lemma_weighted_stochastic(a: Mat, b: Seq<Seq<int>>, j: int, m: nat)
    requires
        m <= a.cols,
        a.column_stochastic(),
    ensures
        weighted_col_sum(a.e, b, j, a.rows, m) == a.den * col_sum(b, j, m),
    decreases m,
{
    if m > 0 {
        lemma_weighted_stochastic(a, b, j, (m - 1) as nat);
        let k = m - 1;
        assert(col_sum(a.e, k, a.rows) == a.den);
        assert(a.den * col_sum(b, j, m) == a.den * col_sum(b, j, (m - 1) as nat) + b[k][j] * a.den)
            by (nonlinear_arith)
            requires
                col_sum(b, j, m) == col_sum(b, j, (m - 1) as nat) + b[k][j],
        ;
    }
}

/// The product of barycentric maps is a barycentric map.
pub proof fn lemma_product_stochastic(a: Mat, b: Mat)
    requires
        a.column_stochastic(),
        b.column_stochastic(),
        a.cols == b.rows,
    ensures
        mat_mul(a, b).column_stochastic(),
{
    assert forall|j: int| 0 <= j < b.cols implies #[trigger] col_sum(mat_mul(a, b).e, j, a.rows) == a.den
        * b.den by {
        lemma_col_sum_product(a, b, j, a.rows);
        lemma_weighted_stochastic(a, b.e, j, a.cols);
        assert(col_sum(b.e, j, b.rows) == b.den);
    }
}

impl Transform {
    pub open spec fn wf(&self) -> bool {
        &&& self@.shaped()
        &&& self@.bounded()
        &&& 1 <= self.denominator <= MAX_DENOMINATOR
    }

    /// The `n x n` identity transformation.
    pub fn identity(n: usize) -> (r: Transform)
        ensures
            r.wf(),
            r@ == mat_identity(n as nat),
            r@.column_stochastic(),
    {
        let mut entries: Vec<Vec<u64>> = Vec::new();
        let mut i: usize = 0;
        while i < n
            invariant
                i <= n,
                entries@.len() == i,
                forall|a: int|
                    0 <= a < i ==> (#[trigger] entries@[a])@ =~= Seq::new(
                        n as nat,
                        |b: int| if a == b { 1u64 } else { 0u64 },
                    ),
            decreases n - i,
        {
            let mut row: Vec<u64> = Vec::new();
            let mut j: usize = 0;
            while j < n
                invariant
                    j <= n,
                    i < n,
                    row@ =~= Seq::new(j as nat, |b: int| if i == b { 1u64 } else { 0u64 }),
                decreases n - j,
            {
                if i == j {
                    row.push(1);
                } else {
                    row.push(0);
                }
                j += 1;
            }
            entries.push(row);
            i += 1;
        }
        let r = Transform { rows: n, cols: n, denominator: 1, entries };
        assert(r@.e =~~= mat_identity(n as nat).e);
        assert forall|j: int| 0 <= j < n implies #[trigger] col_sum(r@.e, j, n as nat) == 1 by {
            lemma_identity_col_sum(n as nat, j, n as nat);
        }
        r
    }

    /// An independent copy.
    pub fn duplicate(&self) -> (r: Transform)
        ensures
            r@ == self@,
            r.rows == self.rows,
            r.cols == self.cols,
            r.denominator == self.denominator,
    {
        let mut entries: Vec<Vec<u64>> = Vec::new();
        let mut i: usize = 0;
        while i < self.entries.len()
            invariant
                i <= self.entries@.len(),
                entries@.len() == i,
                forall|a: int| 0 <= a < i ==> (#[trigger] entries@[a])@ == self.entries@[a]@,
            decreases self.entries@.len() - i,
        {
            let src = &self.entries[i];
            let mut row: Vec<u64> = Vec::new();
            let mut j: usize = 0;
            while j < src.len()
                invariant
                    j <= src@.len(),
                    row@ =~= src@.subrange(0, j as int),
                decreases src@.len() - j,
            {
                row.push(src[j]);
                j += 1;
            }
            assert(row@ =~= src@);
            entries.push(row);
            i += 1;
        }
        let r = Transform { rows: self.rows, cols: self.cols, denominator: self.denominator, entries };
        assert(r@.e =~~= self@.e);
        r
    }

    /// The product `self * other`: the sub-region `other` of the sub-region `self`.
    pub fn dot(&self, other: &Transform) -> (r: Transform)
        requires
            self.wf(),
            other.wf(),
            other@.column_stochastic(),
            self.cols == other.rows,
            self.denominator * other.denominator <= MAX_DENOMINATOR,
        ensures
            r.wf(),
            r@ == mat_mul(self@, other@),
            r.rows == self.rows,
            r.cols == other.cols,
            r.denominator == self.denominator * other.denominator,
            self@.column_stochastic() ==> r@.column_stochastic(),
    {
        let ghost a = self@;
        let ghost b = other@;
        let ghost sa = self.denominator as nat;
        let ghost sb = other.denominator as nat;
        let mut entries: Vec<Vec<u64>> = Vec::new();
        let mut i: usize = 0;
        while i < self.rows
            invariant
                self.wf(),
                other.wf(),
                other@.column_stochastic(),
                self.cols == other.rows,
                a == self@,
                b == other@,
                sa == self.denominator,
                sb == other.denominator,
                sa * sb <= MAX_DENOMINATOR,
                i <= self.rows,
                entries@.len() == i,
                forall|p: int|
                    0 <= p < i ==> (#[trigger] entries@[p])@.map_values(|x: u64| x as int)
                        =~= mat_mul(a, b).e[p],
                forall|p: int, q: int|
                    0 <= p < i && 0 <= q < b.cols ==> #[trigger] entries@[p]@[q] <= sa * sb,
            decreases self.rows - i,
        {
            let mut row: Vec<u64> = Vec::new();
            let mut j: usize = 0;
            while j < other.cols
                invariant
                    self.wf(),
                    other.wf(),
                    other@.column_stochastic(),
                    self.cols == other.rows,
                    a == self@,
                    b == other@,
                    sa == self.denominator,
                    sb == other.denominator,
                    sa * sb <= MAX_DENOMINATOR,
                    i < self.rows,
                    j <= other.cols,
                    row@.len() == j,
                    forall|q: int|
                        0 <= q < j ==> #[trigger] row@[q] as int == row_dot(a.e[i as int], b.e, q, a.cols),
                    forall|q: int| 0 <= q < j ==> #[trigger] row@[q] <= (sa * sb),
                decreases other.cols - j,
            {
                let mut sum: u64 = 0;
                let mut k: usize = 0;
                while k < self.cols
                    invariant
                        self.wf(),
                        other.wf(),
                        other@.column_stochastic(),
                        self.cols == other.rows,
                        a == self@,
                        b == other@,
                        sa == self.denominator,
                        sb == other.denominator,
                        sa * sb <= MAX_DENOMINATOR,
                        i < self.rows,
                        j < other.cols,
                        k <= self.cols,
                        sum as int == row_dot(a.e[i as int], b.e, j as int, k as nat),
                        sum as int <= sa * col_sum(b.e, j as int, k as nat),
                    decreases self.cols - k,
                {
                    proof {
                        assert(a.e[i as int].len() == a.cols);
                        assert(a.e[i as int] == self.entries@[i as int]@.map_values(|x: u64| x as int));
                        assert(b.e[k as int].len() == b.cols);
                        assert(b.e[k as int] == other.entries@[k as int]@.map_values(|x: u64| x as int));
                    }
                    let x = self.entries[i][k];
                    let y = other.entries[k][j];
                    proof {
                        assert(a.e[i as int][k as int] == x as int);
                        assert(b.e[k as int][j as int] == y as int);
                        assert(0 <= x <= sa);
                        assert forall|t: int| 0 <= t < b.rows implies 0 <= #[trigger] b.e[t][j as int] by {}
                        lemma_col_sum_monotone(b.e, j as int, (k + 1) as nat, b.rows);
                        assert(col_sum(b.e, j as int, b.rows) == sb);
                        lemma_mul_inequality(x as int, sa as int, y as int);
                        lemma_mul_is_distributive_add(
                            sa as int,
                            col_sum(b.e, j as int, k as nat),
                            y as int,
                        );
                        lemma_mul_inequality(
                            col_sum(b.e, j as int, (k + 1) as nat),
                            sb as int,
                            sa as int,
                        );
                        assert(sa * col_sum(b.e, j as int, (k + 1) as nat) <= sa
                            * sb) by (nonlinear_arith)
                            requires
                                col_sum(b.e, j as int, (k + 1) as nat) <= sb,
                        ;
                        assert(MAX_DENOMINATOR < u64::MAX);
                    }
                    sum = sum + x * y;
                    k += 1;
                }
                proof {
                    assert forall|t: int| 0 <= t < b.rows implies 0 <= #[trigger] b.e[t][j as int] by {}
                    lemma_col_sum_monotone(b.e, j as int, b.rows, b.rows);
                    assert(sa * col_sum(b.e, j as int, b.rows) == sa * sb);
                }
                row.push(sum);
                j += 1;
            }
            proof {
                assert(row@.map_values(|x: u64| x as int) =~= mat_mul(a, b).e[i as int]);
            }
            entries.push(row);
            i += 1;
        }
        let r = Transform { rows: self.rows, cols: other.cols, denominator: self.denominator * other.denominator, entries };
        assert(r@.e =~~= mat_mul(a, b).e);
        proof {
            if a.column_stochastic() {
                lemma_product_stochastic(a, b);
                assert(r@ == mat_mul(a, b));
            }
        }
        assert(1 <= sa * sb) by (nonlinear_arith)
            requires
                1 <= sa,
                1 <= sb,
        ;
        assert forall|p: int, q: int| 0 <= p < r@.rows && 0 <= q < r@.cols implies 0 <= #[trigger] r@.e[p][q] <= r@.den by {
            assert(r@.e[p] == r.entries@[p]@.map_values(|x: u64| x as int));
            assert(r.entries@[p]@[q] <= (sa * sb));
        }
        r
    }
}

} // verus!
