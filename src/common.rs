//! Small shared items.
use vstd::prelude::*;

verus! {

/// The cache of a base rule that keeps none.
pub struct IntegratorDummy;

impl IntegratorDummy {
    pub fn get() -> (r: Self)
        ensures
            r == IntegratorDummy,
    {
        IntegratorDummy
    }
}

/// The main diagonal of an `(n+1) x (n+1)` matrix, as (row, column) pairs.
pub open spec fn main_diagonal(n: nat) -> Seq<(int, int)> {
    Seq::new(n + 1, |i: int| (i, i))
}

/// The `k`-th superdiagonal, top to bottom.
pub open spec fn upper_diagonal(n: nat, k: nat) -> Seq<(int, int)> {
    Seq::new((n + 1 - k) as nat, |i: int| (i, i + k))
}

/// The `k`-th subdiagonal, top to bottom.
pub open spec fn lower_diagonal(n: nat, k: nat) -> Seq<(int, int)> {
    Seq::new((n + 1 - k) as nat, |i: int| (i + k, i))
}

/// The main diagonal, then for `j` in `1..=k` the `j`-th superdiagonal followed by the
/// `j`-th subdiagonal.
pub open spec fn diagonals_upto(n: nat, k: nat) -> Seq<(int, int)>
    decreases k,
{
    if k == 0 {
        main_diagonal(n)
    } else {
        diagonals_upto(n, (k - 1) as nat) + upper_diagonal(n, k) + lower_diagonal(n, k)
    }
}

/// Every entry of an `(n+1) x (n+1)` matrix, diagonal by diagonal.
pub open spec fn diagonal_order(n: nat) -> Seq<(int, int)> {
    diagonals_upto(n, n)
}

/// The pairs `s`, each preceded by its position.
pub open spec fn numbered(s: Seq<(int, int)>) -> Seq<(usize, usize, usize)> {
    Seq::new(s.len(), |c: int| (c as usize, s[c].0 as usize, s[c].1 as usize))
}

/// The entries of an `(n+1) x (n+1)` matrix (`n == highest_index`) in diagonal order:
/// the main diagonal, then each superdiagonal followed by its mirrored subdiagonal,
/// nearest first; each entry as (position, row, column).
pub fn get_diagonal_order(highest_index: usize) -> (r: Vec<(usize, usize, usize)>)
    requires
        highest_index < usize::MAX,
    ensures
        r@ == numbered(diagonal_order(highest_index as nat)),
{
    let n = highest_index;
    let ghost nn = n as nat;
    let mut res_vec: Vec<(usize, usize, usize)> = Vec::new();
    let mut i: usize = 0;
    while i <= n
        invariant
            i <= n + 1,
            n < usize::MAX,
            res_vec@ == numbered(Seq::new(i as nat, |j: int| (j, j))),
        decreases n + 1 - i,
    {
        let c = res_vec.len();
        res_vec.push((c, i, i));
        assert(res_vec@ =~= numbered(Seq::new((i + 1) as nat, |j: int| (j, j))));
        i += 1;
    }
    assert(Seq::new((n + 1) as nat, |j: int| (j, j)) =~= diagonals_upto(nn, 0));
    let mut k: usize = 1;
    while k <= n
        invariant
            1 <= k <= n + 1,
            n < usize::MAX,
            nn == n,
            res_vec@ == numbered(diagonals_upto(nn, (k - 1) as nat)),
        decreases n + 1 - k,
    {
        let ghost prev = diagonals_upto(nn, (k - 1) as nat);
        let mut i: usize = 0;
        while i + k <= n
            invariant
                1 <= k <= n,
                i + k <= n + 1,
                n < usize::MAX,
                res_vec@ == numbered(prev + Seq::new(i as nat, |j: int| (j, j + k))),
            decreases n + 1 - k - i,
        {
            let c = res_vec.len();
            res_vec.push((c, i, i + k));
            assert(res_vec@ =~= numbered(prev + Seq::new((i + 1) as nat, |j: int| (j, j + k))));
            i += 1;
        }
        let ghost upper = upper_diagonal(nn, k as nat);
        assert(Seq::new(i as nat, |j: int| (j, j + k)) =~= upper);
        let mut i: usize = 0;
        while i + k <= n
            invariant
                1 <= k <= n,
                i + k <= n + 1,
                n < usize::MAX,
                res_vec@ == numbered(prev + upper + Seq::new(i as nat, |j: int| (j + k, j))),
            decreases n + 1 - k - i,
        {
            let c = res_vec.len();
            res_vec.push((c, i + k, i));
            assert(res_vec@ =~= numbered(prev + upper + Seq::new((i + 1) as nat, |j: int| (j + k, j))));
            i += 1;
        }
        assert(Seq::new(i as nat, |j: int| (j + k, j)) =~= lower_diagonal(nn, k as nat));
        k += 1;
    }
    res_vec
}

} // verus!
