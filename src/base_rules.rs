//! Parameters of the base quadrature rules and the stock integrands. Their
//! floating-point evaluation is supplied through `SimplexIntegrator`.
use crate::hierarchic::Duplicate;
use vstd::prelude::*;

verus! {

/// Dunavant's symmetric rules on a triangle, of order 1 to 3.
pub struct DunavantIntegrator {
    pub integration_order: usize,
}

/// How many points each orbit of Dunavant's rule of order `order` has.
pub open spec fn dunavant_multiplicities(order: usize) -> Seq<usize> {
    if order == 1 {
        seq![1usize]
    } else if order == 2 {
        seq![3usize]
    } else {
        seq![1usize, 3]
    }
}

impl DunavantIntegrator {
    pub fn new(order: usize) -> (r: Self)
        ensures
            r.integration_order == order,
    {
        DunavantIntegrator { integration_order: order }
    }

    /// An independent copy.
    pub fn dupe(&self) -> (r: Self)
        ensures
            r.integration_order == self.integration_order,
    {
        DunavantIntegrator { integration_order: self.integration_order }
    }

    /// The number of points of each orbit of the rule: the centroid has one, a generic
    /// point of an orbit under the rotations three.
    pub fn get_integration_points_multiplicativity(&self) -> (r: Vec<usize>)
        requires
            1 <= self.integration_order <= 3,
        ensures
            r@ == dunavant_multiplicities(self.integration_order),
    {
        let r = if self.integration_order == 1 {
            vec![1usize]
        } else if self.integration_order == 2 {
            vec![3usize]
        } else {
            vec![1usize, 3]
        };
        assert(r@ =~= dunavant_multiplicities(self.integration_order));
        r
    }
}

impl Duplicate for DunavantIntegrator {
    fn dupe(&self) -> Self {
        DunavantIntegrator { integration_order: self.integration_order }
    }
}

/// Gauss-product rule on a triangle mapped from a quadrilateral.
pub struct Quadrilateral2DIntegrator {
    pub gauss_degree: usize,
}

impl Quadrilateral2DIntegrator {
    pub fn new(gauss_degree: usize) -> (r: Self)
        ensures
            r.gauss_degree == gauss_degree,
    {
        Quadrilateral2DIntegrator { gauss_degree }
    }
}

impl Duplicate for Quadrilateral2DIntegrator {
    fn dupe(&self) -> Self {
        Quadrilateral2DIntegrator { gauss_degree: self.gauss_degree }
    }
}

/// Gauss-product rule on a tetrahedron mapped from hexahedra.
pub struct Quadrilateral3DIntegrator {
    pub gauss_degree: usize,
}

impl Quadrilateral3DIntegrator {
    pub fn new(gauss_degree: usize) -> (r: Self)
        ensures
            r.gauss_degree == gauss_degree,
    {
        Quadrilateral3DIntegrator { gauss_degree }
    }
}

impl Duplicate for Quadrilateral3DIntegrator {
    fn dupe(&self) -> Self {
        Quadrilateral3DIntegrator { gauss_degree: self.gauss_degree }
    }
}

/// Evaluates the integrand at the four vertices of a tetrahedron, with no weights:
/// a probe of the orientation.
pub struct OrientationChecker;

impl OrientationChecker {
    /// The barycentric coordinates of vertex `num` (of vertex 0 past the last vertex).
    pub fn point_order(num: usize) -> (r: Vec<u64>)
        ensures
            r@ == Seq::new(4, |j: int| if j == (if num < 4 { num as int } else { 0 }) { 1u64 } else { 0u64 }),
    {
        let v: usize = if num < 4 {
            num
        } else {
            0
        };
        let mut r: Vec<u64> = Vec::new();
        let mut j: usize = 0;
        while j < 4
            invariant
                j <= 4,
                v == (if num < 4 { num as int } else { 0 }),
                r@ =~= Seq::new(j as nat, |i: int| if i == v { 1u64 } else { 0u64 }),
            decreases 4 - j,
        {
            if j == v {
                r.push(1);
            } else {
                r.push(0);
            }
            j += 1;
        }
        r
    }
}

impl Duplicate for OrientationChecker {
    fn dupe(&self) -> Self {
        OrientationChecker
    }
}

/// The integrand `1` over a triangle.
pub struct Constant2DFunction;

/// The integrand `1` over a tetrahedron.
pub struct Constant3DFunction;

/// The integrand `exp(|1/2 - 4 xi1 xi2 xi3 xi4|)` over a tetrahedron.
pub struct Multiplicative3DFunction;

} // verus!
