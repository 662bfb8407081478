use simplex_integration::hierarchic::{Accumulate, ResultType, SimplexIntegrator};
use simplex_integration::integration_2d::{Hierarchic2DIntegrator, Hierarchic2DIntegratorData};
use simplex_integration::integration_3d::{Hierarchic3DIntegrator, Hierarchic3DIntegratorData};
use simplex_integration::transform::{Mat, Transform};
use simplex_integration::edge_subdivision_2d::EdgeSubdivisionIntegrator as EdgeSubdivision2D;
use simplex_integration::edge_subdivision_3d::EdgeSubdivisionIntegrator as EdgeSubdivision3D;

#[derive(Clone, Copy, Debug, PartialEq)]
struct Real(f64);

impl Accumulate for Real {
    fn spec_add(a: Self, b: Self) -> Self {
        Real(a.0 + b.0)
    }

    fn spec_zero() -> Self {
        Real(0.0)
    }

    fn add_assign(&mut self, other: &Self) {
        self.0 += other.0;
    }

    fn additive_neutral_element() -> Self {
        Real(0.0)
    }
}

impl ResultType<f64> for Real {
    fn spec_exceeds(a: Self, b: Self, precision: f64) -> bool {
        (a.0 - b.0).abs() > precision
    }

    fn exceeds(&self, other: &Self, precision: &f64) -> bool {
        (self.0 - other.0).abs() > *precision
    }
}

fn to_f64(t: &Transform) -> Vec<Vec<f64>> {
    let d = t.denominator as f64;
    t.entries
        .iter()
        .map(|r| r.iter().map(|&x| x as f64 / d).collect())
        .collect()
}

fn mat_mul(a: &[Vec<f64>], b: &[Vec<f64>]) -> Vec<Vec<f64>> {
    let mut r = vec![vec![0.0; b[0].len()]; a.len()];
    for i in 0..a.len() {
        for j in 0..b[0].len() {
            for k in 0..b.len() {
                r[i][j] += a[i][k] * b[k][j];
            }
        }
    }
    r
}

/// A triangle (vertices as columns of a 2x3 matrix) and an integrand in barycentric coordinates.
struct Triangle {
    points: Vec<Vec<f64>>,
    f: fn(&[f64]) -> f64,
}

/// A tetrahedron (vertices as columns of a 3x4 matrix) and an integrand in barycentric coordinates.
struct Tetrahedron {
    points: Vec<Vec<f64>>,
    f: fn(&[f64]) -> f64,
}

/// The midpoint rule: the signed measure of the sub-simplex times the integrand at its centroid.
struct Centroid;

impl SimplexIntegrator<Triangle, Real> for Centroid {
    // The value the verifier reasons about; it is never evaluated.
    fn spec_integral(&self, _t: Mat, _func: Triangle) -> Real {
        unreachable!()
    }

    fn integrate_over_domain(&self, transformation: &Transform, func: &Triangle) -> Real {
        let m = to_f64(transformation);
        let v = mat_mul(&func.points, &m);
        let area = ((v[0][1] - v[0][0]) * (v[1][2] - v[1][0])
            - (v[0][2] - v[0][0]) * (v[1][1] - v[1][0]))
            / 2.0;
        let centroid: Vec<f64> = m.iter().map(|row| row.iter().sum::<f64>() / 3.0).collect();
        Real(area * (func.f)(&centroid))
    }
}

impl SimplexIntegrator<Tetrahedron, Real> for Centroid {
    // The value the verifier reasons about; it is never evaluated.
    fn spec_integral(&self, _t: Mat, _func: Tetrahedron) -> Real {
        unreachable!()
    }

    fn integrate_over_domain(&self, transformation: &Transform, func: &Tetrahedron) -> Real {
        let m = to_f64(transformation);
        let v = mat_mul(&func.points, &m);
        let e = |j: usize| [v[0][j] - v[0][0], v[1][j] - v[1][0], v[2][j] - v[2][0]];
        let (a, b, c) = (e(1), e(2), e(3));
        let det = a[0] * (b[1] * c[2] - b[2] * c[1]) - b[0] * (a[1] * c[2] - a[2] * c[1])
            + c[0] * (a[1] * b[2] - a[2] * b[1]);
        let centroid: Vec<f64> = m.iter().map(|row| row.iter().sum::<f64>() / 4.0).collect();
        Real(det / 6.0 * (func.f)(&centroid))
    }
}

/// The edge subdivision of order 2 as the base rule of an adaptive integrator.
struct Grid(EdgeSubdivision2D<Centroid>);

impl SimplexIntegrator<Triangle, Real> for Grid {
    // The value the verifier reasons about; it is never evaluated.
    fn spec_integral(&self, _t: Mat, _func: Triangle) -> Real {
        unreachable!()
    }

    fn integrate_over_domain(&self, transformation: &Transform, func: &Triangle) -> Real {
        self.0.integrate_over_domain(transformation, func)
    }
}

fn one(_xi: &[f64]) -> f64 {
    1.0
}

fn peak(xi: &[f64]) -> f64 {
    10.0 * xi[0].powi(4)
}

fn other_peak(xi: &[f64]) -> f64 {
    10.0 * xi[1].powi(4)
}

fn bump_3d(xi: &[f64]) -> f64 {
    (0.5 - 4.0 * xi[0] * xi[1] * xi[2] * xi[3]).abs().exp() * xi[0].powi(3)
}

fn unit_triangle(f: fn(&[f64]) -> f64) -> Triangle {
    Triangle { points: vec![vec![0.0, 1.0, 0.0], vec![0.0, 0.0, 1.0]], f }
}

fn unit_tetrahedron(f: fn(&[f64]) -> f64) -> Tetrahedron {
    Tetrahedron {
        points: vec![
            vec![0.0, 1.0, 0.0, 0.0],
            vec![0.0, 0.0, 1.0, 0.0],
            vec![0.0, 0.0, 0.0, 1.0],
        ],
        f,
    }
}

#[test]
fn constant_triangle_integrates_to_half() {
    let inte = Hierarchic2DIntegrator::new(Centroid, false, 1e-2);
    let mut cache = Hierarchic2DIntegratorData::new_cache();
    let r: Real = inte.integrate_simplex(&unit_triangle(one), &mut cache);
    assert!((r.0 - 0.5).abs() <= 1e-12, "{:?}", r);
    assert_eq!(cache.tree_size(), 1);
}

#[test]
fn constant_tetrahedron_integrates_to_one_sixth() {
    let inte = Hierarchic3DIntegrator::new(Centroid, false, 1e-2);
    let mut cache = Hierarchic3DIntegratorData::new_cache();
    let r: Real = inte.integrate_simplex(&unit_tetrahedron(one), &mut cache);
    assert!((r.0 - 1.0 / 6.0).abs() <= 1e-12, "{:?}", r);
}

#[test]
fn constant_integrand_gives_area_of_any_triangle() {
    let s3 = 3.0f64.sqrt();
    let tri = Triangle { points: vec![vec![1.0, 2.0, 1.5], vec![1.0, 1.0, 1.0 + s3 / 2.0]], f: one };
    let inte = Hierarchic2DIntegrator::new(Centroid, false, 1e-6);
    let mut cache = Hierarchic2DIntegratorData::new_cache();
    let r: Real = inte.integrate_simplex(&tri, &mut cache);
    assert!((r.0 - s3 / 4.0).abs() <= 1e-12, "{:?}", r);
}

#[test]
fn constant_integrand_gives_volume_of_regular_tetrahedron() {
    let tet = Tetrahedron {
        points: vec![
            vec![(8.0f64 / 9.0).sqrt(), -(2.0f64 / 9.0).sqrt(), -(2.0f64 / 9.0).sqrt(), 0.0],
            vec![0.0, (2.0f64 / 3.0).sqrt(), -(2.0f64 / 3.0).sqrt(), 0.0],
            vec![-1.0 / 3.0, -1.0 / 3.0, -1.0 / 3.0, 1.0],
        ],
        f: one,
    };
    let inte = Hierarchic3DIntegrator::new(Centroid, false, 1e-2);
    let mut cache = Hierarchic3DIntegratorData::new_cache();
    let r: Real = inte.integrate_simplex(&tet, &mut cache);
    let expected = 2.0f64.sqrt() * (8.0f64 / 3.0).sqrt().powi(3) / 12.0;
    assert!((r.0 - expected).abs() <= 1e-2, "{:?} vs {}", r, expected);
    assert!(r.0 > 0.0);
}

#[test]
fn refined_integral_keeps_area_of_triangle() {
    let inte = Hierarchic2DIntegrator::new(Centroid, false, 1e-4);
    let mut cache = Hierarchic2DIntegratorData::new_cache();
    let _: Real = inte.integrate_simplex(&unit_triangle(peak), &mut cache);
    assert!(cache.tree_size() > 1);
    let frozen = Hierarchic2DIntegrator::new(Centroid, true, 1e-4);
    let r: Real = frozen.integrate_simplex(&unit_triangle(one), &mut cache);
    assert!((r.0 - 0.5).abs() <= 1e-12, "{:?}", r);
}

#[test]
fn reversed_orientation_flips_sign() {
    let inte = Hierarchic2DIntegrator::new(Centroid, false, 1e-4);
    let mut c1 = Hierarchic2DIntegratorData::new_cache();
    let mut c2 = Hierarchic2DIntegratorData::new_cache();
    let forward = Triangle { points: vec![vec![0.0, 1.0, 0.0], vec![0.0, 0.0, 1.0]], f: peak };
    let backward = Triangle { points: vec![vec![0.0, 0.0, 1.0], vec![0.0, 1.0, 0.0]], f: peak };
    let a: Real = inte.integrate_simplex(&forward, &mut c1);
    let b: Real = inte.integrate_simplex(&backward, &mut c2);
    assert!(a.0 > 0.0);
    assert_eq!(c1.tree_size(), c2.tree_size());
    assert!((a.0 + b.0).abs() <= 1e-12, "{:?} {:?}", a, b);
}

#[test]
fn swapped_tetrahedron_vertices_flip_sign() {
    let inte = Hierarchic3DIntegrator::new(Centroid, false, 1e-3);
    let mut c1 = Hierarchic3DIntegratorData::new_cache();
    let mut c2 = Hierarchic3DIntegratorData::new_cache();
    let forward = unit_tetrahedron(one);
    let backward = Tetrahedron {
        points: vec![
            vec![0.0, 0.0, 1.0, 0.0],
            vec![0.0, 1.0, 0.0, 0.0],
            vec![0.0, 0.0, 0.0, 1.0],
        ],
        f: one,
    };
    let reversed = Tetrahedron {
        points: vec![
            vec![0.0, 0.0, 1.0, 0.0],
            vec![0.0, 1.0, 0.0, 0.0],
            vec![1.0, 0.0, 0.0, 0.0],
        ],
        f: one,
    };
    let mut c3 = Hierarchic3DIntegratorData::new_cache();
    let even: Real = inte.integrate_simplex(&reversed, &mut c3);
    assert!((even.0 - 1.0 / 6.0).abs() <= 1e-12, "{:?}", even);
    let a: Real = inte.integrate_simplex(&forward, &mut c1);
    let b: Real = inte.integrate_simplex(&backward, &mut c2);
    assert!((a.0 - 1.0 / 6.0).abs() <= 1e-12);
    assert!((a.0 + b.0).abs() <= 1e-12, "{:?} {:?}", a, b);
}

#[test]
fn smaller_precision_refines_at_least_as_much() {
    let exact = 1.0 / 3.0;
    let mut sizes = Vec::new();
    let mut errors = Vec::new();
    for precision in [1e-2, 1e-3, 1e-4, 1e-5] {
        let inte = Hierarchic2DIntegrator::new(Centroid, false, precision);
        let mut cache = Hierarchic2DIntegratorData::new_cache();
        let r: Real = inte.integrate_simplex(&unit_triangle(peak), &mut cache);
        sizes.push(cache.tree_size());
        errors.push((r.0 - exact).abs());
    }
    for w in sizes.windows(2) {
        assert!(w[0] <= w[1], "{:?}", sizes);
    }
    assert!(errors[3] < errors[0], "{:?}", errors);
}

#[test]
fn repeated_integration_is_stable() {
    let inte = Hierarchic2DIntegrator::new(Centroid, false, 1e-4);
    let mut cache = Hierarchic2DIntegratorData::new_cache();
    let a: Real = inte.integrate_simplex(&unit_triangle(peak), &mut cache);
    let size = cache.tree_size();
    let b: Real = inte.integrate_simplex(&unit_triangle(peak), &mut cache);
    assert_eq!(a.0.to_bits(), b.0.to_bits());
    assert_eq!(cache.tree_size(), size);
}

#[test]
fn frozen_integration_does_not_grow() {
    let inte = Hierarchic2DIntegrator::new(Centroid, false, 1e-2);
    let mut cache = Hierarchic2DIntegratorData::new_cache();
    let _: Real = inte.integrate_simplex(&unit_triangle(peak), &mut cache);
    let size = cache.tree_size();
    cache.make_leafs_unchecked();
    let frozen = Hierarchic2DIntegrator::new(Centroid, true, 1e-9);
    let a: Real = frozen.integrate_simplex(&unit_triangle(peak), &mut cache);
    let b: Real = frozen.integrate_simplex(&unit_triangle(peak), &mut cache);
    assert_eq!(a.0.to_bits(), b.0.to_bits());
    assert_eq!(cache.tree_size(), size);
}

#[test]
fn reintegration_reuses_tree() {
    let inte = Hierarchic2DIntegrator::new(Centroid, false, 1e-3);
    let mut cache = Hierarchic2DIntegratorData::new_cache();
    let _: Real = inte.integrate_simplex(&unit_triangle(peak), &mut cache);
    let n = cache.tree_size();
    let before: Vec<_> = (1..=n)
        .map(|id| (cache.node_parent(id), cache.node_data(id).unwrap().number))
        .collect();
    cache.make_leafs_unchecked();
    for id in 1..=n {
        let d = cache.node_data(id).unwrap();
        if d.checked {
            assert!(before.iter().any(|b| b.0 == Some(id)));
        }
    }
    let _: Real = inte.integrate_simplex(&unit_triangle(other_peak), &mut cache);
    assert!(cache.tree_size() >= n);
    for id in 1..=n {
        assert_eq!((cache.node_parent(id), cache.node_data(id).unwrap().number), before[id - 1]);
    }
}

#[test]
fn vec_tree_builds_root_with_five_children() {
    let cache = Hierarchic3DIntegratorData::new_cache_from_vec_tree(&vec![0, 20, 1, 2, 3, 4, 13, 21]);
    assert_eq!(cache.tree_size(), 6);
    assert_eq!(cache.node_parent(1), None);
    assert_eq!(cache.node_data(1).unwrap().number, 0);
    let labels: Vec<u8> = (2..=6).map(|id| cache.node_data(id).unwrap().number).collect();
    assert_eq!(labels, vec![1, 2, 3, 4, 13]);
    for id in 2..=6 {
        assert_eq!(cache.node_parent(id), Some(1));
    }
}

#[test]
fn frozen_vec_tree_is_not_refined() {
    let mut cache = Hierarchic3DIntegratorData::new_cache_from_vec_tree(&vec![0, 20, 1, 2, 3, 4, 13, 21]);
    let frozen = Hierarchic3DIntegrator::new(Centroid, true, 1e-12);
    let r: Real = frozen.integrate_simplex(&unit_tetrahedron(bump_3d), &mut cache);
    assert!(r.0.is_finite());
    assert_eq!(cache.tree_size(), 6);
    let c: Real = frozen.integrate_simplex(&unit_tetrahedron(one), &mut cache);
    assert!((c.0 - 1.0 / 6.0).abs() <= 1e-12, "{:?}", c);
}

#[test]
fn every_child_table_keeps_volume() {
    let tokens = vec![
        0, 20, 1, 2, 3, 13, 20, 5, 6, 7, 8, 9, 10, 11, 12, 14, 15, 16, 17, 18, 19, 21, 4, 20, 1, 2,
        3, 4, 13, 21, 21,
    ];
    let mut cache = Hierarchic3DIntegratorData::new_cache_from_vec_tree(&tokens);
    assert_eq!(cache.tree_size(), 1 + 5 + 14 + 5);
    let frozen = Hierarchic3DIntegrator::new(Centroid, true, 1.0);
    let c: Real = frozen.integrate_simplex(&unit_tetrahedron(one), &mut cache);
    assert!((c.0 - 1.0 / 6.0).abs() <= 1e-12, "{:?}", c);
}

#[test]
fn refinement_3d_converges() {
    let inte = Hierarchic3DIntegrator::new(Centroid, false, 1e-4);
    let mut cache = Hierarchic3DIntegratorData::new_cache();
    let a: Real = inte.integrate_simplex(&unit_tetrahedron(bump_3d), &mut cache);
    assert!(cache.tree_size() > 6);
    let octahedra = (1..=cache.tree_size())
        .filter(|&id| cache.node_data(id).unwrap().is_octahedral_subdomain())
        .count();
    assert!(octahedra > 0);
    let size = cache.tree_size();
    let b: Real = inte.integrate_simplex(&unit_tetrahedron(bump_3d), &mut cache);
    assert_eq!(a.0.to_bits(), b.0.to_bits());
    assert_eq!(cache.tree_size(), size);
    let frozen = Hierarchic3DIntegrator::new(Centroid, true, 1e-4);
    let v: Real = frozen.integrate_simplex(&unit_tetrahedron(one), &mut cache);
    assert!((v.0 - 1.0 / 6.0).abs() <= 1e-12, "{:?}", v);
}

#[test]
fn malformed_vec_trees_are_rejected() {
    let cases: Vec<Vec<u8>> = vec![
        vec![],
        vec![0],
        vec![1, 20, 21],
        vec![0, 20, 1, 2],
        vec![0, 20, 1, 21, 21],
        vec![0, 20, 22, 21],
        vec![0, 20, 5, 21],
        vec![0, 20, 13, 20, 1, 21, 21],
        vec![20, 1, 21],
        vec![0, 1, 21],
    ];
    for c in cases {
        assert!(Hierarchic3DIntegratorData::try_new_cache_from_vec_tree(&c).is_none(), "{:?}", c);
    }
    assert!(Hierarchic3DIntegratorData::try_new_cache_from_vec_tree(&vec![0, 20, 21]).is_some());
}

#[test]
fn integrate_over_sub_domain() {
    let inte = Hierarchic2DIntegrator::new(Centroid, false, 1e-6);
    let mut cache = Hierarchic2DIntegratorData::new_cache();
    let half = Transform { rows: 3, cols: 3, denominator: 2, entries: vec![vec![2, 1, 1], vec![0, 1, 0], vec![0, 0, 1]] };
    let r: Real = inte.integrate_over_domain(&half, &unit_triangle(one), &mut cache);
    assert!((r.0 - 0.125).abs() <= 1e-12, "{:?}", r);
}

#[test]
fn edge_subdivision_keeps_area() {
    for order in 1..6 {
        let inte = EdgeSubdivision2D::new(Centroid, order);
        let r: Real = inte.integrate_simplex(&unit_triangle(one));
        assert!((r.0 - 0.5).abs() <= 1e-12, "order {}: {:?}", order, r);
    }
}

#[test]
fn edge_subdivision_converges_on_peak() {
    let coarse: Real = EdgeSubdivision2D::new(Centroid, 2).integrate_simplex(&unit_triangle(peak));
    let fine: Real = EdgeSubdivision2D::new(Centroid, 16).integrate_simplex(&unit_triangle(peak));
    assert!((fine.0 - 1.0 / 3.0).abs() < (coarse.0 - 1.0 / 3.0).abs());
    assert!((fine.0 - 1.0 / 3.0).abs() < 1e-2, "{:?}", fine);
}

#[test]
fn edge_subdivision_keeps_volume() {
    for order in 1..6 {
        let inte = EdgeSubdivision3D::new(Centroid, order);
        let r: Real = inte.integrate_simplex(&unit_tetrahedron(one));
        assert!((r.0 - 1.0 / 6.0).abs() <= 1e-12, "order {}: {:?}", order, r);
    }
}

#[test]
fn edge_subdivision_as_base_of_hierarchy() {
    let inte = Hierarchic2DIntegrator::new(Grid(EdgeSubdivision2D::new(Centroid, 2)), false, 1e-4);
    let mut cache = Hierarchic2DIntegratorData::new_cache();
    let r: Real = inte.integrate_simplex(&unit_triangle(peak), &mut cache);
    assert!((r.0 - 1.0 / 3.0).abs() < 1e-2, "{:?}", r);
}
