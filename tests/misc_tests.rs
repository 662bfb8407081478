use simplex_integration::base_rules::{
    Constant2DFunction, Constant3DFunction, DunavantIntegrator, Multiplicative3DFunction,
    OrientationChecker, Quadrilateral2DIntegrator, Quadrilateral3DIntegrator,
};
use simplex_integration::common::{get_diagonal_order, IntegratorDummy};
use simplex_integration::domain::ResultTypeWrapper;
use simplex_integration::hierarchic::{child_label_vec, get_transformation, Duplicate};
use simplex_integration::integration_2d::Hierarchic2DIntegrator;
use simplex_integration::edge_subdivision_2d::EdgeSubdivisionIntegrator;
use simplex_integration::refinement::{
    fits_below, is_octahedron_domain_number, is_tetrahedron_domain_number, octahedron_transformation,
    tetrahedron_transformation, triangle_transformation, Geometry,
};
use simplex_integration::transform::Transform;
use simplex_integration::cache_tree::NodeData;

#[test]
fn identity_transform() {
    let t = Transform::identity(3);
    assert_eq!(t.denominator, 1);
    assert_eq!(t.entries, vec![vec![1, 0, 0], vec![0, 1, 0], vec![0, 0, 1]]);
}

#[test]
fn dot_multiplies_exactly() {
    let s1 = triangle_transformation(1);
    let s4 = triangle_transformation(4);
    let p = s1.dot(&s4);
    assert_eq!(p.denominator, 4);
    assert_eq!((p.rows, p.cols), (3, 3));
    assert_eq!(p.entries, vec![vec![3, 3, 2], vec![0, 1, 1], vec![1, 0, 1]]);
    let d = p.duplicate();
    assert_eq!(d.entries, p.entries);
    assert_eq!(d.denominator, 4);
}

#[test]
fn octahedron_pieces_are_tetrahedra() {
    let o = tetrahedron_transformation(13);
    assert_eq!((o.rows, o.cols), (4, 6));
    for i in 0..4 {
        let piece = o.dot(&octahedron_transformation(i));
        assert_eq!((piece.rows, piece.cols), (4, 4));
        for j in 0..4 {
            let col: u64 = (0..4).map(|r| piece.entries[r][j]).sum();
            assert_eq!(col, 2);
        }
    }
}

#[test]
fn domain_partition() {
    for n in 0..13u8 {
        assert!(is_tetrahedron_domain_number(n));
        assert!(!is_octahedron_domain_number(n));
    }
    for n in 13..20u8 {
        assert!(!is_tetrahedron_domain_number(n));
        assert!(is_octahedron_domain_number(n));
    }
    assert!(NodeData::new(false, 4).is_simplex_subdomain());
    assert!(NodeData::new(false, 14).is_octahedral_subdomain());
}

#[test]
fn child_labels_per_domain() {
    assert_eq!(child_label_vec(Geometry::Triangle, 0), vec![1, 2, 3, 4]);
    assert_eq!(child_label_vec(Geometry::Tetrahedron, 0), vec![1, 2, 3, 4, 13]);
    assert_eq!(
        child_label_vec(Geometry::Tetrahedron, 13),
        vec![5, 6, 7, 8, 9, 10, 11, 12, 14, 15, 16, 17, 18, 19]
    );
    assert!(fits_below(Geometry::Tetrahedron, 2, 13));
    assert!(!fits_below(Geometry::Tetrahedron, 2, 5));
    assert!(fits_below(Geometry::Tetrahedron, 19, 5));
    assert!(!fits_below(Geometry::Triangle, 0, 5));
}

#[test]
fn transformation_of_label_chain() {
    let t = Transform::identity(3);
    let r = get_transformation(Geometry::Triangle, &t, &vec![4, 1, 0]);
    assert_eq!(r.denominator, 4);
    assert_eq!(r.entries, vec![vec![3, 3, 2], vec![0, 1, 1], vec![1, 0, 1]]);
    let root = get_transformation(Geometry::Triangle, &t, &vec![0]);
    assert_eq!(root.entries, t.entries);
    let tet = get_transformation(Geometry::Tetrahedron, &Transform::identity(4), &vec![5, 13, 0]);
    assert_eq!((tet.rows, tet.cols, tet.denominator), (4, 4, 4));
}

#[test]
fn diagonal_order_of_two_by_two() {
    assert_eq!(get_diagonal_order(1), vec![(0, 0, 0), (1, 1, 1), (2, 0, 1), (3, 1, 0)]);
}

#[test]
fn diagonal_order_of_one_by_one() {
    assert_eq!(get_diagonal_order(0), vec![(0, 0, 0)]);
}

#[test]
fn diagonal_order_of_three_by_three() {
    assert_eq!(
        get_diagonal_order(2),
        vec![
            (0, 0, 0),
            (1, 1, 1),
            (2, 2, 2),
            (3, 0, 1),
            (4, 1, 2),
            (5, 1, 0),
            (6, 2, 1),
            (7, 0, 2),
            (8, 2, 0)
        ]
    );
    assert_eq!(get_diagonal_order(5).len(), 36);
}

#[test]
fn dunavant_multiplicities() {
    assert_eq!(DunavantIntegrator::new(1).get_integration_points_multiplicativity(), vec![1]);
    assert_eq!(DunavantIntegrator::new(2).get_integration_points_multiplicativity(), vec![3]);
    assert_eq!(DunavantIntegrator::new(3).get_integration_points_multiplicativity(), vec![1, 3]);
    assert_eq!(DunavantIntegrator::new(3).dupe().integration_order, 3);
}

#[test]
fn rule_parameters() {
    assert_eq!(Quadrilateral2DIntegrator::new(2).gauss_degree, 2);
    assert_eq!(Quadrilateral3DIntegrator::new(4).gauss_degree, 4);
    let _ = (Constant2DFunction, Constant3DFunction, Multiplicative3DFunction, IntegratorDummy::get());
}

#[test]
fn orientation_checker_vertices() {
    assert_eq!(OrientationChecker::point_order(0), vec![1, 0, 0, 0]);
    assert_eq!(OrientationChecker::point_order(2), vec![0, 0, 1, 0]);
    assert_eq!(OrientationChecker::point_order(3), vec![0, 0, 0, 1]);
    assert_eq!(OrientationChecker::point_order(7), vec![1, 0, 0, 0]);
}

#[test]
fn result_wrapper_round_trip() {
    let w = ResultTypeWrapper::new(2.5f64);
    assert_eq!(*w.get_borrow(), 2.5);
    assert_eq!(w.get(), 2.5);
}

#[test]
fn integrators_duplicate() {
    let inte = Hierarchic2DIntegrator::new(DunavantIntegrator::new(2), true, 0.25f64);
    let copy = inte.dupe();
    assert_eq!(copy.base_integrator.integration_order, 2);
    assert!(copy.consolidated);
    assert_eq!(copy.precision, 0.25);
    let edge = EdgeSubdivisionIntegrator::new(Quadrilateral2DIntegrator::new(3), 5).dupe();
    assert_eq!((edge.order, edge.base_integrator.gauss_degree), (5, 3));
}
