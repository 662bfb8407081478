//! The fixed geometry of the refinement: the child transformation of every label, and
//! the labels that may follow one another in a cache tree.
use crate::transform::{col_sum, Mat, Transform};
use vstd::prelude::*;

verus! {

/// Label of the root node: the whole simplex.
pub const ROOT_LABEL: u8 = 0;

/// Largest label of the three-dimensional alphabet.
pub const MAX_LABEL: u8 = 19;

/// First label of the octahedron range; every label below it denotes a tetrahedron.
pub const FIRST_OCTAHEDRON_LABEL: u8 = 13;

/// The two families of simplices that the integrator refines.
#[derive(Clone, Copy, PartialEq, Eq, Structural, Debug)]
pub enum Geometry {
    /// Triangles, split into four congruent sub-triangles.
    Triangle,
    /// Tetrahedra, red-refined into tetrahedra and octahedra.
    Tetrahedron,
}

/// The partition of the three-dimensional alphabet: labels below 13 are tetrahedra.
pub open spec fn is_tetrahedron_label(num: u8) -> bool {
    num < FIRST_OCTAHEDRON_LABEL
}

/// Decides the partition of the three-dimensional alphabet: whether a label denotes a
/// tetrahedron. Every other piece of code asks this function.
pub fn is_tetrahedron_domain_number(num: u8) -> (r: bool)
    requires
        num <= MAX_LABEL,
    ensures
        r == is_tetrahedron_label(num),
{
    num < FIRST_OCTAHEDRON_LABEL
}

/// Whether a label of the three-dimensional alphabet denotes an octahedron.
pub fn is_octahedron_domain_number(num: u8) -> (r: bool)
    requires
        num <= MAX_LABEL,
    ensures
        r == !is_tetrahedron_label(num),
{
    !is_tetrahedron_domain_number(num)
}

/// The labels of the children that refining a node labelled `parent` creates, in order.
pub open spec fn child_labels(g: Geometry, parent: u8) -> Seq<u8> {
    match g {
        Geometry::Triangle => seq![1u8, 2, 3, 4],
        Geometry::Tetrahedron => if is_tetrahedron_label(parent) {
            seq![1u8, 2, 3, 4, 13]
        } else {
            seq![5u8, 6, 7, 8, 9, 10, 11, 12, 14, 15, 16, 17, 18, 19]
        },
    }
}

/// A label that may stand below a node labelled `parent`.
pub open spec fn is_child_label(g: Geometry, parent: u8, label: u8) -> bool {
    child_labels(g, parent).contains(label)
}

/// Whether `label` may stand below a node labelled `parent`.
pub fn fits_below(g: Geometry, parent: u8, label: u8) -> (r: bool)
    requires
        parent <= MAX_LABEL,
    ensures
        r == is_child_label(g, parent, label),
{
    let cs = Ghost(child_labels(g, parent));
    let r = match g {
        Geometry::Triangle => 1 <= label && label <= 4,
        Geometry::Tetrahedron => if is_tetrahedron_domain_number(parent) {
            (1 <= label && label <= 4) || label == 13
        } else {
            (5 <= label && label <= 12) || (14 <= label && label <= 19)
        },
    };
    proof {
        if r {
            let i: int = match g {
                Geometry::Triangle => label - 1,
                Geometry::Tetrahedron => if is_tetrahedron_label(parent) {
                    if label == 13 {
                        4
                    } else {
                        label - 1
                    }
                } else if label <= 12 {
                    label - 5
                } else {
                    label - 6
                },
            };
            assert(cs@[i] == label);
        } else {
            assert forall|i: int| 0 <= i < cs@.len() implies cs@[i] != label by {}
        }
    }
    r
}

/// Child labels are labels of the alphabet.
pub proof fn lemma_child_label_bound(g: Geometry, parent: u8, label: u8)
    requires
        is_child_label(g, parent, label),
    ensures
        1 <= label <= MAX_LABEL,
{
    let cs = child_labels(g, parent);
    let i = choose|i: int| 0 <= i < cs.len() && cs[i] == label;
    assert(forall|j: int| 0 <= j < cs.len() ==> 1 <= #[trigger] cs[j] <= MAX_LABEL);
}

/// Number of barycentric coordinates of the region a label denotes: three for a
/// triangle, four for a tetrahedron, six for an octahedron.
pub open spec fn label_coords(g: Geometry, label: u8) -> nat {
    match g {
        Geometry::Triangle => 3,
        Geometry::Tetrahedron => if is_tetrahedron_label(label) {
            4
        } else {
            6
        },
    }
}

/// Number of barycentric coordinates of the whole simplex.
pub open spec fn simplex_coords(g: Geometry) -> nat {
    match g {
        Geometry::Triangle => 3,
        Geometry::Tetrahedron => 4,
    }
}

/// The transformation that places the child `label` inside its parent.
pub open spec fn subdivision_matrix(g: Geometry, label: u8) -> Mat {
    match g {
        Geometry::Triangle => triangle_matrix(label),
        Geometry::Tetrahedron => tetrahedron_matrix(label),
    }
}

/// What every table satisfies: a barycentric map with entries in `[0, 1]`.
pub open spec fn table_ok(m: Mat) -> bool {
    &&& m.shaped()
    &&& m.bounded()
    &&& m.column_stochastic()
    &&& 1 <= m.den <= 2
}

/// Numerators (over 2) of the four sub-triangles of the uniform split: three corner
/// triangles, then the central one.
pub open spec fn triangle_matrix(label: u8) -> Mat {
    match label {
        1 => Mat { rows: 3, cols: 3, den: 2, e: seq![seq![2int, 1, 1], seq![0int, 1, 0], seq![0int, 0, 1]] },
        2 => Mat { rows: 3, cols: 3, den: 2, e: seq![seq![0int, 0, 1], seq![2int, 1, 1], seq![0int, 1, 0]] },
        3 => Mat { rows: 3, cols: 3, den: 2, e: seq![seq![0int, 1, 0], seq![0int, 0, 1], seq![2int, 1, 1]] },
        _ => Mat { rows: 3, cols: 3, den: 2, e: seq![seq![1int, 1, 0], seq![0int, 1, 1], seq![1int, 0, 1]] },
    }
}

/// Numerators (over 2) of the nineteen child positions of the red refinement: labels 1-4
/// are the corner tetrahedra of a tetrahedron, 5-12 the tetrahedra of an octahedron, 13 the
/// central octahedron of a tetrahedron and 14-19 the octahedra of an octahedron.
pub open spec fn tetrahedron_matrix(label: u8) -> Mat {
    match label {
        1 => Mat { rows: 4, cols: 4, den: 2, e: seq![seq![2int, 1, 1, 1], seq![0int, 1, 0, 0], seq![0int, 0, 1, 0], seq![0int, 0, 0, 1]] },
        2 => Mat { rows: 4, cols: 4, den: 2, e: seq![seq![1int, 0, 0, 0], seq![1int, 2, 1, 1], seq![0int, 0, 1, 0], seq![0int, 0, 0, 1]] },
        3 => Mat { rows: 4, cols: 4, den: 2, e: seq![seq![1int, 0, 0, 0], seq![0int, 1, 0, 0], seq![1int, 1, 2, 1], seq![0int, 0, 0, 1]] },
        4 => Mat { rows: 4, cols: 4, den: 2, e: seq![seq![1int, 0, 0, 0], seq![0int, 1, 0, 0], seq![0int, 0, 1, 0], seq![1int, 1, 1, 2]] },
        5 => Mat { rows: 6, cols: 4, den: 2, e: seq![seq![1int, 1, 0, 1], seq![0int, 1, 1, 0], seq![1int, 0, 1, 0], seq![0int, 0, 0, 0], seq![0int, 0, 0, 0], seq![0int, 0, 0, 1]] },
        6 => Mat { rows: 6, cols: 4, den: 2, e: seq![seq![1int, 0, 1, 1], seq![0int, 0, 0, 0], seq![1int, 1, 0, 0], seq![0int, 1, 1, 0], seq![0int, 0, 0, 0], seq![0int, 0, 0, 1]] },
        7 => Mat { rows: 6, cols: 4, den: 2, e: seq![seq![1int, 0, 1, 1], seq![0int, 0, 0, 0], seq![0int, 0, 0, 0], seq![1int, 1, 0, 0], seq![0int, 1, 1, 0], seq![0int, 0, 0, 1]] },
        8 => Mat { rows: 6, cols: 4, den: 2, e: seq![seq![0int, 0, 0, 1], seq![0int, 0, 0, 0], seq![0int, 0, 0, 0], seq![1int, 1, 0, 0], seq![1int, 0, 1, 0], seq![0int, 1, 1, 1]] },
        9 => Mat { rows: 6, cols: 4, den: 2, e: seq![seq![0int, 0, 0, 1], seq![0int, 0, 0, 0], seq![1int, 0, 1, 0], seq![0int, 1, 1, 0], seq![0int, 0, 0, 0], seq![1int, 1, 0, 1]] },
        10 => Mat { rows: 6, cols: 4, den: 2, e: seq![seq![0int, 0, 0, 1], seq![1int, 1, 0, 0], seq![1int, 0, 1, 0], seq![0int, 0, 0, 0], seq![0int, 0, 0, 0], seq![0int, 1, 1, 1]] },
        11 => Mat { rows: 6, cols: 4, den: 2, e: seq![seq![0int, 1, 0, 1], seq![1int, 1, 1, 0], seq![1int, 0, 0, 0], seq![0int, 0, 0, 0], seq![0int, 0, 1, 0], seq![0int, 0, 0, 1]] },
        12 => Mat { rows: 6, cols: 4, den: 2, e: seq![seq![0int, 0, 0, 1], seq![1int, 0, 1, 0], seq![0int, 0, 0, 0], seq![0int, 0, 0, 0], seq![1int, 1, 0, 0], seq![0int, 1, 1, 1]] },
        13 => Mat { rows: 4, cols: 6, den: 2, e: seq![seq![1int, 0, 1, 1, 0, 0], seq![1int, 1, 0, 0, 1, 0], seq![0int, 1, 1, 0, 0, 1], seq![0int, 0, 0, 1, 1, 1]] },
        14 => Mat { rows: 6, cols: 6, den: 2, e: seq![seq![2int, 1, 1, 1, 1, 1], seq![0int, 0, 0, 0, 1, 0], seq![0int, 1, 0, 0, 0, 0], seq![0int, 0, 1, 0, 0, 0], seq![0int, 0, 0, 1, 0, 0], seq![0int, 0, 0, 0, 0, 1]] },
        15 => Mat { rows: 6, cols: 6, den: 2, e: seq![seq![1int, 0, 0, 1, 0, 0], seq![1int, 2, 1, 0, 1, 1], seq![0int, 0, 1, 0, 0, 0], seq![0int, 0, 0, 0, 0, 0], seq![0int, 0, 0, 0, 1, 0], seq![0int, 0, 0, 1, 0, 1]] },
        16 => Mat { rows: 6, cols: 6, den: 2, e: seq![seq![1int, 0, 0, 1, 0, 0], seq![0int, 0, 0, 0, 1, 0], seq![1int, 2, 1, 0, 1, 1], seq![0int, 0, 1, 0, 0, 0], seq![0int, 0, 0, 0, 0, 0], seq![0int, 0, 0, 1, 0, 1]] },
        17 => Mat { rows: 6, cols: 6, den: 2, e: seq![seq![1int, 0, 0, 1, 0, 0], seq![0int, 0, 0, 0, 0, 0], seq![0int, 0, 0, 0, 1, 0], seq![1int, 2, 1, 0, 1, 1], seq![0int, 0, 1, 0, 0, 0], seq![0int, 0, 0, 1, 0, 1]] },
        18 => Mat { rows: 6, cols: 6, den: 2, e: seq![seq![1int, 0, 0, 1, 0, 0], seq![0int, 0, 1, 0, 0, 0], seq![0int, 0, 0, 0, 0, 0], seq![0int, 0, 0, 0, 1, 1], seq![1int, 2, 1, 0, 1, 0], seq![0int, 0, 0, 1, 0, 1]] },
        _ => Mat { rows: 6, cols: 6, den: 2, e: seq![seq![1int, 0, 0, 0, 0, 0], seq![0int, 0, 0, 0, 1, 0], seq![0int, 1, 0, 0, 0, 0], seq![0int, 0, 1, 0, 0, 0], seq![0int, 0, 0, 1, 0, 0], seq![1int, 1, 1, 1, 1, 2]] },
    }
}

/// The four tetrahedra (0/1 entries) into which an octahedron is cut along one fixed
/// diagonal, in the octahedron's six vertex coordinates.
pub open spec fn octahedron_matrix(i: u8) -> Mat {
    match i {
        0 => Mat { rows: 6, cols: 4, den: 1, e: seq![seq![0int, 0, 1, 0], seq![0int, 0, 0, 0], seq![1int, 0, 0, 0], seq![0int, 1, 0, 0], seq![0int, 0, 0, 1], seq![0int, 0, 0, 0]] },
        1 => Mat { rows: 6, cols: 4, den: 1, e: seq![seq![0int, 1, 0, 0], seq![0int, 0, 1, 0], seq![1int, 0, 0, 0], seq![0int, 0, 0, 0], seq![0int, 0, 0, 1], seq![0int, 0, 0, 0]] },
        2 => Mat { rows: 6, cols: 4, den: 1, e: seq![seq![0int, 0, 0, 0], seq![0int, 1, 0, 0], seq![1int, 0, 0, 0], seq![0int, 0, 0, 0], seq![0int, 0, 0, 1], seq![0int, 0, 1, 0]] },
        _ => Mat { rows: 6, cols: 4, den: 1, e: seq![seq![0int, 0, 0, 0], seq![0int, 0, 0, 0], seq![1int, 0, 0, 0], seq![0int, 0, 1, 0], seq![0int, 0, 0, 1], seq![0int, 1, 0, 0]] },
    }
}

/// Every triangle table is a barycentric map with entries in `[0, 1]`.
proof fn lemma_triangle_matrix(label: u8)
    requires
        1 <= label <= 4,
    ensures
        table_ok(triangle_matrix(label)),
{
    reveal_with_fuel(col_sum, 7);
    let m = triangle_matrix(label);
    assert(label == 1 || label == 2 || label == 3 || label == 4);
    assert forall|a: int| 0 <= a < m.rows implies #[trigger] m.e[a].len() == m.cols by {
        assert(a == 0 || a == 1 || a == 2);
    }
    assert forall|a: int, b: int| 0 <= a < m.rows && 0 <= b < m.cols implies 0 <= #[trigger] m.e[a][b] <= m.den by {
        assert(a == 0 || a == 1 || a == 2);
        assert(b == 0 || b == 1 || b == 2);
    }
    assert forall|b: int| 0 <= b < m.cols implies #[trigger] col_sum(m.e, b, m.rows) == m.den by {
        assert(b == 0 || b == 1 || b == 2);
    }
}

/// Every tetrahedron table is a barycentric map with entries in `[0, 1]`.
proof fn lemma_tetrahedron_matrix(label: u8)
    requires
        1 <= label <= 19,
    ensures
        table_ok(tetrahedron_matrix(label)),
{
    reveal_with_fuel(col_sum, 7);
    let m = tetrahedron_matrix(label);
    assert(label == 1 || label == 2 || label == 3 || label == 4 || label == 5 || label == 6 || label == 7 || label == 8 || label == 9 || label == 10 || label == 11 || label == 12 || label == 13 || label == 14 || label == 15 || label == 16 || label == 17 || label == 18 || label == 19);
    assert forall|a: int| 0 <= a < m.rows implies #[trigger] m.e[a].len() == m.cols by {
        assert(a == 0 || a == 1 || a == 2 || a == 3 || a == 4 || a == 5);
    }
    assert forall|a: int, b: int| 0 <= a < m.rows && 0 <= b < m.cols implies 0 <= #[trigger] m.e[a][b] <= m.den by {
        assert(a == 0 || a == 1 || a == 2 || a == 3 || a == 4 || a == 5);
        assert(b == 0 || b == 1 || b == 2 || b == 3 || b == 4 || b == 5);
    }
    assert forall|b: int| 0 <= b < m.cols implies #[trigger] col_sum(m.e, b, m.rows) == m.den by {
        assert(b == 0 || b == 1 || b == 2 || b == 3 || b == 4 || b == 5);
    }
}

/// Every octahedron table is a barycentric map with entries in `[0, 1]`.
proof fn lemma_octahedron_matrix(i: u8)
    requires
        0 <= i <= 3,
    ensures
        table_ok(octahedron_matrix(i)),
{
    reveal_with_fuel(col_sum, 7);
    let m = octahedron_matrix(i);
    assert(i == 0 || i == 1 || i == 2 || i == 3);
    assert forall|a: int| 0 <= a < m.rows implies #[trigger] m.e[a].len() == m.cols by {
        assert(a == 0 || a == 1 || a == 2 || a == 3 || a == 4 || a == 5);
    }
    assert forall|a: int, b: int| 0 <= a < m.rows && 0 <= b < m.cols implies 0 <= #[trigger] m.e[a][b] <= m.den by {
        assert(a == 0 || a == 1 || a == 2 || a == 3 || a == 4 || a == 5);
        assert(b == 0 || b == 1 || b == 2 || b == 3);
    }
    assert forall|b: int| 0 <= b < m.cols implies #[trigger] col_sum(m.e, b, m.rows) == m.den by {
        assert(b == 0 || b == 1 || b == 2 || b == 3);
    }
}

/// The exact transformation of triangle_matrix.
pub fn triangle_transformation(label: u8) -> (r: Transform)
    requires
        1 <= label <= 4,
    ensures
        r@ == triangle_matrix(label),
        r.wf(),
        r@.column_stochastic(),
{
    proof {
        lemma_triangle_matrix(label);
    }
    let r = match label {
        1 => Transform { rows: 3, cols: 3, denominator: 2, entries: vec![vec![2, 1, 1], vec![0, 1, 0], vec![0, 0, 1]] },
        2 => Transform { rows: 3, cols: 3, denominator: 2, entries: vec![vec![0, 0, 1], vec![2, 1, 1], vec![0, 1, 0]] },
        3 => Transform { rows: 3, cols: 3, denominator: 2, entries: vec![vec![0, 1, 0], vec![0, 0, 1], vec![2, 1, 1]] },
        _ => Transform { rows: 3, cols: 3, denominator: 2, entries: vec![vec![1, 1, 0], vec![0, 1, 1], vec![1, 0, 1]] },
    };
    assert(r@.e =~~= triangle_matrix(label).e);
    r
}

/// The exact transformation of tetrahedron_matrix.
pub fn tetrahedron_transformation(label: u8) -> (r: Transform)
    requires
        1 <= label <= 19,
    ensures
        r@ == tetrahedron_matrix(label),
        r.wf(),
        r@.column_stochastic(),
{
    proof {
        lemma_tetrahedron_matrix(label);
    }
    let r = match label {
        1 => Transform { rows: 4, cols: 4, denominator: 2, entries: vec![vec![2, 1, 1, 1], vec![0, 1, 0, 0], vec![0, 0, 1, 0], vec![0, 0, 0, 1]] },
        2 => Transform { rows: 4, cols: 4, denominator: 2, entries: vec![vec![1, 0, 0, 0], vec![1, 2, 1, 1], vec![0, 0, 1, 0], vec![0, 0, 0, 1]] },
        3 => Transform { rows: 4, cols: 4, denominator: 2, entries: vec![vec![1, 0, 0, 0], vec![0, 1, 0, 0], vec![1, 1, 2, 1], vec![0, 0, 0, 1]] },
        4 => Transform { rows: 4, cols: 4, denominator: 2, entries: vec![vec![1, 0, 0, 0], vec![0, 1, 0, 0], vec![0, 0, 1, 0], vec![1, 1, 1, 2]] },
        5 => Transform { rows: 6, cols: 4, denominator: 2, entries: vec![vec![1, 1, 0, 1], vec![0, 1, 1, 0], vec![1, 0, 1, 0], vec![0, 0, 0, 0], vec![0, 0, 0, 0], vec![0, 0, 0, 1]] },
        6 => Transform { rows: 6, cols: 4, denominator: 2, entries: vec![vec![1, 0, 1, 1], vec![0, 0, 0, 0], vec![1, 1, 0, 0], vec![0, 1, 1, 0], vec![0, 0, 0, 0], vec![0, 0, 0, 1]] },
        7 => Transform { rows: 6, cols: 4, denominator: 2, entries: vec![vec![1, 0, 1, 1], vec![0, 0, 0, 0], vec![0, 0, 0, 0], vec![1, 1, 0, 0], vec![0, 1, 1, 0], vec![0, 0, 0, 1]] },
        8 => Transform { rows: 6, cols: 4, denominator: 2, entries: vec![vec![0, 0, 0, 1], vec![0, 0, 0, 0], vec![0, 0, 0, 0], vec![1, 1, 0, 0], vec![1, 0, 1, 0], vec![0, 1, 1, 1]] },
        9 => Transform { rows: 6, cols: 4, denominator: 2, entries: vec![vec![0, 0, 0, 1], vec![0, 0, 0, 0], vec![1, 0, 1, 0], vec![0, 1, 1, 0], vec![0, 0, 0, 0], vec![1, 1, 0, 1]] },
        10 => Transform { rows: 6, cols: 4, denominator: 2, entries: vec![vec![0, 0, 0, 1], vec![1, 1, 0, 0], vec![1, 0, 1, 0], vec![0, 0, 0, 0], vec![0, 0, 0, 0], vec![0, 1, 1, 1]] },
        11 => Transform { rows: 6, cols: 4, denominator: 2, entries: vec![vec![0, 1, 0, 1], vec![1, 1, 1, 0], vec![1, 0, 0, 0], vec![0, 0, 0, 0], vec![0, 0, 1, 0], vec![0, 0, 0, 1]] },
        12 => Transform { rows: 6, cols: 4, denominator: 2, entries: vec![vec![0, 0, 0, 1], vec![1, 0, 1, 0], vec![0, 0, 0, 0], vec![0, 0, 0, 0], vec![1, 1, 0, 0], vec![0, 1, 1, 1]] },
        13 => Transform { rows: 4, cols: 6, denominator: 2, entries: vec![vec![1, 0, 1, 1, 0, 0], vec![1, 1, 0, 0, 1, 0], vec![0, 1, 1, 0, 0, 1], vec![0, 0, 0, 1, 1, 1]] },
        14 => Transform { rows: 6, cols: 6, denominator: 2, entries: vec![vec![2, 1, 1, 1, 1, 1], vec![0, 0, 0, 0, 1, 0], vec![0, 1, 0, 0, 0, 0], vec![0, 0, 1, 0, 0, 0], vec![0, 0, 0, 1, 0, 0], vec![0, 0, 0, 0, 0, 1]] },
        15 => Transform { rows: 6, cols: 6, denominator: 2, entries: vec![vec![1, 0, 0, 1, 0, 0], vec![1, 2, 1, 0, 1, 1], vec![0, 0, 1, 0, 0, 0], vec![0, 0, 0, 0, 0, 0], vec![0, 0, 0, 0, 1, 0], vec![0, 0, 0, 1, 0, 1]] },
        16 => Transform { rows: 6, cols: 6, denominator: 2, entries: vec![vec![1, 0, 0, 1, 0, 0], vec![0, 0, 0, 0, 1, 0], vec![1, 2, 1, 0, 1, 1], vec![0, 0, 1, 0, 0, 0], vec![0, 0, 0, 0, 0, 0], vec![0, 0, 0, 1, 0, 1]] },
        17 => Transform { rows: 6, cols: 6, denominator: 2, entries: vec![vec![1, 0, 0, 1, 0, 0], vec![0, 0, 0, 0, 0, 0], vec![0, 0, 0, 0, 1, 0], vec![1, 2, 1, 0, 1, 1], vec![0, 0, 1, 0, 0, 0], vec![0, 0, 0, 1, 0, 1]] },
        18 => Transform { rows: 6, cols: 6, denominator: 2, entries: vec![vec![1, 0, 0, 1, 0, 0], vec![0, 0, 1, 0, 0, 0], vec![0, 0, 0, 0, 0, 0], vec![0, 0, 0, 0, 1, 1], vec![1, 2, 1, 0, 1, 0], vec![0, 0, 0, 1, 0, 1]] },
        _ => Transform { rows: 6, cols: 6, denominator: 2, entries: vec![vec![1, 0, 0, 0, 0, 0], vec![0, 0, 0, 0, 1, 0], vec![0, 1, 0, 0, 0, 0], vec![0, 0, 1, 0, 0, 0], vec![0, 0, 0, 1, 0, 0], vec![1, 1, 1, 1, 1, 2]] },
    };
    assert(r@.e =~~= tetrahedron_matrix(label).e);
    r
}

/// The exact transformation of octahedron_matrix.
pub fn octahedron_transformation(i: u8) -> (r: Transform)
    requires
        0 <= i <= 3,
    ensures
        r@ == octahedron_matrix(i),
        r.denominator == 1,
        r.rows == 6,
        r.cols == 4,
        r.wf(),
        r@.column_stochastic(),
{
    proof {
        lemma_octahedron_matrix(i);
    }
    let r = match i {
        0 => Transform { rows: 6, cols: 4, denominator: 1, entries: vec![vec![0, 0, 1, 0], vec![0, 0, 0, 0], vec![1, 0, 0, 0], vec![0, 1, 0, 0], vec![0, 0, 0, 1], vec![0, 0, 0, 0]] },
        1 => Transform { rows: 6, cols: 4, denominator: 1, entries: vec![vec![0, 1, 0, 0], vec![0, 0, 1, 0], vec![1, 0, 0, 0], vec![0, 0, 0, 0], vec![0, 0, 0, 1], vec![0, 0, 0, 0]] },
        2 => Transform { rows: 6, cols: 4, denominator: 1, entries: vec![vec![0, 0, 0, 0], vec![0, 1, 0, 0], vec![1, 0, 0, 0], vec![0, 0, 0, 0], vec![0, 0, 0, 1], vec![0, 0, 1, 0]] },
        _ => Transform { rows: 6, cols: 4, denominator: 1, entries: vec![vec![0, 0, 0, 0], vec![0, 0, 0, 0], vec![1, 0, 0, 0], vec![0, 0, 1, 0], vec![0, 0, 0, 1], vec![0, 1, 0, 0]] },
    };
    assert(r@.e =~~= octahedron_matrix(i).e);
    r
}

/// Shape and soundness of the table of a child label.
pub proof fn lemma_subdivision_matrix(g: Geometry, parent: u8, label: u8)
    requires
        is_child_label(g, parent, label),
    ensures
        table_ok(subdivision_matrix(g, label)),
        subdivision_matrix(g, label).rows == label_coords(g, parent),
        subdivision_matrix(g, label).cols == label_coords(g, label),
{
    match g {
        Geometry::Triangle => {
            assert(1 <= label <= 4) by {
                assert(child_labels(g, parent)[0] == 1);
            }
            lemma_triangle_matrix(label);
        },
        Geometry::Tetrahedron => {
            lemma_tetrahedron_matrix(label);
        },
    }
}

/// The exact transformation of the child `label` of a node labelled `parent`.
pub(crate) fn subdivision_transformation(g: Geometry, parent: Ghost<u8>, label: u8) -> (r: Transform)
    requires
        is_child_label(g, parent@, label),
    ensures
        r@ == subdivision_matrix(g, label),
        r.wf(),
        r@.column_stochastic(),
        r@.rows == label_coords(g, parent@),
        r@.cols == label_coords(g, label),
        r.denominator == 2,
{
    proof {
        lemma_subdivision_matrix(g, parent@, label);
    }
    match g {
        Geometry::Triangle => triangle_transformation(label),
        Geometry::Tetrahedron => tetrahedron_transformation(label),
    }
}

} // verus!
