//! Adaptive hierarchical integration over triangles and tetrahedra.
//!
//! The floating-point side (quadrature tables, integrands, simplices) is supplied by
//! the caller through the traits of [`hierarchic`]; this crate owns the exact geometry of
//! the sub-regions and the cache tree that records the adaptive refinement.
pub mod base_rules;
pub mod common;
pub mod domain;
pub mod edge_subdivision_2d;
pub mod edge_subdivision_3d;
pub mod grid;
pub mod transform;
pub mod refinement;
pub mod cache_tree;
pub mod hierarchic;
pub mod integration_2d;
pub mod integration_3d;
pub mod laws;
