//! A composable schema algebra for describing the state space of a simulated
//! system: named collections of typed dimensions (integer scalar, real scalar,
//! or a nested sub-space) combined by cartesian product, disjoint merge and
//! repeated self-product.

pub mod dimension;
pub mod model;
pub mod schema;
pub mod space;
pub mod text;
