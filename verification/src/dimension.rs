//! The leaf type of the schema algebra: one axis of a state space.

use crate::model::dim_view;
use crate::space::Space;
use vstd::prelude::*;

verus! {

/// One axis of a state space: an integer scalar, a real scalar (held as the
/// bit pattern of an IEEE 754 double, so the verified core stays free of
/// floating point), or a nested sub-space.
pub enum Dimension {
    Integer { loc: i32 },
    Real { bits: u64 },
    Space(Space),
}

impl Dimension {
    /// Replaces this dimension's payload with the payload of `dim`,
    /// unconditionally: the replacement's own variant decides the result,
    /// whatever variant the old value had.
    pub fn update(&self, dim: Dimension) -> (r: Dimension)
        ensures
            r == dim,
    {
        match dim {
            Dimension::Integer { loc: x } => Dimension::Integer { loc: x },
            Dimension::Real { bits: x } => Dimension::Real { bits: x },
            Dimension::Space(spc) => Dimension::Space(spc),
        }
    }
}

impl Clone for Dimension {
    /// A deep copy: its view equals the original's.
    fn clone(&self) -> (r: Self)
        ensures
            dim_view(r) == dim_view(*self),
        decreases *self,
    {
        match self {
            Dimension::Integer { loc } => Dimension::Integer { loc: *loc },
            Dimension::Real { bits } => Dimension::Real { bits: *bits },
            Dimension::Space(spc) => Dimension::Space(spc.clone()),
        }
    }
}

} // verus!
