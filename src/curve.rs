//! Points of the BN254 curve (G1) and of its twist (G2), by coordinates.
use crate::field::{Fq, Fq2};
use vstd::prelude::*;

verus! {

/// An affine point of G1: `(x, y)`, or the point at infinity.
#[derive(Clone, Copy, Debug, PartialEq, Eq)]
pub struct G1Affine {
    pub x: Fq,
    pub y: Fq,
    pub infinity: bool,
}

/// An affine point of G2, with coordinates in the quadratic extension.
#[derive(Clone, Copy, Debug, PartialEq, Eq)]
pub struct G2Affine {
    pub x: Fq2,
    pub y: Fq2,
    pub infinity: bool,
}

/// A point of G1 in Jacobian coordinates; `z` is zero only at infinity.
#[derive(Clone, Copy, Debug, PartialEq, Eq)]
pub struct G1Projective {
    pub x: Fq,
    pub y: Fq,
    pub z: Fq,
}

impl G1Affine {
    /// Coordinates are canonical field elements.
    pub open spec fn wf(self) -> bool {
        self.x.wf() && self.y.wf()
    }

    /// Canonical coordinates, and not the point at infinity.
    pub open spec fn is_finite(self) -> bool {
        self.wf() && !self.infinity
    }

    /// Whether the coordinates are canonical.
    pub fn is_valid(&self) -> (res: bool)
        ensures
            res == self.wf(),
    {
        self.x.is_valid() && self.y.is_valid()
    }
}

impl G2Affine {
    /// Coordinates are canonical field elements.
    pub open spec fn wf(self) -> bool {
        self.x.wf() && self.y.wf()
    }

    /// Canonical coordinates, and not the point at infinity.
    pub open spec fn is_finite(self) -> bool {
        self.wf() && !self.infinity
    }

    /// Whether the coordinates are canonical.
    pub fn is_valid(&self) -> (res: bool)
        ensures
            res == self.wf(),
    {
        self.x.is_valid() && self.y.is_valid()
    }
}

impl G1Projective {
    /// Coordinates are canonical field elements.
    pub open spec fn wf(self) -> bool {
        self.x.wf() && self.y.wf() && self.z.wf()
    }

    /// Whether the coordinates are canonical.
    pub fn is_valid(&self) -> (res: bool)
        ensures
            res == self.wf(),
    {
        self.x.is_valid() && self.y.is_valid() && self.z.is_valid()
    }
}

impl DeepView for G1Affine {
    type V = G1Affine;

    open spec fn deep_view(&self) -> G1Affine {
        *self
    }
}

impl DeepView for G2Affine {
    type V = G2Affine;

    open spec fn deep_view(&self) -> G2Affine {
        *self
    }
}

impl DeepView for G1Projective {
    type V = G1Projective;

    open spec fn deep_view(&self) -> G1Projective {
        *self
    }
}

} // verus!
