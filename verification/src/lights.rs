//! Point lights: a position in the world and a color intensity.

use vstd::prelude::*;
use crate::tuple::{tuple_approx, Tuple};

verus! {

/// A light with no size, at a point, shining with one intensity.
#[derive(Clone, Copy, Debug)]
pub struct PointLight {
    pub intensity: Tuple,
    pub position: Tuple,
}

impl PointLight {
    /// A light from its position and intensity.
    pub fn new(pos: Tuple, inte: Tuple) -> (r: PointLight)
        ensures
            r.position == pos,
            r.intensity == inte,
    {
        PointLight { position: pos, intensity: inte }
    }
}

impl PartialEq for PointLight {
    /// Lights are equal when both tuples agree within tolerance.
    fn eq(&self, other: &PointLight) -> (r: bool) {
        self.position == other.position && self.intensity == other.intensity
    }
}

impl vstd::std_specs::cmp::PartialEqSpecImpl for PointLight {
    open spec fn obeys_eq_spec() -> bool {
        true
    }

    open spec fn eq_spec(&self, other: &PointLight) -> bool {
        &&& tuple_approx(self.position, other.position)
        &&& tuple_approx(self.intensity, other.intensity)
    }
}

} // verus!
