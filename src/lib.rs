//! A ray tracer's verified core: the depth-bounded walk of the radiance
//! integrator, the scene's list of objects, and the layout of rendered pixels
//! into an RGB image.
use vstd::prelude::*;

pub mod frame;
pub mod hittable_list;
pub mod radiance;

verus! {

} // verus!
