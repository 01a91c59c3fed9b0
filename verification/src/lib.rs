use vstd::prelude::*;

pub mod canvas;
pub mod model;
pub mod vec3;

verus! {

} // verus!
