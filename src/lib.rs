use vstd::prelude::*;

pub mod aabb;
pub mod axis;
pub mod bvh;
pub mod materials;
pub mod mesh;
pub mod pixel_map;
pub mod random;
pub mod render;
pub mod world;

verus! {

} // verus!
