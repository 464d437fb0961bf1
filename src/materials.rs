use vstd::prelude::*;

verus! {

/// A diffuse surface whose color comes from a texture of the world.
#[derive(Clone, Copy, Debug, PartialEq, Eq, Structural)]
pub struct Lambertian {
    texture: usize,
}

impl Lambertian {
    pub closed spec fn spec_texture(self) -> usize {
        self.texture
    }

    /// A diffuse surface colored by the world's texture `texture`.
    pub fn new(texture: usize) -> (r: Self)
        ensures
            r.spec_texture() == texture,
    {
        Lambertian { texture }
    }

    /// The index of its texture in the world.
    pub fn texture(&self) -> (r: usize)
        ensures
            r == self.spec_texture(),
    {
        self.texture
    }
}

/// A surface that scatters nothing and emits the color of a texture.
#[derive(Clone, Copy, Debug, PartialEq, Eq, Structural)]
pub struct EmissiveDiffuse {
    texture: usize,
}

impl EmissiveDiffuse {
    pub closed spec fn spec_texture(self) -> usize {
        self.texture
    }

    /// An emitter of the color of the world's texture `texture`.
    pub fn new(texture: usize) -> (r: Self)
        ensures
            r.spec_texture() == texture,
    {
        EmissiveDiffuse { texture }
    }

    /// The index of its texture in the world.
    pub fn texture(&self) -> (r: usize)
        ensures
            r == self.spec_texture(),
    {
        self.texture
    }
}

} // verus!
