use vstd::prelude::*;

use crate::random::choose_one;

verus! {

/// Render parameters of a fresh world.
pub const DEFAULT_WIDTH: u32 = 800;

pub const DEFAULT_SAMPLES_PER_PIXEL: u32 = 128;

pub const DEFAULT_MAX_DEPTH: u32 = 50;

/// The render parameters, each at least 1.
#[derive(Clone, Copy, Debug, PartialEq, Eq, Structural)]
pub struct RenderParams {
    width: u32,
    samples_per_pixel: u32,
    max_depth: u32,
}

impl RenderParams {
    #[verifier::type_invariant]
    closed spec fn inv(self) -> bool {
        &&& self.width >= 1
        &&& self.samples_per_pixel >= 1
        &&& self.max_depth >= 1
    }

    pub closed spec fn spec_width(self) -> u32 {
        self.width
    }

    pub closed spec fn spec_samples_per_pixel(self) -> u32 {
        self.samples_per_pixel
    }

    pub closed spec fn spec_max_depth(self) -> u32 {
        self.max_depth
    }

    pub fn new(width: u32, samples_per_pixel: u32, max_depth: u32) -> (r: Self)
        requires
            width >= 1,
            samples_per_pixel >= 1,
            max_depth >= 1,
        ensures
            r.spec_width() == width,
            r.spec_samples_per_pixel() == samples_per_pixel,
            r.spec_max_depth() == max_depth,
    {
        RenderParams { width, samples_per_pixel, max_depth }
    }

    /// The image width in pixels.
    pub fn width(&self) -> (r: u32)
        ensures
            r == self.spec_width(),
            r >= 1,
    {
        proof {
            use_type_invariant(self);
        }
        self.width
    }

    /// The number of paths traced through each pixel.
    pub fn samples_per_pixel(&self) -> (r: u32)
        ensures
            r == self.spec_samples_per_pixel(),
            r >= 1,
    {
        proof {
            use_type_invariant(self);
        }
        self.samples_per_pixel
    }

    /// The number of bounces after which a path is cut.
    pub fn max_depth(&self) -> (r: u32)
        ensures
            r == self.spec_max_depth(),
            r >= 1,
    {
        proof {
            use_type_invariant(self);
        }
        self.max_depth
    }
}

/// A scene: its geometries `G`, which of them are lights, the textures `T` its
/// materials refer to by index, the environment `S` seen by rays that escape,
/// and the render parameters.
pub struct World<G, T, S> {
    objects: Vec<G>,
    lights: Vec<usize>,
    textures: Vec<T>,
    skybox: S,
    params: RenderParams,
}

impl<G, T, S> World<G, T, S> {
    /// Every light is one of the objects.
    pub open spec fn wf(self) -> bool {
        forall|k: int| 0 <= k < self.spec_lights().len() ==> #[trigger] self.spec_lights()[k] < self.spec_objects().len()
    }

    pub closed spec fn spec_objects(self) -> Seq<G> {
        self.objects@
    }

    /// The lights, as indices into the objects.
    pub closed spec fn spec_lights(self) -> Seq<usize> {
        self.lights@
    }

    pub closed spec fn spec_textures(self) -> Seq<T> {
        self.textures@
    }

    pub closed spec fn spec_skybox(self) -> S {
        self.skybox
    }

    pub closed spec fn spec_params(self) -> RenderParams {
        self.params
    }

    pub open spec fn spec_width(self) -> u32 {
        self.spec_params().spec_width()
    }

    pub open spec fn spec_samples_per_pixel(self) -> u32 {
        self.spec_params().spec_samples_per_pixel()
    }

    pub open spec fn spec_max_depth(self) -> u32 {
        self.spec_params().spec_max_depth()
    }

    /// An empty world seen against `skybox`, with the default parameters.
    pub fn new(skybox: S) -> (r: Self)
        ensures
            r.spec_objects().len() == 0,
            r.spec_lights().len() == 0,
            r.spec_textures().len() == 0,
            r.spec_skybox() == skybox,
            r.spec_width() == DEFAULT_WIDTH,
            r.spec_samples_per_pixel() == DEFAULT_SAMPLES_PER_PIXEL,
            r.spec_max_depth() == DEFAULT_MAX_DEPTH,
            r.wf(),
    {
        World {
            objects: Vec::new(),
            lights: Vec::new(),
            textures: Vec::new(),
            skybox,
            params: RenderParams::new(DEFAULT_WIDTH, DEFAULT_SAMPLES_PER_PIXEL, DEFAULT_MAX_DEPTH),
        }
    }

    /// The same world rendered `width` pixels wide.
    pub fn width(self, width: u32) -> (r: Self)
        requires
            width >= 1,
        ensures
            r.spec_width() == width,
            r.spec_samples_per_pixel() == self.spec_samples_per_pixel(),
            r.spec_max_depth() == self.spec_max_depth(),
            r.spec_objects() == self.spec_objects(),
            r.spec_lights() == self.spec_lights(),
            r.spec_textures() == self.spec_textures(),
            r.spec_skybox() == self.spec_skybox(),
            self.wf() ==> r.wf(),
    {
        let params = RenderParams::new(width, self.params.samples_per_pixel(), self.params.max_depth());
        let r = World { params, ..self };
        assert(r.spec_lights() == self.spec_lights() && r.spec_objects() == self.spec_objects());
        r
    }

    /// The same world rendered with `samples_per_pixel` samples in each pixel.
    pub fn samples_per_pixel(self, samples_per_pixel: u32) -> (r: Self)
        requires
            samples_per_pixel >= 1,
        ensures
            r.spec_width() == self.spec_width(),
            r.spec_samples_per_pixel() == samples_per_pixel,
            r.spec_max_depth() == self.spec_max_depth(),
            r.spec_objects() == self.spec_objects(),
            r.spec_lights() == self.spec_lights(),
            r.spec_textures() == self.spec_textures(),
            r.spec_skybox() == self.spec_skybox(),
            self.wf() ==> r.wf(),
    {
        let params = RenderParams::new(self.params.width(), samples_per_pixel, self.params.max_depth());
        let r = World { params, ..self };
        assert(r.spec_lights() == self.spec_lights() && r.spec_objects() == self.spec_objects());
        r
    }

    /// The same world with paths cut after `max_depth` bounces.
    pub fn max_depth(self, max_depth: u32) -> (r: Self)
        requires
            max_depth >= 1,
        ensures
            r.spec_width() == self.spec_width(),
            r.spec_samples_per_pixel() == self.spec_samples_per_pixel(),
            r.spec_max_depth() == max_depth,
            r.spec_objects() == self.spec_objects(),
            r.spec_lights() == self.spec_lights(),
            r.spec_textures() == self.spec_textures(),
            r.spec_skybox() == self.spec_skybox(),
            self.wf() ==> r.wf(),
    {
        let params = RenderParams::new(self.params.width(), self.params.samples_per_pixel(), max_depth);
        let r = World { params, ..self };
        assert(r.spec_lights() == self.spec_lights() && r.spec_objects() == self.spec_objects());
        r
    }

    /// Adds a geometry to the scene.
    pub fn add(&mut self, object: G)
        ensures
            final(self).spec_objects() == old(self).spec_objects().push(object),
            final(self).spec_lights() == old(self).spec_lights(),
            final(self).spec_textures() == old(self).spec_textures(),
            final(self).spec_skybox() == old(self).spec_skybox(),
            final(self).spec_width() == old(self).spec_width(),
            final(self).spec_samples_per_pixel() == old(self).spec_samples_per_pixel(),
            final(self).spec_max_depth() == old(self).spec_max_depth(),
            old(self).wf() ==> final(self).wf(),
    {
        self.objects.push(object);
    }

    /// Adds a geometry that is also a light: rays can hit it, and it is
    /// sampled when lighting a surface.
    pub fn add_light(&mut self, object: G)
        ensures
            final(self).spec_objects() == old(self).spec_objects().push(object),
            final(self).spec_lights() == old(self).spec_lights().push(old(self).spec_objects().len() as usize),
            final(self).spec_textures() == old(self).spec_textures(),
            final(self).spec_skybox() == old(self).spec_skybox(),
            final(self).spec_width() == old(self).spec_width(),
            final(self).spec_samples_per_pixel() == old(self).spec_samples_per_pixel(),
            final(self).spec_max_depth() == old(self).spec_max_depth(),
            old(self).wf() ==> final(self).wf(),
    {
        let index = self.objects.len();
        self.objects.push(object);
        self.lights.push(index);
    }

    /// Adds a texture; materials refer to it by the index returned.
    pub fn add_texture(&mut self, texture: T) -> (r: usize)
        ensures
            r == old(self).spec_textures().len(),
            final(self).spec_textures() == old(self).spec_textures().push(texture),
            final(self).spec_objects() == old(self).spec_objects(),
            final(self).spec_lights() == old(self).spec_lights(),
            final(self).spec_skybox() == old(self).spec_skybox(),
            final(self).spec_width() == old(self).spec_width(),
            final(self).spec_samples_per_pixel() == old(self).spec_samples_per_pixel(),
            final(self).spec_max_depth() == old(self).spec_max_depth(),
            old(self).wf() ==> final(self).wf(),
    {
        let index = self.textures.len();
        self.textures.push(texture);
        index
    }

    /// The texture at `index`, or `None` past the last one.
    pub fn texture(&self, index: usize) -> (r: Option<&T>)
        ensures
            index < self.spec_textures().len() ==> r == Some(&self.spec_textures()[index as int]),
            index >= self.spec_textures().len() ==> r.is_none(),
    {
        if index < self.textures.len() {
            Some(&self.textures[index])
        } else {
            None
        }
    }

    pub fn objects(&self) -> (r: &Vec<G>)
        ensures
            r@ == self.spec_objects(),
    {
        &self.objects
    }

    pub fn textures(&self) -> (r: &Vec<T>)
        ensures
            r@ == self.spec_textures(),
    {
        &self.textures
    }

    /// The lights, as indices into `objects`.
    pub fn lights(&self) -> (r: &Vec<usize>)
        ensures
            r@ == self.spec_lights(),
    {
        &self.lights
    }

    pub fn skybox(&self) -> (r: &S)
        ensures
            *r == self.spec_skybox(),
    {
        &self.skybox
    }

    /// The render parameters.
    pub fn params(&self) -> (r: RenderParams)
        ensures
            r == self.spec_params(),
    {
        self.params
    }

    /// A light drawn uniformly, as an index into `objects`; `None` when the
    /// world has no light.
    pub fn pick_light(&self) -> (r: Option<usize>)
        ensures
            self.spec_lights().len() == 0 <==> r.is_none(),
            r matches Some(i) ==> self.spec_lights().contains(i),
            self.wf() ==> (r matches Some(i) ==> i < self.spec_objects().len()),
    {
        let r = choose_one(&self.lights);
        proof {
            if self.wf() && r is Some {
                let k = choose|k: int| 0 <= k < self.lights@.len() && self.lights@[k] == r->0;
                assert(self.lights@[k] < self.objects@.len());
            }
        }
        r
    }
}

} // verus!
