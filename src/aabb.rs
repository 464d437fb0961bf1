use vstd::prelude::*;

verus! {

/// A point of scene space with each coordinate held as its order key: an
/// integer that orders exactly as the coordinate does, so that the `min` and
/// `max` of keys are the keys of the `min` and `max` of coordinates.
#[derive(Clone, Copy, Debug, PartialEq, Eq, Structural)]
pub struct Keys3 {
    pub x: i32,
    pub y: i32,
    pub z: i32,
}

pub open spec fn key_min(a: i32, b: i32) -> i32 {
    if a <= b { a } else { b }
}

pub open spec fn key_max(a: i32, b: i32) -> i32 {
    if a >= b { a } else { b }
}

fn min_key(a: i32, b: i32) -> (r: i32)
    ensures
        r == key_min(a, b),
{
    if a <= b { a } else { b }
}

fn max_key(a: i32, b: i32) -> (r: i32)
    ensures
        r == key_max(a, b),
{
    if a >= b { a } else { b }
}

impl Keys3 {
    /// The key on axis `k` (x = 0, y = 1, z = 2).
    pub open spec fn at(self, k: int) -> i32 {
        if k == 0 { self.x } else if k == 1 { self.y } else { self.z }
    }

    pub fn get(&self, k: usize) -> (r: i32)
        requires
            k < 3,
        ensures
            r == self.at(k as int),
    {
        if k == 0 { self.x } else if k == 1 { self.y } else { self.z }
    }

    /// `self <= other` on every axis.
    pub open spec fn le(self, other: Keys3) -> bool {
        self.x <= other.x && self.y <= other.y && self.z <= other.z
    }

    pub open spec fn spec_min(self, other: Keys3) -> Keys3 {
        Keys3 { x: key_min(self.x, other.x), y: key_min(self.y, other.y), z: key_min(self.z, other.z) }
    }

    pub open spec fn spec_max(self, other: Keys3) -> Keys3 {
        Keys3 { x: key_max(self.x, other.x), y: key_max(self.y, other.y), z: key_max(self.z, other.z) }
    }

    /// The componentwise minimum.
    pub fn min(&self, other: &Keys3) -> (r: Keys3)
        ensures
            r == self.spec_min(*other),
    {
        Keys3 { x: min_key(self.x, other.x), y: min_key(self.y, other.y), z: min_key(self.z, other.z) }
    }

    /// The componentwise maximum.
    pub fn max(&self, other: &Keys3) -> (r: Keys3)
        ensures
            r == self.spec_max(*other),
    {
        Keys3 { x: max_key(self.x, other.x), y: max_key(self.y, other.y), z: max_key(self.z, other.z) }
    }
}

/// An axis-aligned bounding box, its corners held as order keys.
#[derive(Clone, Copy, Debug, PartialEq, Eq, Structural)]
pub struct Aabb {
    pub min: Keys3,
    pub max: Keys3,
}

impl Aabb {
    /// `min <= max` on every axis.
    pub open spec fn valid(self) -> bool {
        self.min.le(self.max)
    }

    /// `other` lies inside this box.
    pub open spec fn encloses(self, other: Aabb) -> bool {
        self.min.le(other.min) && other.max.le(self.max)
    }

    /// The componentwise union of two boxes.
    pub open spec fn union(self, other: Aabb) -> Aabb {
        Aabb { min: self.min.spec_min(other.min), max: self.max.spec_max(other.max) }
    }
}

/// The smallest box that holds both `a` and `b`.
pub fn surrounding_box(a: &Aabb, b: &Aabb) -> (r: Aabb)
    ensures
        r == a.union(*b),
        r.encloses(*a),
        r.encloses(*b),
        a.valid() && b.valid() ==> r.valid(),
{
    Aabb { min: a.min.min(&b.min), max: a.max.max(&b.max) }
}

} // verus!
