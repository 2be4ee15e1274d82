//! Rays: an origin, a direction, and the medium flag.
//!
//! The flag records whether the ray currently travels through vacuum or
//! through the dielectric; it is part of the ray value and is copied,
//! never shared, across the recursive shading calls.

use vstd::prelude::*;
use crate::vec3::Vec3;

verus! {

#[derive(Clone, Copy, Debug, PartialEq, Eq, Structural)]
pub struct Ray {
    pub ori: Vec3,
    pub dir: Vec3,
    pub vacuum: bool,
}

impl Ray {
    pub open spec fn in_vacuum_spec(self) -> bool {
        self.vacuum
    }

    /// A degenerate ray at the origin, travelling through vacuum.
    pub fn new() -> (r: Ray)
        ensures
            r.ori.x == 0 && r.ori.y == 0 && r.ori.z == 0,
            r.dir.x == 0 && r.dir.y == 0 && r.dir.z == 0,
            r.in_vacuum_spec(),
    {
        Ray { ori: Vec3::new(), dir: Vec3::new(), vacuum: true }
    }

    /// A ray in vacuum with the given origin and direction.
    pub fn init(ori: Vec3, dir: Vec3) -> (r: Ray)
        ensures
            r.ori == ori,
            r.dir == dir,
            r.in_vacuum_spec(),
    {
        Ray { ori, dir, vacuum: true }
    }

    /// The same ray on the other side of a refractive boundary.
    pub fn switch_medium(self) -> (r: Ray)
        ensures
            r.ori == self.ori,
            r.dir == self.dir,
            r.in_vacuum_spec() == !self.in_vacuum_spec(),
    {
        Ray { ori: self.ori, dir: self.dir, vacuum: !self.vacuum }
    }

    pub fn in_vacuum(&self) -> (b: bool)
        ensures
            b == self.in_vacuum_spec(),
    {
        self.vacuum
    }
}

} // verus!
