//! The component values an entity can carry.
//!
//! Lengths and coordinates are whole thousandths of a world unit, so every
//! quantity the game fixes (a radius of 0.2, a drop of 10 units) is exact.

use vstd::prelude::*;

verus! {

/// How the physics engine treats a rigid body.
#[derive(Clone, Copy, Debug, PartialEq, Eq, Structural)]
pub enum BodyKind {
    /// Immovable; forces and gravity are ignored.
    Fixed,
    /// Simulated; gravity and contacts move it.
    Dynamic,
}

/// The shape of a collider, in thousandths of a unit.
#[derive(Clone, Copy, Debug, PartialEq, Eq)]
pub enum Shape {
    Sphere { radius: u32 },
    Cuboid { half_x: u32, half_y: u32, half_z: u32 },
}

/// A collision shape. A sensor reports overlaps without blocking anything.
#[derive(Clone, Copy, Debug, PartialEq, Eq)]
pub struct Collider {
    pub shape: Shape,
    pub sensor: bool,
}

/// A point in the world, in thousandths of a unit. `y` is the altitude.
#[derive(Clone, Copy, Debug, PartialEq, Eq)]
pub struct Position {
    pub x: i64,
    pub y: i64,
    pub z: i64,
}

/// Where an entity stands and how far it is rolled about the z axis.
#[derive(Clone, Copy, Debug, PartialEq, Eq)]
pub struct Transform {
    pub translation: Position,
    pub roll_degrees: i32,
}

/// What the renderer draws for an entity: handles of a shared mesh and a
/// shared material, both created by the host once at startup.
#[derive(Clone, Copy, Debug, PartialEq, Eq)]
pub struct Visual {
    pub mesh: u64,
    pub material: u64,
}

/// A set of components. An absent field means the component is not part of
/// the set.
#[derive(Clone, Copy, Debug, PartialEq, Eq)]
pub struct Components {
    pub visual: Option<Visual>,
    pub body: Option<BodyKind>,
    pub collider: Option<Collider>,
    /// Restitution coefficient in thousandths.
    pub restitution: Option<u32>,
    pub sleeping: Option<bool>,
    pub transform: Option<Transform>,
}

/// The component of `new` where it is present, else that of `base`.
pub open spec fn overlay<T>(base: Option<T>, new: Option<T>) -> Option<T> {
    if new is Some {
        new
    } else {
        base
    }
}

fn overlay_of<T>(base: Option<T>, new: Option<T>) -> (r: Option<T>)
    ensures
        r == overlay(base, new),
{
    match new {
        Some(v) => Some(v),
        None => base,
    }
}

impl Transform {
    /// An unrotated transform at the given point.
    pub open spec fn at(x: i64, y: i64, z: i64) -> Transform {
        Transform { translation: Position { x, y, z }, roll_degrees: 0 }
    }

    pub fn from_xyz(x: i64, y: i64, z: i64) -> (t: Transform)
        ensures
            t == Transform::at(x, y, z),
    {
        Transform { translation: Position { x, y, z }, roll_degrees: 0 }
    }
}

impl Components {
    /// The set that holds no component.
    pub open spec fn none() -> Components {
        Components {
            visual: None,
            body: None,
            collider: None,
            restitution: None,
            sleeping: None,
            transform: None,
        }
    }

    /// This set after `new` was inserted into it: a component present in
    /// `new` replaces the one held, every other component stays.
    pub open spec fn with(self, new: Components) -> Components {
        Components {
            visual: overlay(self.visual, new.visual),
            body: overlay(self.body, new.body),
            collider: overlay(self.collider, new.collider),
            restitution: overlay(self.restitution, new.restitution),
            sleeping: overlay(self.sleeping, new.sleeping),
            transform: overlay(self.transform, new.transform),
        }
    }

    pub fn empty() -> (c: Components)
        ensures
            c == Components::none(),
    {
        Components {
            visual: None,
            body: None,
            collider: None,
            restitution: None,
            sleeping: None,
            transform: None,
        }
    }

    pub fn insert(self, new: Components) -> (c: Components)
        ensures
            c == self.with(new),
    {
        Components {
            visual: overlay_of(self.visual, new.visual),
            body: overlay_of(self.body, new.body),
            collider: overlay_of(self.collider, new.collider),
            restitution: overlay_of(self.restitution, new.restitution),
            sleeping: overlay_of(self.sleeping, new.sleeping),
            transform: overlay_of(self.transform, new.transform),
        }
    }
}

} // verus!
