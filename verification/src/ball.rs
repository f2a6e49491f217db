//! The ball: its tag, the resources every ball shares, and the steps that
//! create a ball, make it visible and solid, and report where it is.

use crate::components::{BodyKind, Collider, Components, Shape, Transform, Visual};
use crate::filters::lemma_filter_step;
use crate::store::{Entity, EntityId, EntityStore, Selector, StoreView};
use vstd::prelude::*;

verus! {

/// The tag that marks an entity as the rolling ball.
#[derive(Clone, Copy, Debug, PartialEq, Eq)]
pub struct Ball;

/// The radius of the ball, 0.2 units.
pub const BALL_RADIUS: u32 = 200;

/// The restitution coefficient of the ball, 1.1: it bounces back with more
/// speed than it came with.
pub const BALL_RESTITUTION: u32 = 1100;

/// Where a ball is placed when it becomes solid: above the upper end of the
/// plane.
pub const BALL_START_X: i64 = 4000;

pub const BALL_START_Y: i64 = 5000;

pub const BALL_START_Z: i64 = 0;

/// The mesh and the material of the ball. The host creates both once at
/// startup; every ball shows the same two.
#[derive(Clone, Copy, Debug, PartialEq, Eq)]
pub struct BallResource {
    pub mesh: u64,
    pub material: u64,
}

impl BallResource {
    /// What a ball receives when it becomes visible and solid: the shared
    /// visual, a fixed body, a solid sphere, the restitution and the start
    /// position.
    pub open spec fn bundle(self) -> Components {
        Components {
            visual: Some(Visual { mesh: self.mesh, material: self.material }),
            body: Some(BodyKind::Fixed),
            collider: Some(Collider { shape: Shape::Sphere { radius: BALL_RADIUS }, sensor: false }),
            restitution: Some(BALL_RESTITUTION),
            sleeping: None,
            transform: Some(Transform::at(BALL_START_X, BALL_START_Y, BALL_START_Z)),
        }
    }

    pub fn attachment(&self) -> (c: Components)
        ensures
            c == self.bundle(),
    {
        Components {
            visual: Some(Visual { mesh: self.mesh, material: self.material }),
            body: Some(BodyKind::Fixed),
            collider: Some(Collider { shape: Shape::Sphere { radius: BALL_RADIUS }, sensor: false }),
            restitution: Some(BALL_RESTITUTION),
            sleeping: None,
            transform: Some(Transform::from_xyz(BALL_START_X, BALL_START_Y, BALL_START_Z)),
        }
    }
}

/// The predicate that holds of a ball that has a transform.
pub open spec fn placed_ball() -> spec_fn(Entity) -> bool {
    |e: Entity| e.tag is Some && e.altitude() is Some
}

/// The function that maps an entity to its altitude.
pub open spec fn altitude_of() -> spec_fn(Entity) -> i64 {
    |e: Entity| e.altitude().unwrap()
}

/// The altitudes of the balls that have a transform, in spawn order.
pub open spec fn altitudes(s: StoreView) -> Seq<i64> {
    s.entities.filter(placed_ball()).map_values(altitude_of())
}

/// Creates one ball with no components yet: it is neither visible nor solid
/// until `on_ball_added` has run. Each call creates another ball.
pub fn spawn_ball(store: &mut EntityStore) -> (id: EntityId)
    requires
        old(store)@.wf(),
        old(store)@.next_id < u64::MAX,
    ensures
        id == old(store)@.next_id,
        final(store)@ == old(store)@.spawn(Some(Ball)),
        final(store)@.wf(),
{
    store.spawn(Some(Ball))
}

/// Gives every ball that was tagged since the last call its visual, its
/// collider, its restitution, a fixed body and its start position, and
/// returns the balls it did this to. A ball is handled by one call only.
pub fn on_ball_added(store: &mut EntityStore, resource: &BallResource) -> (attached: Vec<EntityId>)
    requires
        old(store)@.wf(),
    ensures
        attached@ == old(store)@.select(Selector::NewBalls),
        final(store)@ == old(store)@.insert(Selector::NewBalls, resource.bundle()).settle(),
        final(store)@.wf(),
{
    let attached = store.insert(Selector::NewBalls, resource.attachment());
    store.settle();
    attached
}

/// The altitude of every ball that has a transform. Nothing changes.
pub fn report_altitude(store: &EntityStore) -> (found: Vec<i64>)
    ensures
        found@ == altitudes(store@),
{
    let all = store.entities();
    let ghost s = all@;
    let mut found: Vec<i64> = Vec::new();
    let n = all.len();
    let mut i: usize = 0;
    while i < n
        invariant
            i <= n,
            n == s.len(),
            all@ == s,
            found@ == s.take(i as int).filter(placed_ball()).map_values(altitude_of()),
        decreases n - i,
    {
        let e = all[i];
        proof {
            lemma_filter_step(s, placed_ball(), i as int);
        }
        if e.tag.is_some() {
            match e.components.transform {
                Some(t) => {
                    found.push(t.translation.y);
                },
                None => {},
            }
        }
        i = i + 1;
    }
    proof {
        assert(s.take(n as int) =~= s);
    }
    found
}

} // verus!
