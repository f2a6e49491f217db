//! The level: the ground, the target zone, the balls and the queue of reset
//! requests.
//!
//! Two checks ask for a reset: a ball that begins to touch the target zone,
//! and a ball that has fallen below the plane. The reset handler answers any
//! number of requests with one action: every ball goes, one new ball comes.

use crate::ball::{on_ball_added, spawn_ball, Ball, BallResource};
use crate::components::{BodyKind, Collider, Components, Position, Shape, Transform, Visual};
use crate::events::{reset_for, CollisionNotification, ResetEvent};
use crate::filters::{lemma_filter_all, lemma_filter_empty, lemma_filter_step, lemma_no_member};
use crate::store::{
    lemma_despawn, lemma_insert, lemma_selected, lemma_settle, lemma_spawn, lemma_spawn_select,
    Entity, EntityId, EntityStore, Selector, StoreView,
};
use vstd::prelude::*;

verus! {

/// A ball whose altitude is below this value, -10 units, has left the level.
pub const OUT_OF_BOUNDS_ALTITUDE: i64 = -10_000;

/// Half the side of the square ground plane, 5 units.
pub const GROUND_HALF_SIDE: u32 = 5000;

/// Half the side of the square target zone, 0.5 units.
pub const TARGET_HALF_SIDE: u32 = 500;

/// The roll of the plane and of the target zone that lies on it.
pub const PLANE_ROLL_DEGREES: i32 = 30;

/// The centre of the target zone, near the lower end of the plane.
pub const TARGET_X: i64 = -4000;

pub const TARGET_Y: i64 = -2250;

pub const TARGET_Z: i64 = 0;

/// The visuals of the static parts of the level, created by the host.
#[derive(Clone, Copy, Debug, PartialEq, Eq)]
pub struct LevelResource {
    pub ground: Visual,
    pub target_zone: Visual,
}

/// Where the ball in play stands in its life.
#[derive(Clone, Copy, Debug, PartialEq, Eq, Structural)]
pub enum Phase {
    /// No ball has been released and no reset is requested.
    Inert,
    /// A ball is simulated: it can roll, collide and fall.
    Active,
    /// A reset is requested and the handler has not answered it yet.
    Resetting,
}

/// What one pass of the reset handler did.
#[derive(Debug, PartialEq, Eq)]
pub struct Reset {
    /// The requests that were answered, oldest first.
    pub requests: Vec<ResetEvent>,
    /// The balls that were removed.
    pub despawned: Vec<EntityId>,
    /// The ball that was created.
    pub spawned: EntityId,
}

/// The mathematical content of a [`Level`].
pub struct LevelView {
    pub store: StoreView,
    pub resets: Seq<ResetEvent>,
    pub ground: EntityId,
    pub target_zone: EntityId,
}

pub struct Level {
    store: EntityStore,
    resets: Vec<ResetEvent>,
    ground: EntityId,
    target_zone: EntityId,
}

/// The components of the ground: a fixed, solid, flat square, rolled about
/// the z axis.
pub open spec fn ground_components(visual: Visual) -> Components {
    Components {
        visual: Some(visual),
        body: Some(BodyKind::Fixed),
        collider: Some(
            Collider {
                shape: Shape::Cuboid {
                    half_x: GROUND_HALF_SIDE,
                    half_y: 0,
                    half_z: GROUND_HALF_SIDE,
                },
                sensor: false,
            },
        ),
        restitution: None,
        sleeping: None,
        transform: Some(
            Transform {
                translation: Position { x: 0, y: 0, z: 0 },
                roll_degrees: PLANE_ROLL_DEGREES,
            },
        ),
    }
}

/// The components of the target zone: a fixed, flat square sensor that lies
/// on the plane.
pub open spec fn target_components(visual: Visual) -> Components {
    Components {
        visual: Some(visual),
        body: Some(BodyKind::Fixed),
        collider: Some(
            Collider {
                shape: Shape::Cuboid {
                    half_x: TARGET_HALF_SIDE,
                    half_y: 0,
                    half_z: TARGET_HALF_SIDE,
                },
                sensor: true,
            },
        ),
        restitution: None,
        sleeping: None,
        transform: Some(
            Transform {
                translation: Position { x: TARGET_X, y: TARGET_Y, z: TARGET_Z },
                roll_degrees: PLANE_ROLL_DEGREES,
            },
        ),
    }
}

pub fn ground_bundle(visual: Visual) -> (c: Components)
    ensures
        c == ground_components(visual),
{
    Components {
        visual: Some(visual),
        body: Some(BodyKind::Fixed),
        collider: Some(
            Collider {
                shape: Shape::Cuboid {
                    half_x: GROUND_HALF_SIDE,
                    half_y: 0,
                    half_z: GROUND_HALF_SIDE,
                },
                sensor: false,
            },
        ),
        restitution: None,
        sleeping: None,
        transform: Some(
            Transform {
                translation: Position { x: 0, y: 0, z: 0 },
                roll_degrees: PLANE_ROLL_DEGREES,
            },
        ),
    }
}

pub fn target_bundle(visual: Visual) -> (c: Components)
    ensures
        c == target_components(visual),
{
    Components {
        visual: Some(visual),
        body: Some(BodyKind::Fixed),
        collider: Some(
            Collider {
                shape: Shape::Cuboid {
                    half_x: TARGET_HALF_SIDE,
                    half_y: 0,
                    half_z: TARGET_HALF_SIDE,
                },
                sensor: true,
            },
        ),
        restitution: None,
        sleeping: None,
        transform: Some(
            Transform {
                translation: Position { x: TARGET_X, y: TARGET_Y, z: TARGET_Z },
                roll_degrees: PLANE_ROLL_DEGREES,
            },
        ),
    }
}

/// The predicate that holds of a ball which `contact` reports as having
/// begun to touch `target`.
pub open spec fn hit_by(contact: CollisionNotification, target: EntityId) -> spec_fn(
    EntityId,
) -> bool {
    |ball: EntityId| contact.starts_between(target, ball)
}

/// The reset requests that one notification causes: one for each ball that
/// it pairs with the target zone.
pub open spec fn hits_of(contact: CollisionNotification, target: EntityId, balls: Seq<EntityId>) -> Seq<
    ResetEvent,
> {
    balls.filter(hit_by(contact, target)).map_values(reset_for())
}

/// The reset requests that a tick's notifications cause, in the order of
/// the notifications.
pub open spec fn target_hits(
    contacts: Seq<CollisionNotification>,
    target: EntityId,
    balls: Seq<EntityId>,
) -> Seq<ResetEvent>
    decreases contacts.len(),
{
    if contacts.len() == 0 {
        Seq::empty()
    } else {
        target_hits(contacts.drop_last(), target, balls) + hits_of(contacts.last(), target, balls)
    }
}

impl LevelView {
    pub open spec fn wf(self) -> bool {
        self.store.wf()
    }

    /// The level right after setup: ground, target zone and one ball that
    /// has no components yet.
    pub open spec fn initial(resource: LevelResource) -> LevelView {
        LevelView {
            store: StoreView {
                entities: seq![
                    Entity {
                        id: 0,
                        tag: None,
                        fresh: false,
                        components: ground_components(resource.ground),
                    },
                    Entity {
                        id: 1,
                        tag: None,
                        fresh: false,
                        components: target_components(resource.target_zone),
                    },
                    Entity::bare(2, Some(Ball)),
                ],
                next_id: 3,
            },
            resets: Seq::empty(),
            ground: 0,
            target_zone: 1,
        }
    }

    /// The live balls, in spawn order.
    pub open spec fn balls(self) -> Seq<EntityId> {
        self.store.select(Selector::Balls)
    }

    /// The balls whose body is dynamic.
    pub open spec fn active(self) -> Seq<EntityId> {
        self.store.select(Selector::ActiveBalls)
    }

    pub open spec fn phase(self) -> Phase {
        if self.resets.len() > 0 {
            Phase::Resetting
        } else if self.active().len() > 0 {
            Phase::Active
        } else {
            Phase::Inert
        }
    }

    /// The balls that are below the level.
    pub open spec fn fallen(self) -> Seq<EntityId> {
        self.store.select(Selector::BallsBelow(OUT_OF_BOUNDS_ALTITUDE))
    }

    /// The level after the collision check has read `contacts`.
    pub open spec fn collide(self, contacts: Seq<CollisionNotification>) -> LevelView {
        LevelView {
            resets: self.resets + target_hits(contacts, self.target_zone, self.balls()),
            ..self
        }
    }

    /// The level after the out-of-bounds check.
    pub open spec fn drop_fallen(self) -> LevelView {
        LevelView {
            store: self.store.despawn(Selector::BallsBelow(OUT_OF_BOUNDS_ALTITUDE)),
            resets: self.resets + self.fallen().map_values(reset_for()),
            ..self
        }
    }

    /// The level after the reset handler has run.
    pub open spec fn drain(self) -> LevelView {
        if self.resets.len() == 0 {
            self
        } else {
            LevelView {
                store: self.store.despawn(Selector::Balls).spawn(Some(Ball)),
                resets: Seq::empty(),
                ..self
            }
        }
    }

    /// The level after every new ball has become visible and solid.
    pub open spec fn attach(self, resource: BallResource) -> LevelView {
        LevelView {
            store: self.store.insert(Selector::NewBalls, resource.bundle()).settle(),
            ..self
        }
    }

    /// The level after every ball was released into the simulation.
    pub open spec fn release(self) -> LevelView {
        LevelView { store: self.store.insert(Selector::Balls, released()), ..self }
    }

    /// The level after the physics engine has moved a ball.
    pub open spec fn move_ball(self, id: EntityId, to: Transform) -> LevelView {
        LevelView { store: self.store.insert(Selector::Ball(id), placed(to)), ..self }
    }
}

/// What releases a ball: a dynamic body that is awake.
pub open spec fn released() -> Components {
    Components { body: Some(BodyKind::Dynamic), sleeping: Some(false), ..Components::none() }
}

/// The component set that holds this transform and nothing else.
pub open spec fn placed(to: Transform) -> Components {
    Components { transform: Some(to), ..Components::none() }
}

/// The requests of the notifications up to one more: those before it, then
/// its own.
pub proof fn lemma_target_hits_step(
    contacts: Seq<CollisionNotification>,
    target: EntityId,
    balls: Seq<EntityId>,
    i: int,
)
    requires
        0 <= i < contacts.len(),
    ensures
        target_hits(contacts.take(i + 1), target, balls) == target_hits(
            contacts.take(i),
            target,
            balls,
        ) + hits_of(contacts[i], target, balls),
{
    assert(contacts.take(i + 1).drop_last() =~= contacts.take(i));
}

/// Attaching keeps the level valid. The balls stay the same balls, none
/// of them is new afterwards, and the queue is untouched.
pub proof fn lemma_attach(s: LevelView, resource: BallResource)
    requires
        s.wf(),
    ensures
        s.attach(resource).wf(),
        s.store.precedes(s.attach(resource).store),
        s.attach(resource).balls() == s.balls(),
        s.attach(resource).store.select(Selector::NewBalls) == Seq::<EntityId>::empty(),
        forall|id: EntityId| #[trigger] s.attach(resource).store.has(id) == s.store.has(id),
        s.active().len() == 0 ==> s.attach(resource).active().len() == 0,
        s.attach(resource).store.statics() == s.store.statics(),
{
    let mid = s.store.insert(Selector::NewBalls, resource.bundle());
    lemma_insert(s.store, Selector::NewBalls, resource.bundle());
    lemma_settle(mid);
    assert forall|id: EntityId| #[trigger] s.attach(resource).store.has(id) == s.store.has(id) by {
        assert(mid.has(id) == s.store.has(id));
        assert(mid.settle().has(id) == mid.has(id));
    }
}

/// Releasing the balls keeps the level valid and the balls the same balls.
pub proof fn lemma_release(s: LevelView)
    requires
        s.wf(),
    ensures
        s.release().wf(),
        s.store.precedes(s.release().store),
        s.release().balls() == s.balls(),
        s.release().store.select(Selector::NewBalls) == s.store.select(Selector::NewBalls),
        forall|id: EntityId| #[trigger] s.release().store.has(id) == s.store.has(id),
        s.release().active() == s.balls(),
        s.release().store.statics() == s.store.statics(),
{
    lemma_insert(s.store, Selector::Balls, released());
}

/// Moving a ball keeps the level valid and the balls the same balls.
pub proof fn lemma_move_ball(s: LevelView, id: EntityId, to: Transform)
    requires
        s.wf(),
    ensures
        s.move_ball(id, to).wf(),
        s.store.precedes(s.move_ball(id, to).store),
        s.move_ball(id, to).balls() == s.balls(),
        s.move_ball(id, to).store.select(Selector::NewBalls) == s.store.select(
            Selector::NewBalls,
        ),
        forall|other: EntityId| #[trigger] s.move_ball(id, to).store.has(other) == s.store.has(other),
        s.move_ball(id, to).active() == s.active(),
        s.move_ball(id, to).store.statics() == s.store.statics(),
{
    lemma_insert(s.store, Selector::Ball(id), placed(to));
}

/// The out-of-bounds check keeps the level valid, retires every ball that
/// had fallen and leaves none that has. Where no ball had fallen it changes
/// nothing.
pub proof fn lemma_drop_fallen(s: LevelView)
    requires
        s.wf(),
    ensures
        s.drop_fallen().wf(),
        s.store.precedes(s.drop_fallen().store),
        s.drop_fallen().fallen() == Seq::<EntityId>::empty(),
        s.drop_fallen().resets.len() == s.resets.len() + s.fallen().len(),
        forall|id: EntityId| #[trigger] s.fallen().contains(id) ==> s.drop_fallen().store.retired(id),
        forall|id: EntityId| #[trigger]
            s.drop_fallen().balls().contains(id) ==> s.balls().contains(id),
        s.fallen().len() == 0 ==> s.drop_fallen() == s,
        s.active().len() == 0 ==> s.drop_fallen().active().len() == 0,
        s.drop_fallen().store.statics() == s.store.statics(),
{
    let sel = Selector::BallsBelow(OUT_OF_BOUNDS_ALTITUDE);
    lemma_despawn(s.store, sel);
    if s.active().len() == 0 {
        assert forall|id: EntityId| !s.drop_fallen().active().contains(id) by {
            assert(s.store.despawn(sel).select(Selector::ActiveBalls).contains(id)
                ==> s.store.select(Selector::ActiveBalls).contains(id));
        }
        lemma_no_member(s.drop_fallen().active());
    }
    assert forall|id: EntityId| #[trigger]
        s.drop_fallen().balls().contains(id) implies s.balls().contains(id) by {
        assert(s.store.despawn(sel).select(Selector::Balls).contains(id));
    }
    if s.fallen().len() == 0 {
        lemma_filter_empty(s.store.entities, sel.chosen());
        lemma_filter_all(s.store.entities, sel.spared());
        assert(s.drop_fallen().resets =~= s.resets);
    }
}

/// The reset handler keeps the level valid. With an empty queue it changes
/// nothing. With one request or many it leaves exactly one ball, which is
/// new and has an identifier that was never in use, and an empty queue.
pub proof fn lemma_drain(s: LevelView)
    requires
        s.wf(),
        s.resets.len() > 0 ==> s.store.next_id < u64::MAX,
    ensures
        s.drain().wf(),
        s.store.precedes(s.drain().store),
        s.drain().resets.len() == 0,
        s.resets.len() == 0 ==> s.drain() == s,
        s.resets.len() > 0 ==> s.drain().balls() == seq![s.store.next_id],
        s.resets.len() > 0 ==> s.drain().store.select(Selector::NewBalls) == seq![s.store.next_id],
        s.resets.len() > 0 ==> forall|id: EntityId| #[trigger]
            s.balls().contains(id) ==> s.drain().store.retired(id),
        s.resets.len() > 0 ==> s.drain().phase() == Phase::Inert,
        s.drain().store.statics() == s.store.statics(),
{
    if s.resets.len() > 0 {
        let mid = s.store.despawn(Selector::Balls);
        lemma_despawn(s.store, Selector::Balls);
        lemma_spawn(mid, Some(Ball));
        lemma_spawn_select(mid, Some(Ball), Selector::Balls);
        lemma_spawn_select(mid, Some(Ball), Selector::NewBalls);
        assert(s.drain().balls() =~= seq![s.store.next_id]);
        assert(mid.select(Selector::NewBalls) =~= Seq::<EntityId>::empty()) by {
            assert forall|id: EntityId| !mid.select(Selector::NewBalls).contains(id) by {
                lemma_selected(mid, Selector::NewBalls, id);
                lemma_selected(mid, Selector::Balls, id);
            }
            if mid.select(Selector::NewBalls).len() > 0 {
                assert(mid.select(Selector::NewBalls).contains(mid.select(Selector::NewBalls)[0]));
            }
        }
        assert(s.drain().store.select(Selector::NewBalls) =~= seq![s.store.next_id]);
        lemma_spawn_select(mid, Some(Ball), Selector::ActiveBalls);
        assert(mid.select(Selector::ActiveBalls) =~= Seq::<EntityId>::empty()) by {
            assert forall|id: EntityId| !mid.select(Selector::ActiveBalls).contains(id) by {
                lemma_selected(mid, Selector::ActiveBalls, id);
                lemma_selected(mid, Selector::Balls, id);
            }
            lemma_no_member(mid.select(Selector::ActiveBalls));
        }
        assert forall|id: EntityId| #[trigger] s.balls().contains(id) implies s.drain().store.retired(
            id,
        ) by {
            assert(mid.retired(id));
        }
    }
}

impl View for Level {
    type V = LevelView;

    closed spec fn view(&self) -> LevelView {
        LevelView {
            store: self.store@,
            resets: self.resets@,
            ground: self.ground,
            target_zone: self.target_zone,
        }
    }
}

impl Level {
    /// Builds the level: the ground, the target zone and the first ball.
    pub fn setup(resource: LevelResource) -> (level: Level)
        ensures
            level@ == LevelView::initial(resource),
            level@.wf(),
    {
        let mut store = EntityStore::new();
        let ground = store.spawn(None);
        store.insert(Selector::Entity(ground), ground_bundle(resource.ground));
        let target_zone = store.spawn(None);
        store.insert(Selector::Entity(target_zone), target_bundle(resource.target_zone));
        spawn_ball(&mut store);
        proof {
            assert(store@.entities =~= LevelView::initial(resource).store.entities);
        }
        Level { store, resets: Vec::new(), ground, target_zone }
    }

    pub fn store(&self) -> (store: &EntityStore)
        ensures
            store@ == self@.store,
    {
        &self.store
    }

    /// The reset requests that wait for the handler, oldest first.
    pub fn pending_resets(&self) -> (resets: &Vec<ResetEvent>)
        ensures
            resets@ == self@.resets,
    {
        &self.resets
    }

    pub fn ground(&self) -> (id: EntityId)
        ensures
            id == self@.ground,
    {
        self.ground
    }

    pub fn target_zone(&self) -> (id: EntityId)
        ensures
            id == self@.target_zone,
    {
        self.target_zone
    }

    pub fn phase(&self) -> (phase: Phase)
        ensures
            phase == self@.phase(),
    {
        if self.resets.len() > 0 {
            Phase::Resetting
        } else if self.store.query(Selector::ActiveBalls).len() > 0 {
            Phase::Active
        } else {
            Phase::Inert
        }
    }

    /// The live balls, in spawn order.
    pub fn balls(&self) -> (ids: Vec<EntityId>)
        ensures
            ids@ == self@.balls(),
    {
        self.store.query(Selector::Balls)
    }

    /// Makes every ball that was tagged since the last call visible and
    /// solid, and returns those balls.
    pub fn attach_new_balls(&mut self, resource: &BallResource) -> (attached: Vec<EntityId>)
        requires
            old(self)@.wf(),
        ensures
            attached@ == old(self)@.store.select(Selector::NewBalls),
            final(self)@ == old(self)@.attach(*resource),
            final(self)@.wf(),
    {
        on_ball_added(&mut self.store, resource)
    }

    /// Makes the body of every live ball dynamic and wakes it, and returns
    /// those balls.
    pub fn release_balls(&mut self) -> (started: Vec<EntityId>)
        requires
            old(self)@.wf(),
        ensures
            started@ == old(self)@.balls(),
            final(self)@ == old(self)@.release(),
            final(self)@.wf(),
    {
        self.store.insert(
            Selector::Balls,
            Components {
                visual: None,
                body: Some(BodyKind::Dynamic),
                collider: None,
                restitution: None,
                sleeping: Some(false),
                transform: None,
            },
        )
    }

    /// Takes over what the physics engine says of a ball's transform.
    /// Nothing changes where `id` names no live ball.
    pub fn move_ball(&mut self, id: EntityId, to: Transform) -> (moved: bool)
        requires
            old(self)@.wf(),
        ensures
            moved == (old(self)@.store.select(Selector::Ball(id)).len() > 0),
            final(self)@ == old(self)@.move_ball(id, to),
            final(self)@.wf(),
    {
        let hit = self.store.insert(
            Selector::Ball(id),
            Components {
                visual: None,
                body: None,
                collider: None,
                restitution: None,
                sleeping: None,
                transform: Some(to),
            },
        );
        hit.len() > 0
    }

    /// Reads the tick's collision notifications and queues one reset
    /// request for each pair of a notification and a live ball where the
    /// notification says that the ball began to touch the target zone.
    pub fn handle_target_area_collision(&mut self, contacts: &Vec<CollisionNotification>)
        requires
            old(self)@.wf(),
        ensures
            final(self)@ == old(self)@.collide(contacts@),
            final(self)@.wf(),
    {
        let balls = self.store.query(Selector::Balls);
        let ghost before = self.resets@;
        let target = self.target_zone;
        let mut i: usize = 0;
        while i < contacts.len()
            invariant
                i <= contacts.len(),
                balls@ == old(self)@.balls(),
                target == old(self)@.target_zone,
                self.store == old(self).store,
                self.ground == old(self).ground,
                self.target_zone == old(self).target_zone,
                before == old(self)@.resets,
                self.resets@ == before + target_hits(contacts@.take(i as int), target, balls@),
            decreases contacts.len() - i,
        {
            let contact = contacts[i];
            let ghost queued = self.resets@;
            let mut j: usize = 0;
            while j < balls.len()
                invariant
                    j <= balls.len(),
                    self.store == old(self).store,
                    self.ground == old(self).ground,
                    self.target_zone == old(self).target_zone,
                    self.resets@ == queued + balls@.take(j as int).filter(
                        hit_by(contact, target),
                    ).map_values(reset_for()),
                decreases balls.len() - j,
            {
                let ball = balls[j];
                proof {
                    lemma_filter_step(balls@, hit_by(contact, target), j as int);
                }
                if contact.is_start_between(target, ball) {
                    self.resets.push(ResetEvent { entity: ball });
                }
                j = j + 1;
            }
            proof {
                assert(balls@.take(balls@.len() as int) =~= balls@);
                lemma_target_hits_step(contacts@, target, balls@, i as int);
            }
            i = i + 1;
        }
        proof {
            assert(contacts@.take(contacts@.len() as int) =~= contacts@);
        }
    }

    /// Removes every ball that has fallen below the level, queues one reset
    /// request for each, and returns the balls it removed.
    pub fn detect_ball_out_of_bounds(&mut self) -> (fallen: Vec<EntityId>)
        requires
            old(self)@.wf(),
        ensures
            fallen@ == old(self)@.fallen(),
            final(self)@ == old(self)@.drop_fallen(),
            final(self)@.wf(),
            forall|id: EntityId| #[trigger] fallen@.contains(id) ==> final(self)@.store.retired(id),
    {
        proof {
            lemma_drop_fallen(self@);
        }
        let fallen = self.store.despawn(Selector::BallsBelow(OUT_OF_BOUNDS_ALTITUDE));
        let ghost before = self.resets@;
        let mut i: usize = 0;
        while i < fallen.len()
            invariant
                i <= fallen.len(),
                self.store@ == old(self)@.store.despawn(
                    Selector::BallsBelow(OUT_OF_BOUNDS_ALTITUDE),
                ),
                self.store@.wf(),
                self.ground == old(self).ground,
                self.target_zone == old(self).target_zone,
                before == old(self)@.resets,
                self.resets@ == before + fallen@.take(i as int).map_values(reset_for()),
            decreases fallen.len() - i,
        {
            self.resets.push(ResetEvent { entity: fallen[i] });
            proof {
                assert(fallen@.take(i + 1) =~= fallen@.take(i as int).push(fallen@[i as int]));
                assert(fallen@.take(i + 1).map_values(reset_for()) =~= fallen@.take(
                    i as int,
                ).map_values(reset_for()).push(ResetEvent { entity: fallen@[i as int] }));
            }
            i = i + 1;
        }
        proof {
            assert(fallen@.take(fallen@.len() as int) =~= fallen@);
        }
        fallen
    }

    /// Answers the queued reset requests. With an empty queue nothing
    /// happens. Otherwise, however many requests wait, every ball is removed,
    /// one new ball is created, and the queue is emptied.
    pub fn handle_level_reset_event(&mut self) -> (reset: Option<Reset>)
        requires
            old(self)@.wf(),
            old(self)@.resets.len() > 0 ==> old(self)@.store.next_id < u64::MAX,
        ensures
            final(self)@ == old(self)@.drain(),
            final(self)@.wf(),
            final(self)@.resets.len() == 0,
            old(self)@.resets.len() == 0 ==> reset is None && final(self)@ == old(self)@,
            old(self)@.resets.len() > 0 ==> reset is Some && reset.unwrap().requests@ == old(
                self,
            )@.resets && reset.unwrap().despawned@ == old(self)@.balls() && reset.unwrap().spawned
                == old(self)@.store.next_id && final(self)@.balls() == seq![reset.unwrap().spawned],
    {
        proof {
            lemma_drain(self@);
        }
        if self.resets.len() == 0 {
            return None;
        }
        let despawned = self.store.despawn(Selector::Balls);
        let spawned = spawn_ball(&mut self.store);
        let mut requests: Vec<ResetEvent> = Vec::new();
        std::mem::swap(&mut self.resets, &mut requests);
        Some(Reset { requests, despawned, spawned })
    }
}

} // verus!
