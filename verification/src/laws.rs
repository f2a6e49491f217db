//! What holds of the game whatever the host feeds it.
//!
//! The game moves by steps: the six that make up a tick, each of which the
//! host may also take alone, and the tick itself. The laws below speak of
//! one step or of every run of steps.

use crate::ball::{Ball, BallResource};
use crate::components::{BodyKind, Components};
use crate::events::{CollisionNotification, ResetEvent};
use crate::game::{lemma_moved, lemma_tick_balls, moved, BallMove, GameView, Interaction};
use crate::level::{
    hit_by, hits_of, lemma_attach, lemma_drain, lemma_drop_fallen, lemma_release, placed,
    released, target_hits, LevelResource, LevelView, Phase, OUT_OF_BOUNDS_ALTITUDE,
};
use crate::filters::{
    lemma_filter_all, lemma_filter_empty, lemma_filter_member, lemma_filter_none,
};
use crate::store::{lemma_retired_unselected, untagged, Entity, EntityId, Selector, StoreView};
use vstd::prelude::*;

verus! {

/// One step of the game.
pub enum Step {
    /// Every new ball becomes visible and solid.
    Attach,
    /// The physics engine moves a ball.
    Move(BallMove),
    /// The start button is sampled.
    Sample(Interaction),
    /// The collision check reads a tick's notifications.
    Collide(Seq<CollisionNotification>),
    /// The out-of-bounds check runs.
    DropFallen,
    /// The reset handler runs.
    Drain,
    /// A whole tick.
    Tick(Interaction, Seq<BallMove>, Seq<CollisionNotification>),
}

/// The game after one step.
pub open spec fn step(s: GameView, a: Step) -> GameView {
    match a {
        Step::Attach => s.attach(),
        Step::Move(m) => s.moved(seq![m]),
        Step::Sample(interaction) => s.sample(interaction),
        Step::Collide(contacts) => s.collide(contacts),
        Step::DropFallen => s.drop_fallen(),
        Step::Drain => s.drain(),
        Step::Tick(interaction, moves, contacts) => s.tick(interaction, moves, contacts),
    }
}

/// The game after a run of steps, first to last.
pub open spec fn run(s: GameView, steps: Seq<Step>) -> GameView
    decreases steps.len(),
{
    if steps.len() == 0 {
        s
    } else {
        step(run(s, steps.drop_last()), steps.last())
    }
}

/// Every step keeps the game valid, spawns at most one entity, leaves
/// retired what was retired and settled what was settled, and does not
/// touch the ground, the target zone or any other untagged entity.
pub proof fn lemma_step(s: GameView, a: Step)
    requires
        s.wf(),
        s.level.store.next_id < u64::MAX,
    ensures
        step(s, a).wf(),
        s.level.store.precedes(step(s, a).level.store),
        step(s, a).level.store.next_id <= s.level.store.next_id + 1,
        step(s, a).level.store.statics() == s.level.store.statics(),
        step(s, a).level.ground == s.level.ground,
        step(s, a).level.target_zone == s.level.target_zone,
{
    match a {
        Step::Attach => {
            lemma_attach(s.level, s.ball_resource);
        },
        Step::Move(m) => {
            lemma_moved(s.level, seq![m]);
        },
        Step::Sample(interaction) => {
            lemma_release(s.level);
        },
        Step::Collide(contacts) => {},
        Step::DropFallen => {
            lemma_drop_fallen(s.level);
        },
        Step::Drain => {
            lemma_drain(s.level);
        },
        Step::Tick(interaction, moves, contacts) => {
            lemma_tick_balls(s, interaction, moves, contacts);
        },
    }
}

/// Every run of steps keeps the game valid as long as the counter of
/// identifiers does not run out, leaves retired what was retired and
/// settled what was settled, and does not touch the ground, the target zone
/// or any other untagged entity: they stay live, with the components they
/// had.
pub proof fn lemma_run(s: GameView, steps: Seq<Step>)
    requires
        s.wf(),
        s.level.store.next_id + steps.len() <= u64::MAX,
    ensures
        run(s, steps).wf(),
        s.level.store.precedes(run(s, steps).level.store),
        run(s, steps).level.store.next_id <= s.level.store.next_id + steps.len(),
        run(s, steps).level.store.statics() == s.level.store.statics(),
        run(s, steps).level.ground == s.level.ground,
        run(s, steps).level.target_zone == s.level.target_zone,
    decreases steps.len(),
{
    if steps.len() > 0 {
        lemma_run(s, steps.drop_last());
        lemma_step(run(s, steps.drop_last()), steps.last());
    }
}

/// A ball that the out-of-bounds check has removed is gone for good: after
/// the check its identifier is retired, and whatever steps follow, it names
/// no live entity, so no later check finds it among the balls or among the
/// fallen.
pub proof fn lemma_fallen_never_returns(s: GameView, steps: Seq<Step>, id: EntityId)
    requires
        s.wf(),
        s.level.store.next_id + steps.len() <= u64::MAX,
        s.level.fallen().contains(id),
    ensures
        s.drop_fallen().level.store.retired(id),
        run(s.drop_fallen(), steps).level.store.retired(id),
        !run(s.drop_fallen(), steps).level.balls().contains(id),
        !run(s.drop_fallen(), steps).level.fallen().contains(id),
{
    lemma_drop_fallen(s.level);
    lemma_retired_never_returns(s.drop_fallen(), steps, id);
}

/// An identifier that is retired stays retired whatever steps follow: it
/// names no live entity and no step selects it.
pub proof fn lemma_retired_never_returns(s: GameView, steps: Seq<Step>, id: EntityId)
    requires
        s.wf(),
        s.level.store.next_id + steps.len() <= u64::MAX,
        s.level.store.retired(id),
    ensures
        run(s, steps).level.store.retired(id),
        !run(s, steps).level.balls().contains(id),
        !run(s, steps).level.fallen().contains(id),
        !run(s, steps).level.store.select(Selector::NewBalls).contains(id),
{
    lemma_run(s, steps);
    let end = run(s, steps).level.store;
    lemma_retired_unselected(end, Selector::Balls, id);
    lemma_retired_unselected(end, Selector::BallsBelow(OUT_OF_BOUNDS_ALTITUDE), id);
    lemma_retired_unselected(end, Selector::NewBalls, id);
}

/// After the attach step no ball is new, so a second attach step right
/// after it attaches nothing and changes nothing.
pub proof fn lemma_attach_once(s: GameView)
    requires
        s.wf(),
    ensures
        s.attach().level.store.select(Selector::NewBalls) == Seq::<EntityId>::empty(),
        s.attach().attach() == s.attach(),
        forall|id: EntityId| id < s.level.store.next_id ==> #[trigger] s.attach().level.store.settled(id),
{
    let t = s.attach();
    lemma_attach(s.level, s.ball_resource);
    let sel = Selector::NewBalls;
    assert(t.level.store.entities.filter(sel.chosen()).len() == t.level.store.select(sel).len());
    lemma_filter_empty(t.level.store.entities, sel.chosen());
    assert(t.level.store.insert(sel, t.ball_resource.bundle()).entities =~= t.level.store.entities);
    assert(t.level.store.settle().entities =~= t.level.store.entities) by {
        assert forall|i: int| 0 <= i < t.level.store.entities.len() implies
            t.level.store.entities[i].settled() == t.level.store.entities[i] by {
            let mid = s.level.store.insert(sel, s.ball_resource.bundle());
            assert(t.level.store.entities[i] == mid.entities[i].settled());
        }
    }
}

/// A ball is attached at most once: an identifier that is settled, because
/// its ball was attached or because it never named a new ball, is in no
/// later list of new balls, whatever steps follow.
pub proof fn lemma_never_attached_again(s: GameView, steps: Seq<Step>, id: EntityId)
    requires
        s.wf(),
        s.level.store.next_id + steps.len() <= u64::MAX,
        s.level.store.settled(id),
    ensures
        run(s, steps).level.store.settled(id),
        !run(s, steps).level.store.select(Selector::NewBalls).contains(id),
{
    lemma_run(s, steps);
}

/// A notification that a live ball began to touch the target zone puts a
/// reset request for that ball into the queue.
pub proof fn lemma_target_hit_requests_reset(
    contacts: Seq<CollisionNotification>,
    target: EntityId,
    balls: Seq<EntityId>,
    i: int,
    ball: EntityId,
)
    requires
        0 <= i < contacts.len(),
        contacts[i].starts_between(target, ball),
        balls.contains(ball),
    ensures
        target_hits(contacts, target, balls).contains(ResetEvent { entity: ball }),
    decreases contacts.len(),
{
    let front = target_hits(contacts.drop_last(), target, balls);
    let back = hits_of(contacts.last(), target, balls);
    let event = ResetEvent { entity: ball };
    if i == contacts.len() - 1 {
        let p = hit_by(contacts.last(), target);
        let j = choose|j: int| 0 <= j < balls.len() && balls[j] == ball;
        balls.lemma_filter_contains(p, j);
        let k = choose|k: int| 0 <= k < balls.filter(p).len() && balls.filter(p)[k] == ball;
        assert(back[k] == event);
        assert((front + back)[front.len() + k] == event);
    } else {
        lemma_target_hit_requests_reset(contacts.drop_last(), target, balls, i, ball);
        let k = choose|k: int| 0 <= k < front.len() && front[k] == event;
        assert((front + back)[k] == event);
    }
}

/// Every reset request that the collision check queues has a cause: a
/// notification that the ball it names, a live ball, began to touch the
/// target zone.
pub proof fn lemma_reset_request_has_cause(
    contacts: Seq<CollisionNotification>,
    target: EntityId,
    balls: Seq<EntityId>,
    event: ResetEvent,
)
    requires
        target_hits(contacts, target, balls).contains(event),
    ensures
        balls.contains(event.entity),
        exists|i: int|
            0 <= i < contacts.len() && (#[trigger] contacts[i]).starts_between(target, event.entity),
    decreases contacts.len(),
{
    if contacts.len() > 0 {
        let front = target_hits(contacts.drop_last(), target, balls);
        let back = hits_of(contacts.last(), target, balls);
        let k = choose|k: int| 0 <= k < (front + back).len() && (front + back)[k] == event;
        if k < front.len() {
            assert(front[k] == event);
            lemma_reset_request_has_cause(contacts.drop_last(), target, balls, event);
            let i = choose|i: int|
                0 <= i < contacts.drop_last().len() && (#[trigger] contacts.drop_last()[i]).starts_between(
                    target,
                    event.entity,
                );
            assert(contacts[i].starts_between(target, event.entity));
        } else {
            let p = hit_by(contacts.last(), target);
            let j = k - front.len();
            assert(back[j] == event);
            lemma_filter_member(balls, p, j);
            assert(contacts[contacts.len() - 1].starts_between(target, event.entity));
        }
    }
}

/// Notifications that name no live ball queue no reset request.
pub proof fn lemma_no_ball_no_request(
    contacts: Seq<CollisionNotification>,
    target: EntityId,
    balls: Seq<EntityId>,
)
    requires
        forall|i: int, j: int|
            0 <= i < contacts.len() && 0 <= j < balls.len() ==> !(#[trigger] contacts[i]).involves(
                #[trigger] balls[j],
            ),
    ensures
        target_hits(contacts, target, balls) == Seq::<ResetEvent>::empty(),
{
    let hits = target_hits(contacts, target, balls);
    if hits.len() > 0 {
        assert(hits.contains(hits[0]));
        lemma_reset_request_has_cause(contacts, target, balls, hits[0]);
        let i = choose|i: int|
            0 <= i < contacts.len() && (#[trigger] contacts[i]).starts_between(target, hits[0].entity);
        let j = choose|j: int| 0 <= j < balls.len() && balls[j] == hits[0].entity;
        assert(contacts[i].involves(balls[j]));
    }
    assert(hits =~= Seq::<ResetEvent>::empty());
}

/// The collision check on a level: a hit on the target zone by a live ball
/// lengthens the queue, and notifications that name no live ball leave the
/// level as it was.
pub proof fn lemma_collide(s: LevelView, contacts: Seq<CollisionNotification>)
    ensures
        (exists|i: int, ball: EntityId|
            0 <= i < contacts.len() && (#[trigger] contacts[i]).starts_between(s.target_zone, ball)
                && #[trigger] s.balls().contains(ball)) ==> s.collide(contacts).resets.len()
            > s.resets.len(),
        (forall|i: int, j: int|
            0 <= i < contacts.len() && 0 <= j < s.balls().len() ==> !(#[trigger] contacts[i]).involves(
                #[trigger] s.balls()[j],
            )) ==> s.collide(contacts) == s,
{
    let hits = target_hits(contacts, s.target_zone, s.balls());
    if exists|i: int, ball: EntityId|
        0 <= i < contacts.len() && (#[trigger] contacts[i]).starts_between(s.target_zone, ball)
            && #[trigger] s.balls().contains(ball) {
        let (i, ball) = choose|i: int, ball: EntityId|
            0 <= i < contacts.len() && (#[trigger] contacts[i]).starts_between(s.target_zone, ball)
                && #[trigger] s.balls().contains(ball);
        lemma_target_hit_requests_reset(contacts, s.target_zone, s.balls(), i, ball);
    }
    if forall|i: int, j: int|
        0 <= i < contacts.len() && 0 <= j < s.balls().len() ==> !(#[trigger] contacts[i]).involves(
            #[trigger] s.balls()[j],
        ) {
        lemma_no_ball_no_request(contacts, s.target_zone, s.balls());
        assert(s.resets + hits =~= s.resets);
    }
}

/// Draining is idempotent: after the reset handler has run the queue is
/// empty, and a second run right after it changes nothing. With an empty
/// queue the first run changes nothing either.
pub proof fn lemma_drain_idempotent(s: LevelView)
    ensures
        s.drain().drain() == s.drain(),
        s.resets.len() == 0 ==> s.drain() == s,
{
}

/// What tells whether a step brings a press edge: a sample, alone or in a
/// tick, that shows the button going down.
pub open spec fn presses(s: GameView, a: Step) -> bool {
    match a {
        Step::Sample(interaction) => s.press_edge(interaction),
        Step::Tick(interaction, _, _) => s.press_edge(interaction),
        _ => false,
    }
}

/// A game starts valid and inert, with one ball that waits to be attached.
pub proof fn lemma_initial(level: LevelResource, ball: BallResource)
    ensures
        GameView::initial(level, ball).wf(),
        GameView::initial(level, ball).level.phase() == Phase::Inert,
        GameView::initial(level, ball).level.balls() == seq![2u64],
        GameView::initial(level, ball).level.store.select(Selector::NewBalls) == seq![2u64],
        balls_in_order(GameView::initial(level, ball).level.store),
        GameView::initial(level, ball).level.store.statics()
            == GameView::initial(level, ball).level.store.entities.take(2),
{
    let s = GameView::initial(level, ball).level.store;
    let statics = s.entities.drop_last();
    assert(statics =~= s.entities.take(2));
    lemma_filter_all(statics, untagged());
    statics.lemma_filter_push(Entity::bare(2, Some(Ball)), untagged());
    assert(s.entities =~= statics.push(Entity::bare(2, Some(Ball))));
    lemma_filter_none(statics, Selector::Balls.chosen());
    lemma_filter_none(statics, Selector::NewBalls.chosen());
    lemma_filter_none(s.entities, Selector::ActiveBalls.chosen());
    statics.lemma_filter_push(Entity::bare(2, Some(Ball)), Selector::Balls.chosen());
    statics.lemma_filter_push(Entity::bare(2, Some(Ball)), Selector::NewBalls.chosen());
    assert(s.select(Selector::Balls) =~= seq![2u64]);
    assert(s.select(Selector::NewBalls) =~= seq![2u64]);
}

/// The press edge releases every live ball: each gets a dynamic body and
/// is awake. With a ball in the level and no reset requested, the level is
/// active afterwards.
pub proof fn lemma_press_activates(s: GameView, interaction: Interaction)
    requires
        s.wf(),
        s.press_edge(interaction),
    ensures
        s.sample(interaction).wf(),
        s.sample(interaction).level.balls() == s.level.balls(),
        s.sample(interaction).level.active() == s.level.balls(),
        s.level.resets.len() == 0 && s.level.balls().len() > 0 ==> s.sample(
            interaction,
        ).level.phase() == Phase::Active,
        forall|i: int|
            0 <= i < s.level.store.entities.len() && s.level.store.entities[i].tag is Some ==> {
                let after = #[trigger] s.sample(interaction).level.store.entities[i];
                after.id == s.level.store.entities[i].id && after.components.body == Some(
                    BodyKind::Dynamic,
                ) && after.components.sleeping == Some(false)
            },
{
    lemma_release(s.level);
}

/// A sample that shows no press edge leaves the level as it is: a button
/// that is held, hovered or at rest releases nothing. Two samples of the
/// same interaction in a row do what one does.
pub proof fn lemma_held_button(s: GameView, interaction: Interaction)
    ensures
        !s.press_edge(interaction) ==> s.sample(interaction).level == s.level,
        s.sample(interaction).sample(interaction) == s.sample(interaction),
{
}

/// The press edge is the only way into the active phase: a step that
/// brings none leaves a level without an active ball without one.
pub proof fn lemma_only_press_activates(s: GameView, a: Step)
    requires
        s.wf(),
        s.level.store.next_id < u64::MAX,
        s.level.active().len() == 0,
        !presses(s, a),
    ensures
        step(s, a).level.active().len() == 0,
{
    match a {
        Step::Attach => {
            lemma_attach(s.level, s.ball_resource);
        },
        Step::Move(m) => {
            lemma_moved(s.level, seq![m]);
        },
        Step::Sample(interaction) => {},
        Step::Collide(contacts) => {},
        Step::DropFallen => {
            lemma_drop_fallen(s.level);
        },
        Step::Drain => {
            lemma_drain(s.level);
        },
        Step::Tick(interaction, moves, contacts) => {
            let s1 = s.level.attach(s.ball_resource);
            lemma_attach(s.level, s.ball_resource);
            let s2 = moved(s1, moves);
            lemma_moved(s1, moves);
            let s4 = s2.collide(contacts);
            lemma_drop_fallen(s4);
            lemma_drain(s4.drop_fallen());
        },
    }
}

/// A ball that has fallen puts the level into the resetting phase, and so
/// does a ball that hits the target zone.
pub proof fn lemma_requests_start_reset(s: LevelView, contacts: Seq<CollisionNotification>)
    requires
        s.wf(),
    ensures
        s.fallen().len() > 0 ==> s.drop_fallen().phase() == Phase::Resetting,
        s.collide(contacts).resets.len() > s.resets.len() ==> s.collide(contacts).phase()
            == Phase::Resetting,
{
    lemma_drop_fallen(s);
}

/// The entity has everything that the attach step gives a ball.
pub open spec fn attached(e: Entity) -> bool {
    &&& e.components.visual is Some
    &&& e.components.collider is Some
    &&& e.components.restitution is Some
    &&& e.components.body is Some
    &&& e.components.transform is Some
}

/// The entity has nothing of what only the attach step gives a ball.
pub open spec fn unattached(e: Entity) -> bool {
    &&& e.components.visual is None
    &&& e.components.collider is None
    &&& e.components.restitution is None
}

/// Every ball is attached exactly if it is no longer new.
pub open spec fn balls_in_order(s: StoreView) -> bool {
    forall|i: int|
        0 <= i < s.entities.len() && (#[trigger] s.entities[i]).tag is Some ==> if s.entities[i].fresh {
            unattached(s.entities[i])
        } else {
            attached(s.entities[i])
        }
}

/// Every step keeps the balls in order: a new ball is invisible and not
/// solid until the attach step has handled it, and a ball that was handled
/// keeps what it was given.
pub proof fn lemma_step_keeps_order(s: GameView, a: Step)
    requires
        balls_in_order(s.level.store),
    ensures
        balls_in_order(step(s, a).level.store),
{
    match a {
        Step::Attach => {
            lemma_attach_keeps_order(s.level, s.ball_resource);
        },
        Step::Move(m) => {
            lemma_moved_keeps_order(s.level, seq![m]);
        },
        Step::Sample(interaction) => {
            lemma_release_keeps_order(s.level);
        },
        Step::Collide(contacts) => {},
        Step::DropFallen => {
            lemma_despawn_keeps_order(s.level.store, Selector::BallsBelow(OUT_OF_BOUNDS_ALTITUDE));
        },
        Step::Drain => {
            lemma_drain_keeps_order(s.level);
        },
        Step::Tick(interaction, moves, contacts) => {
            let s1 = s.level.attach(s.ball_resource);
            lemma_attach_keeps_order(s.level, s.ball_resource);
            let s2 = moved(s1, moves);
            lemma_moved_keeps_order(s1, moves);
            lemma_release_keeps_order(s2);
            let s3 = s.at_button(moves).sample(interaction).level;
            let s4 = s3.collide(contacts);
            lemma_despawn_keeps_order(s4.store, Selector::BallsBelow(OUT_OF_BOUNDS_ALTITUDE));
            lemma_drain_keeps_order(s4.drop_fallen());
        },
    }
}

/// Whatever steps are taken, every ball is attached exactly if it is no
/// longer new, provided that this held before the first step, as it does at
/// the start of a game.
pub proof fn lemma_run_keeps_order(s: GameView, steps: Seq<Step>)
    requires
        balls_in_order(s.level.store),
    ensures
        balls_in_order(run(s, steps).level.store),
    decreases steps.len(),
{
    if steps.len() > 0 {
        lemma_run_keeps_order(s, steps.drop_last());
        lemma_step_keeps_order(run(s, steps.drop_last()), steps.last());
    }
}

/// The attach step keeps the balls in order and leaves every ball attached.
pub proof fn lemma_attach_keeps_order(s: LevelView, resource: BallResource)
    requires
        balls_in_order(s.store),
    ensures
        balls_in_order(s.attach(resource).store),
        forall|i: int|
            0 <= i < s.attach(resource).store.entities.len() && (#[trigger] s.attach(
                resource,
            ).store.entities[i]).tag is Some ==> attached(s.attach(resource).store.entities[i]),
{
    let mid = s.store.insert(Selector::NewBalls, resource.bundle());
    let end = s.attach(resource).store;
    assert forall|i: int| 0 <= i < end.entities.len() && (#[trigger] end.entities[i]).tag is Some implies attached(
        end.entities[i],
    ) && !end.entities[i].fresh by {
        assert(end.entities[i] == mid.entities[i].settled());
        assert(s.store.entities[i].tag is Some);
    }
}

/// Components that hold no visual, no collider and no restitution keep the
/// balls in order, whichever entities receive them.
pub proof fn lemma_insert_keeps_order(s: StoreView, sel: Selector, new: Components)
    requires
        balls_in_order(s),
        new.visual is None,
        new.collider is None,
        new.restitution is None,
    ensures
        balls_in_order(s.insert(sel, new)),
{
    let t = s.insert(sel, new);
    assert forall|i: int| 0 <= i < t.entities.len() && (#[trigger] t.entities[i]).tag is Some implies if t.entities[i].fresh {
        unattached(t.entities[i])
    } else {
        attached(t.entities[i])
    } by {
        assert(s.entities[i].tag is Some);
    }
}

/// Releasing the balls keeps them in order.
pub proof fn lemma_release_keeps_order(s: LevelView)
    requires
        balls_in_order(s.store),
    ensures
        balls_in_order(s.release().store),
{
    lemma_insert_keeps_order(s.store, Selector::Balls, released());
}

/// Moving balls keeps them in order.
pub proof fn lemma_moved_keeps_order(s: LevelView, moves: Seq<BallMove>)
    requires
        balls_in_order(s.store),
    ensures
        balls_in_order(moved(s, moves).store),
    decreases moves.len(),
{
    if moves.len() > 0 {
        lemma_moved_keeps_order(s, moves.drop_last());
        lemma_insert_keeps_order(
            moved(s, moves.drop_last()).store,
            Selector::Ball(moves.last().id),
            placed(moves.last().to),
        );
    }
}

/// Despawning keeps the remaining balls in order.
pub proof fn lemma_despawn_keeps_order(s: StoreView, sel: Selector)
    requires
        balls_in_order(s),
    ensures
        balls_in_order(s.despawn(sel)),
{
    let t = s.despawn(sel);
    assert forall|k: int| 0 <= k < t.entities.len() && (#[trigger] t.entities[k]).tag is Some implies if t.entities[k].fresh {
        unattached(t.entities[k])
    } else {
        attached(t.entities[k])
    } by {
        lemma_filter_member(s.entities, sel.spared(), k);
        let i = choose|i: int| 0 <= i < s.entities.len() && s.entities[i] == t.entities[k];
        assert(s.entities[i].tag is Some);
    }
}

/// The reset handler keeps the balls in order: the ball it creates is new
/// and has no components.
pub proof fn lemma_drain_keeps_order(s: LevelView)
    requires
        balls_in_order(s.store),
    ensures
        balls_in_order(s.drain().store),
{
    if s.resets.len() > 0 {
        let mid = s.store.despawn(Selector::Balls);
        lemma_despawn_keeps_order(s.store, Selector::Balls);
        let end = s.drain().store;
        assert forall|i: int| 0 <= i < end.entities.len() && (#[trigger] end.entities[i]).tag is Some implies if end.entities[i].fresh {
            unattached(end.entities[i])
        } else {
            attached(end.entities[i])
        } by {
            if i < mid.entities.len() {
                assert(end.entities[i] == mid.entities[i]);
            }
        }
    }
}

} // verus!
