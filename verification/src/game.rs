//! The game: the level, the start trigger, and the order in which one tick
//! runs its steps.

use crate::ball::BallResource;
use crate::components::Transform;
use crate::events::CollisionNotification;
use crate::level::{
    lemma_attach, lemma_drain, lemma_drop_fallen, lemma_move_ball, lemma_release, Level,
    LevelResource, LevelView, Phase, Reset,
};
use crate::store::{EntityId, Selector};
use vstd::prelude::*;

verus! {

/// What the pointer does to the start button, sampled once per tick.
#[derive(Clone, Copy, Debug, PartialEq, Eq, Structural)]
pub enum Interaction {
    Idle,
    Hovered,
    Pressed,
}

/// The three looks of the start button.
#[derive(Clone, Copy, Debug, PartialEq, Eq, Structural)]
pub enum ButtonColor {
    Normal,
    Hovered,
    Pressed,
}

/// What the physics engine says of one ball at the start of a tick.
#[derive(Clone, Copy, Debug, PartialEq, Eq)]
pub struct BallMove {
    pub id: EntityId,
    pub to: Transform,
}

/// What the start button asks of the host after a sample.
#[derive(Debug, PartialEq, Eq)]
pub struct ButtonResponse {
    /// The look the button takes, where the interaction has changed.
    pub color: Option<ButtonColor>,
    /// The balls that were released by this sample.
    pub started: Vec<EntityId>,
}

/// What the host hands to one tick.
#[derive(Debug, PartialEq, Eq)]
pub struct TickInput {
    pub interaction: Interaction,
    pub moves: Vec<BallMove>,
    pub contacts: Vec<CollisionNotification>,
}

/// What one tick did, for the host to repeat on its own entities.
#[derive(Debug, PartialEq, Eq)]
pub struct TickReport {
    /// The balls that became visible and solid.
    pub attached: Vec<EntityId>,
    pub button: ButtonResponse,
    /// The balls that were removed because they had fallen below the level.
    pub fallen: Vec<EntityId>,
    /// What the reset handler did, where a request was waiting.
    pub reset: Option<Reset>,
}

/// The mathematical content of a [`Game`].
pub struct GameView {
    pub level: LevelView,
    pub ball_resource: BallResource,
    /// The interaction that the last sample showed.
    pub trigger: Interaction,
}

pub struct Game {
    level: Level,
    ball_resource: BallResource,
    trigger: Interaction,
}

/// The look of the button under an interaction.
pub open spec fn color_of(interaction: Interaction) -> ButtonColor {
    match interaction {
        Interaction::Idle => ButtonColor::Normal,
        Interaction::Hovered => ButtonColor::Hovered,
        Interaction::Pressed => ButtonColor::Pressed,
    }
}

pub fn button_color(interaction: Interaction) -> (color: ButtonColor)
    ensures
        color == color_of(interaction),
{
    match interaction {
        Interaction::Idle => ButtonColor::Normal,
        Interaction::Hovered => ButtonColor::Hovered,
        Interaction::Pressed => ButtonColor::Pressed,
    }
}

/// The level after the physics engine's moves were taken over, first to
/// last.
pub open spec fn moved(level: LevelView, moves: Seq<BallMove>) -> LevelView
    decreases moves.len(),
{
    if moves.len() == 0 {
        level
    } else {
        moved(level, moves.drop_last()).move_ball(moves.last().id, moves.last().to)
    }
}

/// Moves change no tag, no mark and no identifier: the level stays valid,
/// the balls stay the same balls, and the counter, the queue and the two
/// static entities stay as they are.
pub proof fn lemma_moved(level: LevelView, moves: Seq<BallMove>)
    requires
        level.wf(),
    ensures
        moved(level, moves).wf(),
        level.store.precedes(moved(level, moves).store),
        moved(level, moves).store.next_id == level.store.next_id,
        moved(level, moves).resets == level.resets,
        moved(level, moves).ground == level.ground,
        moved(level, moves).target_zone == level.target_zone,
        moved(level, moves).balls() == level.balls(),
        moved(level, moves).store.select(Selector::NewBalls) == level.store.select(
            Selector::NewBalls,
        ),
        moved(level, moves).active() == level.active(),
        moved(level, moves).store.statics() == level.store.statics(),
        forall|id: EntityId| #[trigger] moved(level, moves).store.has(id) == level.store.has(id),
    decreases moves.len(),
{
    if moves.len() > 0 {
        let before = moved(level, moves.drop_last());
        lemma_moved(level, moves.drop_last());
        lemma_move_ball(before, moves.last().id, moves.last().to);
        assert forall|id: EntityId| #[trigger]
            moved(level, moves).store.has(id) == level.store.has(id) by {
            assert(before.store.has(id) == level.store.has(id));
            assert(before.move_ball(moves.last().id, moves.last().to).store.has(id)
                == before.store.has(id));
        }
    }
}

/// The balls after a tick: exactly one if a reset request was waiting when
/// the reset handler ran, however many there were, and those from before
/// the tick if none was.
pub proof fn lemma_tick_balls(
    s: GameView,
    interaction: Interaction,
    moves: Seq<BallMove>,
    contacts: Seq<CollisionNotification>,
)
    requires
        s.wf(),
        s.level.store.next_id < u64::MAX,
    ensures
        s.tick(interaction, moves, contacts).wf(),
        s.level.store.precedes(s.tick(interaction, moves, contacts).level.store),
        s.tick(interaction, moves, contacts).level.store.next_id <= s.level.store.next_id + 1,
        s.tick(interaction, moves, contacts).level.resets.len() == 0,
        s.tick(interaction, moves, contacts).level.phase() != Phase::Resetting,
        s.tick(interaction, moves, contacts).level.store.statics() == s.level.store.statics(),
        s.tick(interaction, moves, contacts).level.ground == s.level.ground,
        s.tick(interaction, moves, contacts).level.target_zone == s.level.target_zone,
        ({
            let before = s.at_reset(interaction, moves, contacts).level;
            let after = s.tick(interaction, moves, contacts).level;
            if before.resets.len() > 0 {
                &&& after.balls() == seq![before.store.next_id]
                &&& after.store.select(Selector::NewBalls) == after.balls()
                &&& after.phase() == Phase::Inert
            } else {
                &&& after.balls() == s.level.balls()
                &&& after.store.select(Selector::NewBalls) == Seq::<EntityId>::empty()
            }
        }),
{
    let s1 = s.level.attach(s.ball_resource);
    lemma_attach(s.level, s.ball_resource);
    let s2 = moved(s1, moves);
    lemma_moved(s1, moves);
    let s3 = s.at_button(moves).sample(interaction).level;
    lemma_release(s2);
    let s4 = s3.collide(contacts);
    let s5 = s4.drop_fallen();
    lemma_drop_fallen(s4);
    lemma_drain(s5);
    if s5.resets.len() == 0 {
        assert(s3.store.select(Selector::NewBalls) =~= Seq::<EntityId>::empty());
    }
}

impl GameView {
    pub open spec fn wf(self) -> bool {
        self.level.wf()
    }

    pub open spec fn initial(level: LevelResource, ball: BallResource) -> GameView {
        GameView {
            level: LevelView::initial(level),
            ball_resource: ball,
            trigger: Interaction::Idle,
        }
    }

    /// The sample shows the button going down: it is pressed now and was not
    /// at the last sample.
    pub open spec fn press_edge(self, interaction: Interaction) -> bool {
        interaction == Interaction::Pressed && self.trigger != Interaction::Pressed
    }

    pub open spec fn attach(self) -> GameView {
        GameView { level: self.level.attach(self.ball_resource), ..self }
    }

    pub open spec fn moved(self, moves: Seq<BallMove>) -> GameView {
        GameView { level: moved(self.level, moves), ..self }
    }

    /// The game after the start button was sampled.
    pub open spec fn sample(self, interaction: Interaction) -> GameView {
        GameView {
            level: if self.press_edge(interaction) {
                self.level.release()
            } else {
                self.level
            },
            trigger: interaction,
            ..self
        }
    }

    pub open spec fn collide(self, contacts: Seq<CollisionNotification>) -> GameView {
        GameView { level: self.level.collide(contacts), ..self }
    }

    pub open spec fn drop_fallen(self) -> GameView {
        GameView { level: self.level.drop_fallen(), ..self }
    }

    pub open spec fn drain(self) -> GameView {
        GameView { level: self.level.drain(), ..self }
    }

    /// The game when the tick reaches the start button: new balls are
    /// attached and the moves of the physics engine are taken over.
    pub open spec fn at_button(self, moves: Seq<BallMove>) -> GameView {
        self.attach().moved(moves)
    }

    /// The game when the tick reaches the out-of-bounds check.
    pub open spec fn at_bounds(
        self,
        interaction: Interaction,
        moves: Seq<BallMove>,
        contacts: Seq<CollisionNotification>,
    ) -> GameView {
        self.at_button(moves).sample(interaction).collide(contacts)
    }

    /// The game when the tick reaches the reset handler: both checks that
    /// can ask for a reset have run.
    pub open spec fn at_reset(
        self,
        interaction: Interaction,
        moves: Seq<BallMove>,
        contacts: Seq<CollisionNotification>,
    ) -> GameView {
        self.at_bounds(interaction, moves, contacts).drop_fallen()
    }

    /// The game after one tick.
    pub open spec fn tick(
        self,
        interaction: Interaction,
        moves: Seq<BallMove>,
        contacts: Seq<CollisionNotification>,
    ) -> GameView {
        self.at_reset(interaction, moves, contacts).drain()
    }
}

impl View for Game {
    type V = GameView;

    closed spec fn view(&self) -> GameView {
        GameView { level: self.level@, ball_resource: self.ball_resource, trigger: self.trigger }
    }
}

impl Game {
    /// Builds the level and puts the start button at rest.
    pub fn setup(level: LevelResource, ball: BallResource) -> (game: Game)
        ensures
            game@ == GameView::initial(level, ball),
            game@.wf(),
    {
        Game { level: Level::setup(level), ball_resource: ball, trigger: Interaction::Idle }
    }

    pub fn level(&self) -> (level: &Level)
        ensures
            level@ == self@.level,
    {
        &self.level
    }

    pub fn ball_resource(&self) -> (resource: BallResource)
        ensures
            resource == self@.ball_resource,
    {
        self.ball_resource
    }

    /// The interaction that the last sample showed.
    pub fn trigger(&self) -> (interaction: Interaction)
        ensures
            interaction == self@.trigger,
    {
        self.trigger
    }

    /// Whether a tick can run: the counter of identifiers must be able to
    /// hand out one more.
    pub fn can_tick(&self) -> (b: bool)
        ensures
            b == (self@.level.store.next_id < u64::MAX),
    {
        self.level.store().can_spawn()
    }

    /// Makes every ball that was tagged since the last call visible and
    /// solid, and returns those balls.
    pub fn render_ball_system(&mut self) -> (attached: Vec<EntityId>)
        requires
            old(self)@.wf(),
        ensures
            attached@ == old(self)@.level.store.select(Selector::NewBalls),
            final(self)@ == old(self)@.attach(),
            final(self)@.wf(),
    {
        self.level.attach_new_balls(&self.ball_resource)
    }

    /// Takes over the transforms that the physics engine reports, first to
    /// last. A move that names no live ball changes nothing.
    pub fn apply_moves(&mut self, moves: &Vec<BallMove>)
        requires
            old(self)@.wf(),
        ensures
            final(self)@ == old(self)@.moved(moves@),
            final(self)@.wf(),
    {
        let mut i: usize = 0;
        while i < moves.len()
            invariant
                i <= moves.len(),
                self.ball_resource == old(self).ball_resource,
                self.trigger == old(self).trigger,
                self.level@ == moved(old(self)@.level, moves@.take(i as int)),
                self.level@.wf(),
            decreases moves.len() - i,
        {
            let m = moves[i];
            self.level.move_ball(m.id, m.to);
            proof {
                assert(moves@.take(i + 1).drop_last() =~= moves@.take(i as int));
            }
            i = i + 1;
        }
        proof {
            assert(moves@.take(moves@.len() as int) =~= moves@);
        }
    }

    /// Samples the start button. Where the interaction differs from the last
    /// sample the button takes the look of the new one. Where the button
    /// goes down, every live ball is released: its body becomes dynamic and
    /// it is woken. A button that is held releases nothing.
    pub fn button_system(&mut self, interaction: Interaction) -> (response: ButtonResponse)
        requires
            old(self)@.wf(),
        ensures
            final(self)@ == old(self)@.sample(interaction),
            final(self)@.wf(),
            response.color == if interaction != old(self)@.trigger {
                Some(color_of(interaction))
            } else {
                None
            },
            response.started@ == if old(self)@.press_edge(interaction) {
                old(self)@.level.balls()
            } else {
                Seq::empty()
            },
    {
        let changed = interaction != self.trigger;
        let edge = interaction == Interaction::Pressed && changed;
        self.trigger = interaction;
        let started = if edge {
            self.level.release_balls()
        } else {
            Vec::new()
        };
        let color = if changed {
            Some(button_color(interaction))
        } else {
            None
        };
        ButtonResponse { color, started }
    }

    pub fn handle_target_area_collision(&mut self, contacts: &Vec<CollisionNotification>)
        requires
            old(self)@.wf(),
        ensures
            final(self)@ == old(self)@.collide(contacts@),
            final(self)@.wf(),
    {
        self.level.handle_target_area_collision(contacts)
    }

    pub fn detect_ball_out_of_bounds(&mut self) -> (fallen: Vec<EntityId>)
        requires
            old(self)@.wf(),
        ensures
            fallen@ == old(self)@.level.fallen(),
            final(self)@ == old(self)@.drop_fallen(),
            final(self)@.wf(),
            forall|id: EntityId| #[trigger]
                fallen@.contains(id) ==> final(self)@.level.store.retired(id),
    {
        self.level.detect_ball_out_of_bounds()
    }

    pub fn handle_level_reset_event(&mut self) -> (reset: Option<Reset>)
        requires
            old(self)@.wf(),
            old(self)@.level.resets.len() > 0 ==> old(self)@.level.store.next_id < u64::MAX,
        ensures
            final(self)@ == old(self)@.drain(),
            final(self)@.wf(),
            final(self)@.level.resets.len() == 0,
            old(self)@.level.resets.len() == 0 ==> reset is None && final(self)@ == old(self)@,
            old(self)@.level.resets.len() > 0 ==> reset is Some && reset.unwrap().requests@
                == old(self)@.level.resets && reset.unwrap().despawned@ == old(
                self,
            )@.level.balls() && reset.unwrap().spawned == old(self)@.level.store.next_id
                && final(self)@.level.balls() == seq![reset.unwrap().spawned],
    {
        self.level.handle_level_reset_event()
    }

    /// Runs one tick: attach the new balls, take over the moves, sample the
    /// start button, read the collisions, remove the fallen balls, and
    /// last, when both checks have queued their requests, handle the
    /// resets.
    pub fn tick(&mut self, input: &TickInput) -> (report: TickReport)
        requires
            old(self)@.wf(),
            old(self)@.level.store.next_id < u64::MAX,
        ensures
            final(self)@ == old(self)@.tick(input.interaction, input.moves@, input.contacts@),
            final(self)@.wf(),
            report.attached@ == old(self)@.level.store.select(Selector::NewBalls),
            report.button.color == if input.interaction != old(self)@.trigger {
                Some(color_of(input.interaction))
            } else {
                None
            },
            report.button.started@ == if old(self)@.press_edge(input.interaction) {
                old(self)@.at_button(input.moves@).level.balls()
            } else {
                Seq::empty()
            },
            report.fallen@ == old(self)@.at_bounds(
                input.interaction,
                input.moves@,
                input.contacts@,
            ).level.fallen(),
            ({
                let s = old(self)@.at_reset(input.interaction, input.moves@, input.contacts@).level;
                if s.resets.len() == 0 {
                    report.reset is None && final(self)@.level.balls() == old(self)@.level.balls()
                } else {
                    report.reset is Some && report.reset.unwrap().requests@ == s.resets
                        && report.reset.unwrap().despawned@ == s.balls()
                        && report.reset.unwrap().spawned == s.store.next_id
                        && final(self)@.level.balls() == seq![report.reset.unwrap().spawned]
                }
            }),
            final(self)@.level.resets.len() == 0,
    {
        proof {
            lemma_tick_balls(self@, input.interaction, input.moves@, input.contacts@);
        }
        let attached = self.render_ball_system();
        proof {
            lemma_moved(self@.level, input.moves@);
        }
        self.apply_moves(&input.moves);
        let button = self.button_system(input.interaction);
        self.handle_target_area_collision(&input.contacts);
        let fallen = self.detect_ball_out_of_bounds();
        let reset = self.handle_level_reset_event();
        TickReport { attached, button, fallen, reset }
    }
}

} // verus!
