use rolling_ball::ball::BallResource;
use rolling_ball::components::{Transform, Visual};
use rolling_ball::events::CollisionNotification;
use rolling_ball::game::{BallMove, Game, Interaction, TickInput};
use rolling_ball::level::{Level, LevelResource, Phase};
use rolling_ball::store::Selector;

const BALL: BallResource = BallResource { mesh: 5, material: 6 };

fn resource() -> LevelResource {
    LevelResource {
        ground: Visual { mesh: 1, material: 2 },
        target_zone: Visual { mesh: 3, material: 4 },
    }
}

#[test]
fn level_starts_inert() {
    let mut level = Level::setup(resource());
    assert_eq!(level.phase(), Phase::Inert);
    level.attach_new_balls(&BALL);
    assert_eq!(level.phase(), Phase::Inert);
}

#[test]
fn release_makes_the_level_active() {
    let mut level = Level::setup(resource());
    level.attach_new_balls(&BALL);
    level.release_balls();
    assert_eq!(level.phase(), Phase::Active);
    assert_eq!(level.store().query(Selector::ActiveBalls), vec![2]);
}

#[test]
fn target_hit_makes_the_level_resetting_until_the_handler_runs() {
    let mut level = Level::setup(resource());
    level.attach_new_balls(&BALL);
    level.release_balls();
    level.handle_target_area_collision(&vec![CollisionNotification::Started(1, 2)]);
    assert_eq!(level.phase(), Phase::Resetting);
    level.handle_level_reset_event();
    assert_eq!(level.phase(), Phase::Inert);
    assert_eq!(level.store().query(Selector::ActiveBalls), Vec::<u64>::new());
}

#[test]
fn fall_makes_the_level_resetting_until_the_handler_runs() {
    let mut level = Level::setup(resource());
    level.attach_new_balls(&BALL);
    level.release_balls();
    level.move_ball(2, Transform::from_xyz(0, -10_001, 0));
    assert_eq!(level.phase(), Phase::Active);
    level.detect_ball_out_of_bounds();
    assert_eq!(level.phase(), Phase::Resetting);
    level.handle_level_reset_event();
    assert_eq!(level.phase(), Phase::Inert);
}

#[test]
fn attach_does_not_activate_and_moves_do_not_either() {
    let mut level = Level::setup(resource());
    level.attach_new_balls(&BALL);
    level.move_ball(2, Transform::from_xyz(0, 100, 0));
    level.handle_target_area_collision(&vec![CollisionNotification::Started(0, 2)]);
    level.detect_ball_out_of_bounds();
    level.handle_level_reset_event();
    assert_eq!(level.phase(), Phase::Inert);
}

#[test]
fn phase_cycles_through_a_played_round() {
    let mut game = Game::setup(resource(), BALL);
    let quiet =
        TickInput { interaction: Interaction::Idle, moves: Vec::new(), contacts: Vec::new() };
    game.tick(&quiet);
    assert_eq!(game.level().phase(), Phase::Inert);

    let press =
        TickInput { interaction: Interaction::Pressed, moves: Vec::new(), contacts: Vec::new() };
    game.tick(&press);
    assert_eq!(game.level().phase(), Phase::Active);
    game.tick(&press);
    assert_eq!(game.level().phase(), Phase::Active);

    let fall = TickInput {
        interaction: Interaction::Idle,
        moves: vec![BallMove { id: 2, to: Transform::from_xyz(0, -12_000, 0) }],
        contacts: Vec::new(),
    };
    game.tick(&fall);
    assert_eq!(game.level().phase(), Phase::Inert);
    assert_eq!(game.level().balls(), vec![3]);
}

#[test]
fn ground_and_target_survive_every_reset_untouched() {
    let mut game = Game::setup(resource(), BALL);
    let ground = game.level().store().get(0).unwrap();
    let target = game.level().store().get(1).unwrap();
    let mut ball = 2;
    for round in 0..6u64 {
        let input = TickInput {
            interaction: if round % 2 == 0 { Interaction::Pressed } else { Interaction::Idle },
            moves: vec![
                BallMove { id: 0, to: Transform::from_xyz(0, -90_000, 0) },
                BallMove { id: 1, to: Transform::from_xyz(0, -90_000, 0) },
                BallMove { id: ball, to: Transform::from_xyz(0, -90_000, 0) },
            ],
            contacts: vec![CollisionNotification::Started(1, 0)],
        };
        let report = game.tick(&input);
        if let Some(reset) = report.reset {
            ball = reset.spawned;
        }
        assert_eq!(game.level().store().get(0), Some(ground));
        assert_eq!(game.level().store().get(1), Some(target));
        assert_eq!(game.level().ground(), 0);
        assert_eq!(game.level().target_zone(), 1);
    }
    assert!(ball > 2);
}
