use rolling_ball::ball::{Ball, BallResource};
use rolling_ball::components::{BodyKind, Collider, Components, Position, Shape, Transform, Visual};
use rolling_ball::events::{CollisionNotification, ResetEvent};
use rolling_ball::level::{
    Level, LevelResource, Reset, GROUND_HALF_SIDE, OUT_OF_BOUNDS_ALTITUDE, PLANE_ROLL_DEGREES,
    TARGET_HALF_SIDE, TARGET_X, TARGET_Y, TARGET_Z,
};
use rolling_ball::store::{Entity, Selector};

const GROUND_VISUAL: Visual = Visual { mesh: 1, material: 2 };
const TARGET_VISUAL: Visual = Visual { mesh: 3, material: 4 };
const BALL: BallResource = BallResource { mesh: 5, material: 6 };

fn level() -> Level {
    Level::setup(LevelResource { ground: GROUND_VISUAL, target_zone: TARGET_VISUAL })
}

fn at_altitude(y: i64) -> Transform {
    Transform::from_xyz(4000, y, 0)
}

#[test]
fn level_constants_have_their_exact_values() {
    assert_eq!(OUT_OF_BOUNDS_ALTITUDE, -10_000);
    assert_eq!(GROUND_HALF_SIDE, 5000);
    assert_eq!(TARGET_HALF_SIDE, 500);
    assert_eq!(PLANE_ROLL_DEGREES, 30);
    assert_eq!((TARGET_X, TARGET_Y, TARGET_Z), (-4000, -2250, 0));
}

#[test]
fn setup_builds_ground_target_and_one_bare_ball() {
    let level = level();
    assert_eq!(level.ground(), 0);
    assert_eq!(level.target_zone(), 1);
    assert_eq!(level.balls(), vec![2]);
    assert!(level.pending_resets().is_empty());
    let expected = vec![
        Entity {
            id: 0,
            tag: None,
            fresh: false,
            components: Components {
                visual: Some(GROUND_VISUAL),
                body: Some(BodyKind::Fixed),
                collider: Some(Collider {
                    shape: Shape::Cuboid { half_x: 5000, half_y: 0, half_z: 5000 },
                    sensor: false,
                }),
                restitution: None,
                sleeping: None,
                transform: Some(Transform {
                    translation: Position { x: 0, y: 0, z: 0 },
                    roll_degrees: 30,
                }),
            },
        },
        Entity {
            id: 1,
            tag: None,
            fresh: false,
            components: Components {
                visual: Some(TARGET_VISUAL),
                body: Some(BodyKind::Fixed),
                collider: Some(Collider {
                    shape: Shape::Cuboid { half_x: 500, half_y: 0, half_z: 500 },
                    sensor: true,
                }),
                restitution: None,
                sleeping: None,
                transform: Some(Transform {
                    translation: Position { x: -4000, y: -2250, z: 0 },
                    roll_degrees: 30,
                }),
            },
        },
        Entity { id: 2, tag: Some(Ball), fresh: true, components: Components::empty() },
    ];
    assert_eq!(level.store().entities(), &expected);
}

#[test]
fn target_hit_queues_one_reset_for_the_ball() {
    let mut level = level();
    let target = level.target_zone();
    let ball = level.balls()[0];
    level.handle_target_area_collision(&vec![CollisionNotification::Started(target, ball)]);
    assert_eq!(level.pending_resets(), &vec![ResetEvent { entity: ball }]);
    assert_eq!(level.balls(), vec![ball]);
    let reset = level.handle_level_reset_event();
    assert_eq!(
        reset,
        Some(Reset {
            requests: vec![ResetEvent { entity: ball }],
            despawned: vec![ball],
            spawned: 3,
        })
    );
    assert_eq!(level.balls(), vec![3]);
    assert!(!level.store().contains(ball));
    assert!(level.pending_resets().is_empty());
}

#[test]
fn target_hit_counts_in_either_order() {
    let mut level = level();
    level.handle_target_area_collision(&vec![CollisionNotification::Started(2, 1)]);
    assert_eq!(level.pending_resets(), &vec![ResetEvent { entity: 2 }]);
}

#[test]
fn collisions_without_the_ball_queue_nothing() {
    let mut level = level();
    let before = level.store().entities().clone();
    level.handle_target_area_collision(&vec![
        CollisionNotification::Started(1, 0),
        CollisionNotification::Started(0, 1),
        CollisionNotification::Started(1, 1),
        CollisionNotification::Started(1, 9),
        CollisionNotification::Ended(0, 1),
    ]);
    assert!(level.pending_resets().is_empty());
    assert_eq!(level.store().entities(), &before);
}

#[test]
fn ball_contacts_away_from_the_target_queue_nothing() {
    let mut level = level();
    level.handle_target_area_collision(&vec![
        CollisionNotification::Started(0, 2),
        CollisionNotification::Started(2, 0),
        CollisionNotification::Started(2, 2),
        CollisionNotification::Started(2, 7),
    ]);
    assert!(level.pending_resets().is_empty());
}

#[test]
fn end_of_a_target_contact_queues_nothing() {
    let mut level = level();
    level.handle_target_area_collision(&vec![
        CollisionNotification::Ended(1, 2),
        CollisionNotification::Ended(2, 1),
    ]);
    assert!(level.pending_resets().is_empty());
}

#[test]
fn no_notifications_queue_nothing() {
    let mut level = level();
    level.handle_target_area_collision(&Vec::new());
    assert!(level.pending_resets().is_empty());
}

#[test]
fn every_hit_notification_queues_its_own_request() {
    let mut level = level();
    level.handle_target_area_collision(&vec![
        CollisionNotification::Started(1, 2),
        CollisionNotification::Ended(1, 2),
        CollisionNotification::Started(2, 1),
        CollisionNotification::Started(0, 2),
        CollisionNotification::Started(1, 2),
    ]);
    assert_eq!(level.pending_resets(), &vec![ResetEvent { entity: 2 }; 3]);
    level.handle_target_area_collision(&vec![CollisionNotification::Started(1, 2)]);
    assert_eq!(level.pending_resets().len(), 4);
}

#[test]
fn many_requests_collapse_into_one_reset() {
    let mut level = level();
    level.handle_target_area_collision(&vec![
        CollisionNotification::Started(1, 2),
        CollisionNotification::Started(1, 2),
        CollisionNotification::Started(2, 1),
    ]);
    let reset = level.handle_level_reset_event().unwrap();
    assert_eq!(reset.requests.len(), 3);
    assert_eq!(reset.despawned, vec![2]);
    assert_eq!(reset.spawned, 3);
    assert_eq!(level.balls(), vec![3]);
    assert_eq!(level.store().len(), 3);
}

#[test]
fn draining_an_empty_queue_does_nothing() {
    let mut level = level();
    level.attach_new_balls(&BALL);
    let before = level.store().entities().clone();
    assert_eq!(level.handle_level_reset_event(), None);
    assert_eq!(level.handle_level_reset_event(), None);
    assert_eq!(level.store().entities(), &before);
    assert_eq!(level.balls(), vec![2]);
    assert!(level.pending_resets().is_empty());
}

#[test]
fn draining_twice_resets_once() {
    let mut level = level();
    level.handle_target_area_collision(&vec![CollisionNotification::Started(1, 2)]);
    assert!(level.handle_level_reset_event().is_some());
    let after = level.store().entities().clone();
    assert_eq!(level.handle_level_reset_event(), None);
    assert_eq!(level.store().entities(), &after);
}

#[test]
fn reset_removes_every_ball_even_a_bare_one() {
    let mut level = level();
    level.handle_target_area_collision(&vec![CollisionNotification::Started(1, 2)]);
    assert!(level.store().get(2).unwrap().components.transform.is_none());
    let reset = level.handle_level_reset_event().unwrap();
    assert_eq!(reset.despawned, vec![2]);
    assert_eq!(level.balls(), vec![3]);
}

#[test]
fn the_ball_after_a_reset_is_bare_until_it_is_attached() {
    let mut level = level();
    level.attach_new_balls(&BALL);
    level.handle_target_area_collision(&vec![CollisionNotification::Started(1, 2)]);
    level.handle_level_reset_event();
    assert_eq!(
        level.store().get(3),
        Some(Entity { id: 3, tag: Some(Ball), fresh: true, components: Components::empty() })
    );
    assert_eq!(level.attach_new_balls(&BALL), vec![3]);
    assert_eq!(level.store().get(3).unwrap().components, BALL.attachment());
}

#[test]
fn ball_at_the_threshold_is_still_in_bounds() {
    let mut level = level();
    level.attach_new_balls(&BALL);
    assert!(level.move_ball(2, at_altitude(-10_000)));
    assert_eq!(level.detect_ball_out_of_bounds(), Vec::<u64>::new());
    assert!(level.pending_resets().is_empty());
    assert_eq!(level.balls(), vec![2]);
}

#[test]
fn ball_below_the_threshold_is_removed_and_requests_a_reset() {
    let mut level = level();
    level.attach_new_balls(&BALL);
    assert!(level.move_ball(2, at_altitude(-10_001)));
    assert_eq!(level.detect_ball_out_of_bounds(), vec![2]);
    assert_eq!(level.pending_resets(), &vec![ResetEvent { entity: 2 }]);
    assert!(!level.store().contains(2));
    assert_eq!(level.balls(), Vec::<u64>::new());
    assert_eq!(level.store().len(), 2);
}

#[test]
fn bare_ball_is_never_out_of_bounds() {
    let mut level = level();
    assert_eq!(level.detect_ball_out_of_bounds(), Vec::<u64>::new());
    assert_eq!(level.balls(), vec![2]);
}

#[test]
fn static_entities_are_never_out_of_bounds() {
    let mut level = level();
    assert!(!level.move_ball(0, at_altitude(-99_000)));
    assert!(!level.move_ball(1, at_altitude(-99_000)));
    assert_eq!(level.detect_ball_out_of_bounds(), Vec::<u64>::new());
    assert_eq!(level.store().len(), 3);
    assert_eq!(
        level.store().get(1).unwrap().components.transform.unwrap().translation.y,
        -2250
    );
}

#[test]
fn fallen_ball_does_not_come_back_in_later_checks() {
    let mut level = level();
    level.attach_new_balls(&BALL);
    level.move_ball(2, at_altitude(-20_000));
    assert_eq!(level.detect_ball_out_of_bounds(), vec![2]);
    assert_eq!(level.detect_ball_out_of_bounds(), Vec::<u64>::new());
    assert_eq!(level.pending_resets().len(), 1);
    assert!(!level.move_ball(2, at_altitude(-20_000)));
    level.handle_level_reset_event();
    level.attach_new_balls(&BALL);
    assert_eq!(level.detect_ball_out_of_bounds(), Vec::<u64>::new());
    assert!(!level.store().contains(2));
    assert_eq!(level.balls(), vec![3]);
}

#[test]
fn reset_after_a_fall_tolerates_the_stale_identifier() {
    let mut level = level();
    level.attach_new_balls(&BALL);
    level.move_ball(2, at_altitude(-10_500));
    level.detect_ball_out_of_bounds();
    let reset = level.handle_level_reset_event().unwrap();
    assert_eq!(reset.requests, vec![ResetEvent { entity: 2 }]);
    assert_eq!(reset.despawned, Vec::<u64>::new());
    assert_eq!(reset.spawned, 3);
    assert_eq!(level.balls(), vec![3]);
}

#[test]
fn move_ball_replaces_the_transform_of_a_live_ball_only() {
    let mut level = level();
    level.attach_new_balls(&BALL);
    assert!(level.move_ball(2, Transform::from_xyz(1, 2, 3)));
    assert_eq!(
        level.store().get(2).unwrap().components.transform,
        Some(Transform::from_xyz(1, 2, 3))
    );
    assert_eq!(level.store().get(2).unwrap().components.body, Some(BodyKind::Fixed));
    assert!(!level.move_ball(5, Transform::from_xyz(1, 2, 3)));
}

#[test]
fn release_makes_every_ball_dynamic_and_awake() {
    let mut level = level();
    level.attach_new_balls(&BALL);
    assert_eq!(level.release_balls(), vec![2]);
    let c = level.store().get(2).unwrap().components;
    assert_eq!(c.body, Some(BodyKind::Dynamic));
    assert_eq!(c.sleeping, Some(false));
    assert_eq!(c.restitution, Some(1100));
    assert_eq!(level.store().get(0).unwrap().components.body, Some(BodyKind::Fixed));
    assert_eq!(level.store().get(1).unwrap().components.body, Some(BodyKind::Fixed));
    assert_eq!(level.store().query(Selector::NewBalls), Vec::<u64>::new());
}
