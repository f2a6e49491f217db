use rolling_ball::ball::{
    on_ball_added, report_altitude, spawn_ball, Ball, BallResource, BALL_RADIUS, BALL_RESTITUTION,
    BALL_START_X, BALL_START_Y, BALL_START_Z,
};
use rolling_ball::components::{BodyKind, Collider, Components, Position, Shape, Transform, Visual};
use rolling_ball::store::{EntityStore, Selector};

const RESOURCE: BallResource = BallResource { mesh: 11, material: 12 };

fn expected_bundle() -> Components {
    Components {
        visual: Some(Visual { mesh: 11, material: 12 }),
        body: Some(BodyKind::Fixed),
        collider: Some(Collider { shape: Shape::Sphere { radius: 200 }, sensor: false }),
        restitution: Some(1100),
        sleeping: None,
        transform: Some(Transform {
            translation: Position { x: 4000, y: 5000, z: 0 },
            roll_degrees: 0,
        }),
    }
}

#[test]
fn ball_constants_have_their_exact_values() {
    assert_eq!(BALL_RADIUS, 200);
    assert_eq!(BALL_RESTITUTION, 1100);
    assert!(BALL_RESTITUTION > 1000);
    assert_eq!((BALL_START_X, BALL_START_Y, BALL_START_Z), (4000, 5000, 0));
    assert_eq!(RESOURCE.attachment(), expected_bundle());
}

#[test]
fn spawn_ball_creates_a_bare_tagged_entity() {
    let mut store = EntityStore::new();
    let id = spawn_ball(&mut store);
    let e = store.get(id).unwrap();
    assert_eq!(e.tag, Some(Ball));
    assert!(e.fresh);
    assert_eq!(e.components, Components::empty());
}

#[test]
fn each_spawn_ball_creates_another_ball() {
    let mut store = EntityStore::new();
    let a = spawn_ball(&mut store);
    let b = spawn_ball(&mut store);
    assert_ne!(a, b);
    assert_eq!(store.query(Selector::Balls), vec![a, b]);
}

#[test]
fn on_ball_added_attaches_the_bundle_to_new_balls() {
    let mut store = EntityStore::new();
    let other = store.spawn(None);
    let ball = spawn_ball(&mut store);
    assert_eq!(on_ball_added(&mut store, &RESOURCE), vec![ball]);
    let e = store.get(ball).unwrap();
    assert_eq!(e.components, expected_bundle());
    assert!(!e.fresh);
    assert_eq!(store.get(other).unwrap().components, Components::empty());
}

#[test]
fn on_ball_added_handles_a_ball_once() {
    let mut store = EntityStore::new();
    let ball = spawn_ball(&mut store);
    assert_eq!(on_ball_added(&mut store, &RESOURCE), vec![ball]);
    let mut moved = Components::empty();
    moved.transform = Some(Transform::from_xyz(1, 2, 3));
    store.insert(Selector::Ball(ball), moved);
    assert_eq!(on_ball_added(&mut store, &RESOURCE), Vec::<u64>::new());
    assert_eq!(
        store.get(ball).unwrap().components.transform,
        Some(Transform::from_xyz(1, 2, 3))
    );
    let second = spawn_ball(&mut store);
    assert_eq!(on_ball_added(&mut store, &RESOURCE), vec![second]);
    assert_eq!(on_ball_added(&mut store, &RESOURCE), Vec::<u64>::new());
}

#[test]
fn on_ball_added_skips_a_ball_that_left_before_it_ran() {
    let mut store = EntityStore::new();
    let gone = spawn_ball(&mut store);
    let stays = spawn_ball(&mut store);
    store.despawn(Selector::Entity(gone));
    assert_eq!(on_ball_added(&mut store, &RESOURCE), vec![stays]);
    assert!(!store.contains(gone));
}

#[test]
fn report_altitude_lists_balls_that_have_a_transform() {
    let mut store = EntityStore::new();
    let untagged = store.spawn(None);
    let first = spawn_ball(&mut store);
    let _bare = spawn_ball(&mut store);
    let third = spawn_ball(&mut store);
    let mut c = Components::empty();
    c.transform = Some(Transform::from_xyz(0, 77, 0));
    store.insert(Selector::Entity(untagged), c);
    c.transform = Some(Transform::from_xyz(4000, 5000, 0));
    store.insert(Selector::Entity(first), c);
    c.transform = Some(Transform::from_xyz(1, -12345, 2));
    store.insert(Selector::Entity(third), c);
    let before = store.entities().clone();
    assert_eq!(report_altitude(&store), vec![5000, -12345]);
    assert_eq!(store.entities(), &before);
}

#[test]
fn report_altitude_of_a_bare_ball_is_empty() {
    let mut store = EntityStore::new();
    spawn_ball(&mut store);
    assert_eq!(report_altitude(&store), Vec::<i64>::new());
}
