use rolling_ball::ball::Ball;
use rolling_ball::components::{BodyKind, Collider, Components, Position, Shape, Transform, Visual};
use rolling_ball::store::{Entity, EntityStore, Selector};

fn only_body(body: BodyKind) -> Components {
    let mut c = Components::empty();
    c.body = Some(body);
    c
}

fn only_transform(x: i64, y: i64, z: i64) -> Components {
    let mut c = Components::empty();
    c.transform = Some(Transform::from_xyz(x, y, z));
    c
}

#[test]
fn new_store_is_empty() {
    let store = EntityStore::new();
    assert_eq!(store.len(), 0);
    assert!(store.entities().is_empty());
    assert!(store.can_spawn());
    assert_eq!(store.query(Selector::Balls), Vec::<u64>::new());
    assert_eq!(store.get(0), None);
    assert!(!store.contains(0));
}

#[test]
fn spawn_hands_out_fresh_identifiers_in_order() {
    let mut store = EntityStore::new();
    assert_eq!(store.spawn(None), 0);
    assert_eq!(store.spawn(Some(Ball)), 1);
    assert_eq!(store.spawn(Some(Ball)), 2);
    assert_eq!(store.len(), 3);
    assert_eq!(
        store.get(1),
        Some(Entity { id: 1, tag: Some(Ball), fresh: true, components: Components::empty() })
    );
    assert_eq!(
        store.get(0),
        Some(Entity { id: 0, tag: None, fresh: false, components: Components::empty() })
    );
}

#[test]
fn identifiers_are_not_reused_after_despawn() {
    let mut store = EntityStore::new();
    let a = store.spawn(Some(Ball));
    assert_eq!(store.despawn(Selector::Entity(a)), vec![a]);
    let b = store.spawn(Some(Ball));
    assert_eq!(b, 1);
    assert!(!store.contains(a));
    assert!(store.contains(b));
}

#[test]
fn despawn_of_an_absent_entity_changes_nothing() {
    let mut store = EntityStore::new();
    store.spawn(None);
    store.spawn(Some(Ball));
    let before = store.entities().clone();
    assert_eq!(store.despawn(Selector::Entity(7)), Vec::<u64>::new());
    assert_eq!(store.entities(), &before);
    assert_eq!(store.despawn(Selector::Entity(1)), vec![1]);
    assert_eq!(store.despawn(Selector::Entity(1)), Vec::<u64>::new());
    assert_eq!(store.len(), 1);
}

#[test]
fn despawn_balls_keeps_untagged_entities_in_order() {
    let mut store = EntityStore::new();
    store.spawn(None);
    store.spawn(Some(Ball));
    store.spawn(None);
    store.spawn(Some(Ball));
    assert_eq!(store.despawn(Selector::Balls), vec![1, 3]);
    let left: Vec<u64> = store.entities().iter().map(|e| e.id).collect();
    assert_eq!(left, vec![0, 2]);
    assert_eq!(store.query(Selector::Balls), Vec::<u64>::new());
}

#[test]
fn query_by_tag_lists_balls_in_spawn_order() {
    let mut store = EntityStore::new();
    store.spawn(Some(Ball));
    store.spawn(None);
    store.spawn(Some(Ball));
    assert_eq!(store.query(Selector::Balls), vec![0, 2]);
    assert_eq!(store.query(Selector::NewBalls), vec![0, 2]);
    assert_eq!(store.query(Selector::Entity(1)), vec![1]);
    assert_eq!(store.query(Selector::Ball(1)), Vec::<u64>::new());
    assert_eq!(store.query(Selector::Ball(2)), vec![2]);
}

#[test]
fn insert_replaces_present_components_and_keeps_the_rest() {
    let mut store = EntityStore::new();
    let id = store.spawn(Some(Ball));
    assert_eq!(store.insert(Selector::Entity(id), only_body(BodyKind::Fixed)), vec![id]);
    assert_eq!(store.insert(Selector::Entity(id), only_transform(1, 2, 3)), vec![id]);
    assert_eq!(store.insert(Selector::Entity(id), only_body(BodyKind::Dynamic)), vec![id]);
    let e = store.get(id).unwrap();
    assert_eq!(e.components.body, Some(BodyKind::Dynamic));
    assert_eq!(
        e.components.transform,
        Some(Transform { translation: Position { x: 1, y: 2, z: 3 }, roll_degrees: 0 })
    );
    assert_eq!(e.components.visual, None);
    assert_eq!(e.components.collider, None);
    assert_eq!(e.components.restitution, None);
    assert_eq!(e.components.sleeping, None);
    assert!(e.fresh);
    assert_eq!(e.tag, Some(Ball));
}

#[test]
fn insert_on_an_absent_entity_changes_nothing() {
    let mut store = EntityStore::new();
    store.spawn(Some(Ball));
    let before = store.entities().clone();
    assert_eq!(store.insert(Selector::Entity(9), only_body(BodyKind::Dynamic)), Vec::<u64>::new());
    assert_eq!(store.entities(), &before);
}

#[test]
fn components_insert_overlays_field_by_field() {
    let base = Components {
        visual: Some(Visual { mesh: 1, material: 2 }),
        body: Some(BodyKind::Fixed),
        collider: None,
        restitution: Some(1100),
        sleeping: None,
        transform: None,
    };
    let new = Components {
        visual: None,
        body: Some(BodyKind::Dynamic),
        collider: Some(Collider { shape: Shape::Sphere { radius: 200 }, sensor: false }),
        restitution: None,
        sleeping: Some(false),
        transform: None,
    };
    assert_eq!(
        base.insert(new),
        Components {
            visual: Some(Visual { mesh: 1, material: 2 }),
            body: Some(BodyKind::Dynamic),
            collider: Some(Collider { shape: Shape::Sphere { radius: 200 }, sensor: false }),
            restitution: Some(1100),
            sleeping: Some(false),
            transform: None,
        }
    );
    assert_eq!(base.insert(Components::empty()), base);
    assert_eq!(Components::empty().insert(base), base);
}

#[test]
fn balls_below_needs_a_tag_and_a_transform() {
    let mut store = EntityStore::new();
    let untagged = store.spawn(None);
    let bare = store.spawn(Some(Ball));
    let low = store.spawn(Some(Ball));
    let high = store.spawn(Some(Ball));
    store.insert(Selector::Entity(untagged), only_transform(0, -50, 0));
    store.insert(Selector::Entity(low), only_transform(0, -11, 0));
    store.insert(Selector::Entity(high), only_transform(0, -10, 0));
    assert_eq!(store.query(Selector::BallsBelow(-10)), vec![low]);
    assert_eq!(store.despawn(Selector::BallsBelow(-10)), vec![low]);
    assert!(store.contains(untagged) && store.contains(bare) && store.contains(high));
    assert!(!store.contains(low));
}

#[test]
fn settle_clears_every_mark_and_nothing_else() {
    let mut store = EntityStore::new();
    store.spawn(Some(Ball));
    store.spawn(None);
    store.spawn(Some(Ball));
    store.settle();
    assert_eq!(store.query(Selector::NewBalls), Vec::<u64>::new());
    assert_eq!(store.query(Selector::Balls), vec![0, 2]);
    assert_eq!(store.len(), 3);
    let later = store.spawn(Some(Ball));
    assert_eq!(store.query(Selector::NewBalls), vec![later]);
}

#[test]
fn selector_test_agrees_with_the_queries() {
    let e = Entity { id: 4, tag: Some(Ball), fresh: false, components: only_transform(0, -3, 0) };
    assert!(Selector::Balls.test(&e));
    assert!(!Selector::NewBalls.test(&e));
    assert!(Selector::Entity(4).test(&e));
    assert!(!Selector::Entity(5).test(&e));
    assert!(Selector::Ball(4).test(&e));
    assert!(Selector::BallsBelow(-2).test(&e));
    assert!(!Selector::BallsBelow(-3).test(&e));
    let plain = Entity { id: 4, tag: None, fresh: false, components: only_transform(0, -3, 0) };
    assert!(!Selector::Balls.test(&plain));
    assert!(!Selector::Ball(4).test(&plain));
    assert!(!Selector::BallsBelow(0).test(&plain));
}
