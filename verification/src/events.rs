//! The messages that pass between the physics engine, the level and the
//! reset handler.

use crate::store::EntityId;
use vstd::prelude::*;

verus! {

/// A request to put the level back into its initial state. It names the
/// ball that caused it; that ball may be gone by the time the request is
/// handled.
#[derive(Clone, Copy, Debug, PartialEq, Eq)]
pub struct ResetEvent {
    pub entity: EntityId,
}

/// What the physics engine reports about two colliders. A collider is named
/// by the entity that carries it.
#[derive(Clone, Copy, Debug, PartialEq, Eq)]
pub enum CollisionNotification {
    Started(EntityId, EntityId),
    Ended(EntityId, EntityId),
}

impl CollisionNotification {
    /// The notification says that `a` and `b` began to touch, in either
    /// order.
    pub open spec fn starts_between(self, a: EntityId, b: EntityId) -> bool {
        match self {
            CollisionNotification::Started(first, second) => (first == a && second == b) || (first
                == b && second == a),
            CollisionNotification::Ended(_, _) => false,
        }
    }

    /// The notification names `id` as one of its two colliders.
    pub open spec fn involves(self, id: EntityId) -> bool {
        match self {
            CollisionNotification::Started(first, second) => first == id || second == id,
            CollisionNotification::Ended(first, second) => first == id || second == id,
        }
    }

    pub fn is_start_between(&self, a: EntityId, b: EntityId) -> (yes: bool)
        ensures
            yes == self.starts_between(a, b),
    {
        match self {
            CollisionNotification::Started(first, second) => (*first == a && *second == b) || (
            *first == b && *second == a),
            CollisionNotification::Ended(_, _) => false,
        }
    }
}

/// The function that wraps an identifier into a reset request.
pub open spec fn reset_for() -> spec_fn(EntityId) -> ResetEvent {
    |id: EntityId| ResetEvent { entity: id }
}

} // verus!
