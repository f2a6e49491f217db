//! The entity store: live entities in the order they were spawned, each with
//! a tag, a set of components and a mark that tells whether change detection
//! has reported it yet.
//!
//! Identifiers come from a counter that only grows, so an identifier that has
//! left the store never names an entity again.

use crate::ball::Ball;
use crate::components::{BodyKind, Components};
use crate::filters::{
    lemma_filter_first, lemma_filter_member, lemma_filter_none, lemma_filter_step, lemma_no_member,
};
use vstd::prelude::*;

verus! {

pub type EntityId = u64;

/// One live entity.
#[derive(Clone, Copy, Debug, PartialEq, Eq)]
pub struct Entity {
    pub id: EntityId,
    pub tag: Option<Ball>,
    /// Set while the entity is tagged and has not been reported as newly
    /// tagged.
    pub fresh: bool,
    pub components: Components,
}

/// Which entities an operation of the store works on.
#[derive(Clone, Copy, Debug, PartialEq, Eq)]
pub enum Selector {
    /// Every tagged entity.
    Balls,
    /// Every tagged entity that change detection has not reported yet.
    NewBalls,
    /// Every tagged entity whose body is dynamic.
    ActiveBalls,
    /// The entity with this identifier.
    Entity(EntityId),
    /// The entity with this identifier, if it is tagged.
    Ball(EntityId),
    /// Every tagged entity that has a transform whose altitude lies below
    /// the given one.
    BallsBelow(i64),
}

/// The mathematical content of an [`EntityStore`].
pub struct StoreView {
    pub entities: Seq<Entity>,
    pub next_id: EntityId,
}

pub struct EntityStore {
    entities: Vec<Entity>,
    next_id: EntityId,
}

impl Entity {
    /// The entity as it is right after `spawn`.
    pub open spec fn bare(id: EntityId, tag: Option<Ball>) -> Entity {
        Entity { id, tag, fresh: tag is Some, components: Components::none() }
    }

    pub open spec fn with(self, new: Components) -> Entity {
        Entity { components: self.components.with(new), ..self }
    }

    pub open spec fn settled(self) -> Entity {
        Entity { fresh: false, ..self }
    }

    /// The altitude, where the entity has a transform.
    pub open spec fn altitude(self) -> Option<i64> {
        match self.components.transform {
            Some(t) => Some(t.translation.y),
            None => None,
        }
    }
}

impl Selector {
    pub open spec fn selects(self, e: Entity) -> bool {
        match self {
            Selector::Balls => e.tag is Some,
            Selector::NewBalls => e.tag is Some && e.fresh,
            Selector::ActiveBalls => e.tag is Some && e.components.body == Some(BodyKind::Dynamic),
            Selector::Entity(id) => e.id == id,
            Selector::Ball(id) => e.tag is Some && e.id == id,
            Selector::BallsBelow(limit) => e.tag is Some && e.altitude() is Some
                && e.altitude().unwrap() < limit,
        }
    }

    /// `selects` as a predicate.
    pub open spec fn chosen(self) -> spec_fn(Entity) -> bool {
        |e: Entity| self.selects(e)
    }

    /// The selector chooses tagged entities only.
    pub open spec fn of_balls(self) -> bool {
        !(self is Entity)
    }

    /// The predicate that holds of the entities `self` leaves out.
    pub open spec fn spared(self) -> spec_fn(Entity) -> bool {
        |e: Entity| !self.selects(e)
    }

    pub fn test(&self, e: &Entity) -> (b: bool)
        ensures
            b == self.selects(*e),
    {
        match self {
            Selector::Balls => e.tag.is_some(),
            Selector::NewBalls => e.tag.is_some() && e.fresh,
            Selector::ActiveBalls => match e.components.body {
                Some(BodyKind::Dynamic) => e.tag.is_some(),
                _ => false,
            },
            Selector::Entity(id) => e.id == *id,
            Selector::Ball(id) => e.tag.is_some() && e.id == *id,
            Selector::BallsBelow(limit) => match e.components.transform {
                Some(t) => e.tag.is_some() && t.translation.y < *limit,
                None => false,
            },
        }
    }
}

/// Identifiers grow strictly along the sequence.
pub open spec fn ordered(s: Seq<Entity>) -> bool {
    forall|i: int, j: int| 0 <= i < j < s.len() ==> s[i].id < s[j].id
}

/// Every identifier in the sequence lies below `limit`.
pub open spec fn bounded(s: Seq<Entity>, limit: int) -> bool {
    forall|i: int| 0 <= i < s.len() ==> s[i].id < limit
}

/// Only tagged entities are marked as fresh.
pub open spec fn marked(s: Seq<Entity>) -> bool {
    forall|i: int| 0 <= i < s.len() && (#[trigger] s[i]).fresh ==> s[i].tag is Some
}

/// The predicate that holds of the entities without a tag.
pub open spec fn untagged() -> spec_fn(Entity) -> bool {
    |e: Entity| e.tag is None
}

/// The function that maps an entity to its identifier.
pub open spec fn id_of() -> spec_fn(Entity) -> EntityId {
    |e: Entity| e.id
}

impl StoreView {
    pub open spec fn empty() -> StoreView {
        StoreView { entities: Seq::empty(), next_id: 0 }
    }

    /// Identifiers grow along the sequence and stay below the counter, and
    /// only a tagged entity is marked as fresh.
    pub open spec fn wf(self) -> bool {
        ordered(self.entities) && bounded(self.entities, self.next_id as int) && marked(
            self.entities,
        )
    }

    /// The untagged entities, in spawn order: the static parts of a level.
    pub open spec fn statics(self) -> Seq<Entity> {
        self.entities.filter(untagged())
    }

    /// The identifiers of the selected entities, in spawn order.
    pub open spec fn select(self, sel: Selector) -> Seq<EntityId> {
        self.entities.filter(sel.chosen()).map_values(id_of())
    }

    /// The live entity with this identifier.
    pub open spec fn find(self, id: EntityId) -> Option<Entity> {
        let found = self.entities.filter(Selector::Entity(id).chosen());
        if found.len() == 0 {
            None
        } else {
            Some(found[0])
        }
    }

    pub open spec fn has(self, id: EntityId) -> bool {
        self.find(id) is Some
    }

    /// The identifier was handed out once and its entity is gone.
    pub open spec fn retired(self, id: EntityId) -> bool {
        id < self.next_id && !self.has(id)
    }

    /// The identifier was handed out and change detection will not report
    /// it: its entity has been reported, is untagged, or is gone.
    pub open spec fn settled(self, id: EntityId) -> bool {
        id < self.next_id && !self.select(Selector::NewBalls).contains(id)
    }

    /// `later` is a state that the store can be in after `self`: the
    /// counter has not gone back, and an identifier that was retired or
    /// settled still is.
    pub open spec fn precedes(self, later: StoreView) -> bool {
        &&& self.next_id <= later.next_id
        &&& forall|id: EntityId| #[trigger] self.retired(id) ==> later.retired(id)
        &&& forall|id: EntityId| #[trigger] self.settled(id) ==> later.settled(id)
    }

    pub open spec fn spawn(self, tag: Option<Ball>) -> StoreView {
        StoreView {
            entities: self.entities.push(Entity::bare(self.next_id, tag)),
            next_id: (self.next_id + 1) as EntityId,
        }
    }

    pub open spec fn despawn(self, sel: Selector) -> StoreView {
        StoreView { entities: self.entities.filter(sel.spared()), ..self }
    }

    pub open spec fn insert(self, sel: Selector, new: Components) -> StoreView {
        StoreView {
            entities: self.entities.map_values(
                |e: Entity|
                    if sel.selects(e) {
                        e.with(new)
                    } else {
                        e
                    },
            ),
            ..self
        }
    }

    /// The store after change detection has reported every fresh entity.
    pub open spec fn settle(self) -> StoreView {
        StoreView { entities: self.entities.map_values(|e: Entity| e.settled()), ..self }
    }
}

impl View for EntityStore {
    type V = StoreView;

    closed spec fn view(&self) -> StoreView {
        StoreView { entities: self.entities@, next_id: self.next_id }
    }
}

/// A filter keeps the order of the identifiers and their bound.
pub proof fn lemma_filter_ordered(s: Seq<Entity>, p: spec_fn(Entity) -> bool, limit: int)
    requires
        ordered(s),
        bounded(s, limit),
    ensures
        ordered(s.filter(p)),
        bounded(s.filter(p), limit),
    decreases s.len(),
{
    reveal(Seq::filter);
    if s.len() > 0 {
        lemma_filter_ordered(s.drop_last(), p, s.last().id as int);
    }
}

/// A filter keeps the marks on tagged entities only.
pub proof fn lemma_filter_marked(s: Seq<Entity>, p: spec_fn(Entity) -> bool)
    requires
        marked(s),
    ensures
        marked(s.filter(p)),
{
    assert forall|k: int| 0 <= k < s.filter(p).len() && (#[trigger] s.filter(p)[k]).fresh implies s.filter(
        p,
    )[k].tag is Some by {
        lemma_filter_member(s, p, k);
        let i = choose|i: int| 0 <= i < s.len() && s[i] == s.filter(p)[k];
        assert(s[i].fresh);
    }
}

/// Changing entities without touching the untagged ones leaves the
/// untagged ones as they were.
pub proof fn lemma_statics_after_map(s: Seq<Entity>, f: spec_fn(Entity) -> Entity)
    requires
        forall|i: int|
            0 <= i < s.len() ==> (#[trigger] f(s[i])).tag == s[i].tag && (s[i].tag is None ==> f(
                s[i],
            ) == s[i]),
    ensures
        s.map_values(f).filter(untagged()) == s.filter(untagged()),
    decreases s.len(),
{
    reveal(Seq::filter);
    if s.len() > 0 {
        let front = s.drop_last();
        assert(s.map_values(f).drop_last() =~= front.map_values(f));
        assert(s.map_values(f).last() == f(s.last()));
        assert(f(s[s.len() - 1]).tag == s[s.len() - 1].tag);
        assert forall|i: int| 0 <= i < front.len() implies (#[trigger] f(front[i])).tag
            == front[i].tag && (front[i].tag is None ==> f(front[i]) == front[i]) by {
            assert(front[i] == s[i]);
        }
        lemma_statics_after_map(front, f);
    } else {
        assert(s.map_values(f) =~= s);
    }
}

/// Taking out tagged entities only leaves the untagged ones as they were.
pub proof fn lemma_statics_after_filter(s: Seq<Entity>, p: spec_fn(Entity) -> bool)
    requires
        forall|i: int| 0 <= i < s.len() && (#[trigger] s[i]).tag is None ==> p(s[i]),
    ensures
        s.filter(p).filter(untagged()) == s.filter(untagged()),
    decreases s.len(),
{
    reveal(Seq::filter);
    if s.len() > 0 {
        let front = s.drop_last();
        assert forall|i: int| 0 <= i < front.len() && (#[trigger] front[i]).tag is None implies p(
            front[i],
        ) by {
            assert(front[i] == s[i]);
        }
        lemma_statics_after_filter(front, p);
        if p(s.last()) {
            front.filter(p).lemma_filter_push(s.last(), untagged());
        } else {
            assert(s[s.len() - 1].tag is Some);
        }
    }
}

/// Where a change of the entities keeps their identifiers, and `after`
/// chooses a changed entity exactly if `before` chose it unchanged, `after`
/// selects of the changed entities what `before` selected.
pub proof fn lemma_select_after_map(
    s: Seq<Entity>,
    f: spec_fn(Entity) -> Entity,
    before: Selector,
    after: Selector,
)
    requires
        forall|i: int|
            0 <= i < s.len() ==> (#[trigger] f(s[i])).id == s[i].id && after.selects(f(s[i]))
                == before.selects(s[i]),
    ensures
        s.map_values(f).filter(after.chosen()).map_values(id_of()) == s.filter(
            before.chosen(),
        ).map_values(id_of()),
    decreases s.len(),
{
    reveal(Seq::filter);
    if s.len() > 0 {
        let front = s.drop_last();
        assert(s.map_values(f).drop_last() =~= front.map_values(f));
        assert(s.map_values(f).last() == f(s.last()));
        assert(f(s[s.len() - 1]).id == s[s.len() - 1].id);
        assert forall|i: int| 0 <= i < front.len() implies (#[trigger] f(front[i])).id
            == front[i].id && after.selects(f(front[i])) == before.selects(front[i]) by {
            assert(front[i] == s[i]);
        }
        lemma_select_after_map(front, f, before, after);
        if before.selects(s.last()) {
            assert(front.map_values(f).filter(after.chosen()).push(f(s.last())).map_values(
                id_of(),
            ) =~= front.map_values(f).filter(after.chosen()).map_values(id_of()).push(
                s.last().id,
            ));
            assert(front.filter(before.chosen()).push(s.last()).map_values(id_of())
                =~= front.filter(before.chosen()).map_values(id_of()).push(s.last().id));
        }
    } else {
        assert(s.map_values(f) =~= s);
    }
}

/// An identifier is selected exactly if a live entity carries it and the
/// selector chooses that entity.
pub proof fn lemma_selected(s: StoreView, sel: Selector, id: EntityId)
    ensures
        s.select(sel).contains(id) <==> exists|i: int|
            0 <= i < s.entities.len() && s.entities[i].id == id && sel.selects(
                #[trigger] s.entities[i],
            ),
{
    let picked = s.entities.filter(sel.chosen());
    if s.select(sel).contains(id) {
        let k = choose|k: int| 0 <= k < s.select(sel).len() && s.select(sel)[k] == id;
        lemma_filter_member(s.entities, sel.chosen(), k);
        let i = choose|i: int| 0 <= i < s.entities.len() && s.entities[i] == picked[k];
        assert(s.entities[i].id == id && sel.selects(s.entities[i]));
    }
    if exists|i: int|
        0 <= i < s.entities.len() && s.entities[i].id == id && sel.selects(
            #[trigger] s.entities[i],
        ) {
        let i = choose|i: int|
            0 <= i < s.entities.len() && s.entities[i].id == id && sel.selects(
                #[trigger] s.entities[i],
            );
        s.entities.lemma_filter_contains(sel.chosen(), i);
        let k = choose|k: int| 0 <= k < picked.len() && picked[k] == s.entities[i];
        assert(s.select(sel)[k] == id);
    }
}

/// An identifier is live exactly if some entity of the store carries it.
pub proof fn lemma_has(s: StoreView, id: EntityId)
    ensures
        s.has(id) <==> exists|i: int| 0 <= i < s.entities.len() && (#[trigger] s.entities[i]).id == id,
        s.has(id) <==> s.select(Selector::Entity(id)).contains(id),
        s.wf() && s.has(id) ==> id < s.next_id,
{
    let sel = Selector::Entity(id);
    let picked = s.entities.filter(sel.chosen());
    lemma_selected(s, sel, id);
    if s.has(id) {
        lemma_filter_member(s.entities, sel.chosen(), 0);
        assert(s.select(sel)[0] == id);
    }
    if s.select(sel).contains(id) {
        assert(picked.len() > 0);
    }
    if exists|i: int| 0 <= i < s.entities.len() && (#[trigger] s.entities[i]).id == id {
        let i = choose|i: int| 0 <= i < s.entities.len() && (#[trigger] s.entities[i]).id == id;
        assert(sel.selects(s.entities[i]));
    }
}

/// A retired identifier is selected by nothing.
pub proof fn lemma_retired_unselected(s: StoreView, sel: Selector, id: EntityId)
    requires
        s.retired(id),
    ensures
        !s.select(sel).contains(id),
{
    lemma_selected(s, sel, id);
    lemma_has(s, id);
}

/// The selection after a spawn: the new identifier comes last if the
/// selector chooses a bare entity with that tag.
pub proof fn lemma_spawn_select(s: StoreView, tag: Option<Ball>, sel: Selector)
    ensures
        s.spawn(tag).select(sel) == if sel.selects(Entity::bare(s.next_id, tag)) {
            s.select(sel).push(s.next_id)
        } else {
            s.select(sel)
        },
{
    let e = Entity::bare(s.next_id, tag);
    s.entities.lemma_filter_push(e, sel.chosen());
    if sel.selects(e) {
        assert(s.entities.filter(sel.chosen()).push(e).map_values(id_of()) =~= s.select(sel).push(
            s.next_id,
        ));
    }
}

/// Spawning keeps a store valid as long as the counter has not run out, and
/// the new entity gets an identifier that was never in use.
pub proof fn lemma_spawn(s: StoreView, tag: Option<Ball>)
    requires
        s.wf(),
        s.next_id < u64::MAX,
    ensures
        s.spawn(tag).wf(),
        s.precedes(s.spawn(tag)),
        !s.has(s.next_id),
        !s.retired(s.next_id),
        tag is Some ==> s.spawn(tag).statics() == s.statics(),
{
    let t = s.spawn(tag);
    s.entities.lemma_filter_push(Entity::bare(s.next_id, tag), untagged());
    lemma_has(s, s.next_id);
    assert forall|id: EntityId| #[trigger] s.retired(id) implies t.retired(id) by {
        lemma_has(s, id);
        lemma_has(t, id);
    }
    assert forall|id: EntityId| #[trigger] s.settled(id) implies t.settled(id) by {
        lemma_spawn_select(s, tag, Selector::NewBalls);
    }
}

/// Despawning keeps a store valid, and takes out exactly the selected
/// entities: each of them is retired afterwards, and no selection grows.
pub proof fn lemma_despawn(s: StoreView, sel: Selector)
    requires
        s.wf(),
    ensures
        s.despawn(sel).wf(),
        s.precedes(s.despawn(sel)),
        s.despawn(sel).select(sel) == Seq::<EntityId>::empty(),
        forall|id: EntityId| #[trigger] s.select(sel).contains(id) ==> s.despawn(sel).retired(id),
        forall|other: Selector, id: EntityId| #[trigger]
            s.despawn(sel).select(other).contains(id) ==> s.select(other).contains(id),
        sel.of_balls() ==> s.despawn(sel).statics() == s.statics(),
{
    let t = s.despawn(sel);
    lemma_filter_ordered(s.entities, sel.spared(), s.next_id as int);
    lemma_filter_marked(s.entities, sel.spared());
    if sel.of_balls() {
        lemma_statics_after_filter(s.entities, sel.spared());
    }
    assert forall|k: int| 0 <= k < t.entities.len() implies s.entities.contains(
        #[trigger] t.entities[k],
    ) && !sel.selects(t.entities[k]) by {
        lemma_filter_member(s.entities, sel.spared(), k);
    }
    assert(t.select(sel) =~= Seq::<EntityId>::empty()) by {
        lemma_filter_none(t.entities, sel.chosen());
    }
    assert forall|other: Selector, id: EntityId| #[trigger]
        t.select(other).contains(id) implies s.select(other).contains(id) by {
        lemma_selected(t, other, id);
        lemma_selected(s, other, id);
        let k = choose|k: int|
            0 <= k < t.entities.len() && t.entities[k].id == id && other.selects(
                #[trigger] t.entities[k],
            );
        assert(s.entities.contains(t.entities[k]));
    }
    assert forall|id: EntityId| #[trigger] s.select(sel).contains(id) implies t.retired(id) by {
        lemma_selected(s, sel, id);
        lemma_has(t, id);
        let i = choose|i: int|
            0 <= i < s.entities.len() && s.entities[i].id == id && sel.selects(
                #[trigger] s.entities[i],
            );
        if t.has(id) {
            let k = choose|k: int| 0 <= k < t.entities.len() && (#[trigger] t.entities[k]).id == id;
            assert(s.entities.contains(t.entities[k]));
            let j = choose|j: int| 0 <= j < s.entities.len() && s.entities[j] == t.entities[k];
            assert(i == j);
        }
    }
    assert forall|id: EntityId| #[trigger] s.retired(id) implies t.retired(id) by {
        lemma_has(s, id);
        lemma_has(t, id);
        if t.has(id) {
            let k = choose|k: int| 0 <= k < t.entities.len() && (#[trigger] t.entities[k]).id == id;
            assert(s.entities.contains(t.entities[k]));
        }
    }
    assert forall|id: EntityId| #[trigger] s.settled(id) implies t.settled(id) by {
        assert(t.select(Selector::NewBalls).contains(id) ==> s.select(Selector::NewBalls).contains(
            id,
        ));
    }
}

/// Inserting components keeps a store valid. It changes no identifier, no
/// tag and no mark, so the balls, the new balls and the live identifiers
/// are the same as before.
pub proof fn lemma_insert(s: StoreView, sel: Selector, new: Components)
    requires
        s.wf(),
    ensures
        s.insert(sel, new).wf(),
        s.precedes(s.insert(sel, new)),
        s.insert(sel, new).select(Selector::Balls) == s.select(Selector::Balls),
        s.insert(sel, new).select(Selector::NewBalls) == s.select(Selector::NewBalls),
        forall|id: EntityId| #[trigger] s.insert(sel, new).has(id) == s.has(id),
        new.body is None ==> s.insert(sel, new).select(Selector::ActiveBalls) == s.select(
            Selector::ActiveBalls,
        ),
        new.body == Some(BodyKind::Dynamic) && sel == Selector::Balls ==> s.insert(sel, new).select(
            Selector::ActiveBalls,
        ) == s.select(Selector::Balls),
        new.body == Some(BodyKind::Fixed) && s.select(Selector::ActiveBalls).len() == 0
            ==> s.insert(sel, new).select(Selector::ActiveBalls).len() == 0,
        sel.of_balls() ==> s.insert(sel, new).statics() == s.statics(),
{
    let t = s.insert(sel, new);
    let f = |e: Entity|
        if sel.selects(e) {
            e.with(new)
        } else {
            e
        };
    assert(t.entities =~= s.entities.map_values(f));
    if sel.of_balls() {
        lemma_statics_after_map(s.entities, f);
    }
    lemma_select_after_map(s.entities, f, Selector::Balls, Selector::Balls);
    lemma_select_after_map(s.entities, f, Selector::NewBalls, Selector::NewBalls);
    assert forall|id: EntityId| #[trigger] t.has(id) == s.has(id) by {
        lemma_select_after_map(s.entities, f, Selector::Entity(id), Selector::Entity(id));
        lemma_has(s, id);
        lemma_has(t, id);
    }
    if new.body is None {
        lemma_select_after_map(s.entities, f, Selector::ActiveBalls, Selector::ActiveBalls);
    }
    if new.body == Some(BodyKind::Dynamic) && sel == Selector::Balls {
        lemma_select_after_map(s.entities, f, Selector::Balls, Selector::ActiveBalls);
    }
    if new.body == Some(BodyKind::Fixed) && s.select(Selector::ActiveBalls).len() == 0 {
        assert forall|id: EntityId| !t.select(Selector::ActiveBalls).contains(id) by {
            lemma_selected(t, Selector::ActiveBalls, id);
            lemma_selected(s, Selector::ActiveBalls, id);
            if t.select(Selector::ActiveBalls).contains(id) {
                let i = choose|i: int|
                    0 <= i < t.entities.len() && t.entities[i].id == id
                        && Selector::ActiveBalls.selects(#[trigger] t.entities[i]);
                assert(Selector::ActiveBalls.selects(s.entities[i]));
                assert(s.select(Selector::ActiveBalls).contains(id));
            }
        }
        lemma_no_member(t.select(Selector::ActiveBalls));
    }
}

/// Settling keeps a store valid, changes no identifier and no tag, and
/// leaves no ball new.
pub proof fn lemma_settle(s: StoreView)
    requires
        s.wf(),
    ensures
        s.settle().wf(),
        s.precedes(s.settle()),
        s.settle().select(Selector::Balls) == s.select(Selector::Balls),
        s.settle().select(Selector::NewBalls) == Seq::<EntityId>::empty(),
        s.settle().select(Selector::ActiveBalls) == s.select(Selector::ActiveBalls),
        s.settle().statics() == s.statics(),
        forall|id: EntityId| #[trigger] s.settle().has(id) == s.has(id),
{
    let t = s.settle();
    let f = |e: Entity| e.settled();
    assert(t.entities =~= s.entities.map_values(f));
    lemma_statics_after_map(s.entities, f);
    lemma_select_after_map(s.entities, f, Selector::ActiveBalls, Selector::ActiveBalls);
    lemma_select_after_map(s.entities, f, Selector::Balls, Selector::Balls);
    assert(t.select(Selector::NewBalls) =~= Seq::<EntityId>::empty()) by {
        lemma_filter_none(t.entities, Selector::NewBalls.chosen());
    }
    assert forall|id: EntityId| #[trigger] t.has(id) == s.has(id) by {
        lemma_select_after_map(s.entities, f, Selector::Entity(id), Selector::Entity(id));
        lemma_has(s, id);
        lemma_has(t, id);
    }
}

impl EntityStore {
    pub fn new() -> (store: EntityStore)
        ensures
            store@ == StoreView::empty(),
            store@.wf(),
    {
        EntityStore { entities: Vec::new(), next_id: 0 }
    }

    /// The number of live entities.
    pub fn len(&self) -> (n: usize)
        ensures
            n == self@.entities.len(),
    {
        self.entities.len()
    }

    /// The live entities, in spawn order.
    pub fn entities(&self) -> (all: &Vec<Entity>)
        ensures
            all@ == self@.entities,
    {
        &self.entities
    }

    /// Whether the counter can still hand out an identifier.
    pub fn can_spawn(&self) -> (b: bool)
        ensures
            b == (self@.next_id < u64::MAX),
    {
        self.next_id < u64::MAX
    }

    /// Creates an entity with no components and returns its identifier,
    /// which no entity has had before.
    pub fn spawn(&mut self, tag: Option<Ball>) -> (id: EntityId)
        requires
            old(self)@.wf(),
            old(self)@.next_id < u64::MAX,
        ensures
            id == old(self)@.next_id,
            final(self)@ == old(self)@.spawn(tag),
            final(self)@.wf(),
    {
        let id = self.next_id;
        self.entities.push(Entity { id, tag, fresh: tag.is_some(), components: Components::empty() });
        self.next_id = id + 1;
        id
    }

    /// Removes the selected entities and returns their identifiers. Where
    /// none is selected nothing changes.
    pub fn despawn(&mut self, sel: Selector) -> (gone: Vec<EntityId>)
        requires
            old(self)@.wf(),
        ensures
            gone@ == old(self)@.select(sel),
            final(self)@ == old(self)@.despawn(sel),
            final(self)@.wf(),
    {
        let ghost s = self.entities@;
        let mut kept: Vec<Entity> = Vec::new();
        let mut gone: Vec<EntityId> = Vec::new();
        let n = self.entities.len();
        let mut i: usize = 0;
        while i < n
            invariant
                i <= n,
                n == s.len(),
                self.entities@ == s,
                kept@ == s.take(i as int).filter(sel.spared()),
                gone@ == s.take(i as int).filter(sel.chosen()).map_values(id_of()),
            decreases n - i,
        {
            let e = self.entities[i];
            proof {
                lemma_filter_step(s, sel.spared(), i as int);
                lemma_filter_step(s, sel.chosen(), i as int);
            }
            if sel.test(&e) {
                gone.push(e.id);
            } else {
                kept.push(e);
            }
            i = i + 1;
        }
        proof {
            assert(s.take(n as int) =~= s);
            lemma_filter_ordered(s, sel.spared(), self.next_id as int);
            lemma_filter_marked(s, sel.spared());
        }
        self.entities = kept;
        gone
    }

    /// Inserts `new` into the component set of every selected entity and
    /// returns their identifiers.
    pub fn insert(&mut self, sel: Selector, new: Components) -> (hit: Vec<EntityId>)
        requires
            old(self)@.wf(),
        ensures
            hit@ == old(self)@.select(sel),
            final(self)@ == old(self)@.insert(sel, new),
            final(self)@.wf(),
    {
        let ghost s = self.entities@;
        let mut hit: Vec<EntityId> = Vec::new();
        let n = self.entities.len();
        let mut i: usize = 0;
        while i < n
            invariant
                i <= n,
                n == s.len(),
                self.entities@.len() == n,
                forall|j: int| 0 <= j < i ==> self.entities@[j] == old(self)@.insert(sel, new).entities[j],
                forall|j: int| i <= j < n ==> self.entities@[j] == s[j],
                hit@ == s.take(i as int).filter(sel.chosen()).map_values(id_of()),
                s == old(self)@.entities,
                self.next_id == old(self).next_id,
            decreases n - i,
        {
            let e = self.entities[i];
            proof {
                lemma_filter_step(s, sel.chosen(), i as int);
            }
            if sel.test(&e) {
                hit.push(e.id);
                self.entities.set(
                    i,
                    Entity { id: e.id, tag: e.tag, fresh: e.fresh, components: e.components.insert(new) },
                );
            }
            i = i + 1;
        }
        proof {
            assert(s.take(n as int) =~= s);
            assert(self.entities@ =~= old(self)@.insert(sel, new).entities);
            assert(forall|j: int| 0 <= j < n ==> self.entities@[j].id == s[j].id);
        }
        hit
    }

    /// Marks every entity as reported.
    pub fn settle(&mut self)
        requires
            old(self)@.wf(),
        ensures
            final(self)@ == old(self)@.settle(),
            final(self)@.wf(),
    {
        let ghost s = self.entities@;
        let n = self.entities.len();
        let mut i: usize = 0;
        while i < n
            invariant
                i <= n,
                n == s.len(),
                self.entities@.len() == n,
                forall|j: int| 0 <= j < i ==> self.entities@[j] == s[j].settled(),
                forall|j: int| i <= j < n ==> self.entities@[j] == s[j],
                s == old(self)@.entities,
                self.next_id == old(self).next_id,
            decreases n - i,
        {
            let e = self.entities[i];
            self.entities.set(
                i,
                Entity { id: e.id, tag: e.tag, fresh: false, components: e.components },
            );
            i = i + 1;
        }
        proof {
            assert(self.entities@ =~= old(self)@.settle().entities);
            assert(forall|j: int| 0 <= j < n ==> self.entities@[j].id == s[j].id);
        }
    }

    /// The identifiers of the selected entities, in spawn order.
    pub fn query(&self, sel: Selector) -> (ids: Vec<EntityId>)
        ensures
            ids@ == self@.select(sel),
    {
        let ghost s = self.entities@;
        let mut ids: Vec<EntityId> = Vec::new();
        let n = self.entities.len();
        let mut i: usize = 0;
        while i < n
            invariant
                i <= n,
                n == s.len(),
                self.entities@ == s,
                ids@ == s.take(i as int).filter(sel.chosen()).map_values(id_of()),
            decreases n - i,
        {
            let e = self.entities[i];
            proof {
                lemma_filter_step(s, sel.chosen(), i as int);
            }
            if sel.test(&e) {
                ids.push(e.id);
            }
            i = i + 1;
        }
        proof {
            assert(s.take(n as int) =~= s);
        }
        ids
    }

    /// The live entity with this identifier, if there is one.
    pub fn get(&self, id: EntityId) -> (found: Option<Entity>)
        ensures
            found == self@.find(id),
    {
        let ghost s = self.entities@;
        let ghost p = Selector::Entity(id).chosen();
        let n = self.entities.len();
        let mut i: usize = 0;
        while i < n
            invariant
                i <= n,
                n == s.len(),
                self.entities@ == s,
                p == Selector::Entity(id).chosen(),
                forall|j: int| 0 <= j < i ==> !p(s[j]),
            decreases n - i,
        {
            let e = self.entities[i];
            if e.id == id {
                proof {
                    lemma_filter_first(s, p, i as int);
                }
                return Some(e);
            }
            i = i + 1;
        }
        proof {
            lemma_filter_none(s, p);
        }
        None
    }

    pub fn contains(&self, id: EntityId) -> (b: bool)
        ensures
            b == self@.has(id),
    {
        self.get(id).is_some()
    }
}

} // verus!
