//! A small entity registry with typed component storage.
//!
//! Entities are non-zero ids handed out by a free-list arena: freed
//! slots are reused before the arena grows, so the live set stays
//! dense.  A `ComponentStorage` keeps one component type per entity the
//! same way.  The dynamic query and scheduling machinery that a full
//! entity-component system would add dispatches through erased types,
//! which the verifier cannot follow; the server drives its entities
//! through these typed pieces directly.

use vstd::prelude::*;

use core::marker::PhantomData;

verus! {

/// A marker for types that can be stored per entity.
pub trait Component {

}

/// An entity: a unique non-zero id.
#[derive(Debug, Copy, Clone, PartialEq, Eq, Structural, Hash)]
pub struct Entity {
    id: usize,
}

impl Entity {
    /// The non-zero id.
    pub closed spec fn spec_id(self) -> usize {
        self.id
    }

    /// An entity id is never zero.
    pub closed spec fn wf(self) -> bool {
        self.id >= 1
    }
}

impl Component for Entity {

}

/// The set of live entities: a slot arena, id `i + 1` in slot `i`.
#[derive(Debug)]
pub struct Entities {
    storage: Vec<Option<Entity>>,
}

impl Entities {
    /// Each occupied slot holds the entity whose id names it.
    pub closed spec fn wf(self) -> bool {
        forall|i: int|
            0 <= i < self.storage@.len() ==> ((#[trigger] self.storage@[i]) is Some
                ==> self.storage@[i].unwrap().spec_id() == i + 1)
    }

    /// Whether an entity is live.
    pub closed spec fn spec_alive(self, e: Entity) -> bool {
        1 <= e.spec_id() <= self.storage@.len() && self.storage@[e.spec_id() - 1] is Some
    }

    /// Number of slots the arena has grown to.
    pub closed spec fn spec_slots(self) -> int {
        self.storage@.len() as int
    }

    /// Whether a slot is occupied.
    pub closed spec fn spec_slot_occupied(self, i: int) -> bool {
        0 <= i < self.storage@.len() && self.storage@[i] is Some
    }

    /// An empty arena.
    pub fn new() -> (r: Entities)
        ensures
            r.wf(),
            r.spec_slots() == 0,
    {
        Entities { storage: Vec::new() }
    }

    /// Registers a new entity: the first free slot is reused, and only
    /// a full arena grows.  The new entity is live, was not live
    /// before, and every other entity's liveness is untouched.
    pub fn register(&mut self) -> (r: Entity)
        requires
            old(self).wf(),
            old(self).spec_slots() < 0x1000000,
        ensures
            final(self).wf(),
            r.wf(),
            final(self).spec_alive(r),
            !old(self).spec_alive(r),
            forall|e: Entity|
                e != r ==> (#[trigger] final(self).spec_alive(e) <==> old(self).spec_alive(e)),
            forall|k: int| 0 <= k < r.spec_id() - 1 ==> old(self).spec_slot_occupied(k),
            r.spec_id() - 1 <= old(self).spec_slots(),
            r.spec_id() - 1 < old(self).spec_slots() ==> final(self).spec_slots() == old(
                self,
            ).spec_slots(),
            r.spec_id() - 1 == old(self).spec_slots() ==> final(self).spec_slots() == old(
                self,
            ).spec_slots() + 1,
    {
        let mut i: usize = 0;
        while i < self.storage.len()
            invariant
                i <= self.storage@.len(),
                self == old(self),
                old(self).wf(),
                old(self).spec_slots() < 0x1000000,
                forall|k: int| 0 <= k < i ==> (#[trigger] self.storage@[k]) is Some,
            decreases self.storage@.len() - i,
        {
            let free = match &self.storage[i] {
                Some(_) => false,
                None => true,
            };
            if free {
                let entity = Entity { id: i + 1 };
                self.storage.set(i, Some(entity));
                proof {
                    assert(forall|k: int|
                        0 <= k < self.storage@.len() && k != i ==> self.storage@[k] == old(
                            self,
                        ).storage@[k]);
                }
                return entity;
            }
            i = i + 1;
        }
        let entity = Entity { id: self.storage.len() + 1 };
        self.storage.push(Some(entity));
        proof {
            assert(forall|k: int|
                0 <= k < old(self).storage@.len() ==> self.storage@[k] == old(self).storage@[k]);
        }
        entity
    }

    /// Unregisters an entity whose id is inside the arena; a slot that
    /// is already free stays free, so deregistering twice is harmless.
    /// The slot becomes free for reuse.
    pub fn deregister(&mut self, entity: Entity)
        requires
            old(self).wf(),
            1 <= entity.spec_id() <= old(self).spec_slots(),
        ensures
            final(self).wf(),
            !final(self).spec_alive(entity),
            forall|e: Entity|
                e != entity ==> (#[trigger] final(self).spec_alive(e) <==> old(self).spec_alive(
                    e,
                )),
            final(self).spec_slots() == old(self).spec_slots(),
    {
        self.storage.set(entity.id - 1, None);
        proof {
            assert(forall|k: int|
                0 <= k < self.storage@.len() && k != entity.spec_id() - 1 ==> self.storage@[k]
                    == old(self).storage@[k]);
            assert forall|e: Entity|
                e != entity implies (#[trigger] self.spec_alive(e) <==> old(self).spec_alive(
                e,
            )) by {
                if 1 <= e.spec_id() <= self.storage@.len() && e.spec_id() != entity.spec_id() {
                    assert(self.storage@[e.spec_id() - 1] == old(self).storage@[e.spec_id() - 1]);
                }
            }
        }
    }

    /// An iterator over the live entities.
    pub fn iter(&self) -> (r: EntityIter)
        ensures
            r.entities_match(*self),
            r.spec_index() == 0,
    {
        EntityIter::new(self)
    }
}

/// Walks the live entities of an arena in slot order.
pub struct EntityIter<'a> {
    index: usize,
    entities: &'a Entities,
}

impl<'a> EntityIter<'a> {
    /// The arena the iterator walks.
    pub closed spec fn spec_entities(self) -> Entities {
        *self.entities
    }

    /// The iterator walks this arena.
    pub closed spec fn entities_match(self, e: Entities) -> bool {
        *self.entities == e
    }

    /// Position of the next slot to look at.
    pub closed spec fn spec_index(self) -> int {
        self.index as int
    }

    /// An iterator at the first slot.
    pub fn new(entities: &'a Entities) -> (r: EntityIter<'a>)
        ensures
            r.entities_match(*entities),
            r.spec_index() == 0,
    {
        EntityIter { index: 0, entities }
    }

    /// The next live entity at or past the current slot, if any; the
    /// cursor moves strictly past the slot it came from, and never past
    /// the arena, so a walk yields at most one entity per slot.
    pub fn next(&mut self) -> (r: Option<Entity>)
        requires
            old(self).spec_entities().wf(),
            old(self).spec_index() <= old(self).spec_entities().spec_slots(),
        ensures
            final(self).spec_entities() == old(self).spec_entities(),
            r is Some ==> {
                &&& old(self).spec_entities().spec_alive(r.unwrap())
                &&& final(self).spec_index() > old(self).spec_index()
                &&& final(self).spec_index() <= old(self).spec_entities().spec_slots()
                &&& r.unwrap().spec_id() == final(self).spec_index()
            },
            r is None ==> final(self).spec_index() == old(self).spec_entities().spec_slots(),
    {
        while self.index < self.entities.storage.len()
            invariant
                self.entities == old(self).entities,
                old(self).entities.wf(),
                self.index >= old(self).index,
                self.index <= self.entities.storage@.len(),
            decreases self.entities.storage@.len() - self.index,
        {
            let slot = &self.entities.storage[self.index];
            self.index = self.index + 1;
            match slot {
                Some(e) => {
                    proof {
                        assert(self.entities.storage@[self.index - 1] is Some);
                        assert(e.spec_id() == self.index);
                    }
                    return Some(*e);
                },
                None => {},
            }
        }
        None
    }

    /// Number of slots not yet walked.
    pub fn len(&self) -> (r: usize)
        requires
            self.spec_index() <= self.spec_entities().spec_slots(),
        ensures
            r == self.spec_entities().spec_slots() - self.spec_index(),
    {
        self.entities.storage.len() - self.index
    }
}

/// A live entity together with the world that owns it.
#[derive(Copy, Clone)]
pub struct EntityRef<'w> {
    pub(crate) entity: Entity,
    pub(crate) world: &'w World,
}

impl<'w> EntityRef<'w> {
    /// The entity referred to.
    pub closed spec fn spec_entity(self) -> Entity {
        self.entity
    }

    /// The entity's id.
    pub fn id(self) -> (r: Entity)
        ensures
            r == self.spec_entity(),
    {
        self.entity
    }
}

/// Stores every component of one type, one slot per entity.
pub struct ComponentStorage<C: Component> {
    /// Slot of each entity's component, by entity id.
    indices: Vec<Option<usize>>,
    /// The components.
    storage: Vec<Option<C>>,
}

impl<C: Component> ComponentStorage<C> {
    /// Every index points into the storage, at an occupied slot, and no
    /// two entities share a slot.
    pub closed spec fn wf(self) -> bool {
        &&& forall|i: int|
            0 <= i < self.indices@.len() ==> ((#[trigger] self.indices@[i]) is Some
                ==> self.indices@[i].unwrap() < self.storage@.len() && self.storage@[self.indices@[
                i].unwrap() as int] is Some)
        &&& forall|i: int, j: int|
            0 <= i < self.indices@.len() && 0 <= j < self.indices@.len() && i != j && (
            #[trigger] self.indices@[i]) is Some && (#[trigger] self.indices@[j]) is Some
                ==> self.indices@[i].unwrap() != self.indices@[j].unwrap()
    }

    /// Whether an entity has a component here.
    pub closed spec fn spec_has(self, e: Entity) -> bool {
        e.spec_id() < self.indices@.len() && self.indices@[e.spec_id() as int] is Some
    }

    /// The component stored for an entity; meaningful under
    /// [`Self::spec_has`].
    pub closed spec fn spec_at(self, e: Entity) -> C {
        self.storage@[self.indices@[e.spec_id() as int].unwrap() as int].unwrap()
    }

    /// An empty storage.
    pub fn new() -> (r: ComponentStorage<C>)
        ensures
            r.wf(),
            forall|e: Entity| !r.spec_has(e),
    {
        ComponentStorage { indices: Vec::new(), storage: Vec::new() }
    }

    /// Number of component slots in use or free.
    pub closed spec fn spec_slots(self) -> int {
        self.storage@.len() as int
    }

    /// Stores a component for an entity, reusing the first free slot;
    /// an entity that already had one has it replaced.
    pub fn register(&mut self, entity: Entity, component: C)
        requires
            old(self).wf(),
            entity.wf(),
            entity.spec_id() < 0x1000000,
            old(self).spec_slots() < 0x1000000,
        ensures
            final(self).wf(),
            final(self).spec_has(entity),
            final(self).spec_at(entity) == component,
            forall|e: Entity|
                e != entity ==> (#[trigger] final(self).spec_has(e) <==> old(self).spec_has(e)),
            forall|e: Entity|
                e != entity && old(self).spec_has(e) ==> #[trigger] final(self).spec_at(e) == old(
                    self,
                ).spec_at(e),
    {
        // Find a free component slot, or grow.
        let mut slot: usize = 0;
        let mut found = false;
        let mut j: usize = 0;
        while j < self.storage.len()
            invariant_except_break
                j <= self.storage@.len(),
                self == old(self),
                !found,
            ensures
                found ==> slot < self.storage@.len() && self.storage@[slot as int] is None,
                self == old(self),
            decreases self.storage@.len() - j,
        {
            let free = match &self.storage[j] {
                Some(_) => false,
                None => true,
            };
            if free {
                slot = j;
                found = true;
                break ;
            }
            j = j + 1;
        }
        let ghost st0 = self.storage@;
        proof {
            if found {
                assert forall|k: int|
                    0 <= k < self.indices@.len() && (#[trigger] self.indices@[k])
                        is Some implies self.indices@[k].unwrap() != slot by {
                    assert(self.storage@[self.indices@[k].unwrap() as int] is Some);
                }
            } else {
                assert forall|k: int|
                    0 <= k < self.indices@.len() && (#[trigger] self.indices@[k])
                        is Some implies self.indices@[k].unwrap() != st0.len() by {
                    assert(self.indices@[k].unwrap() < st0.len());
                }
            }
        }
        if found {
            self.storage.set(slot, Some(component));
        } else {
            slot = self.storage.len();
            self.storage.push(Some(component));
        }
        proof {
            assert(self.storage@[slot as int] is Some);
            assert(forall|k: int|
                0 <= k < st0.len() && k != slot ==> self.storage@[k] == st0[k]);
        }
        // Grow the index table up to the entity's id.
        while self.indices.len() <= entity.id
            invariant
                self.storage@.len() >= 1,
                slot < self.storage@.len(),
                self.storage@[slot as int] == Some(component),
                old(self).wf(),
                forall|k: int|
                    0 <= k < self.indices@.len() ==> ((#[trigger] self.indices@[k]) is Some
                        ==> self.indices@[k].unwrap() < self.storage@.len() && self.storage@[
                    self.indices@[k].unwrap() as int] is Some),
                self.indices@.len() >= old(self).indices@.len(),
                forall|k: int|
                    old(self).indices@.len() <= k < self.indices@.len() ==> (
                    #[trigger] self.indices@[k]) is None,
                forall|k: int|
                    0 <= k < old(self).indices@.len() && k != entity.spec_id() ==> self.indices@[k]
                        == old(self).indices@[k],
                forall|k: int|
                    0 <= k < self.indices@.len() && (#[trigger] self.indices@[k]) is Some
                        ==> self.indices@[k].unwrap() != slot,
                forall|i: int, j2: int|
                    0 <= i < self.indices@.len() && 0 <= j2 < self.indices@.len() && i != j2 && (
                    #[trigger] self.indices@[i]) is Some && (#[trigger] self.indices@[j2]) is Some
                        ==> self.indices@[i].unwrap() != self.indices@[j2].unwrap(),
                forall|k: int|
                    0 <= k < st0.len() && k != slot ==> self.storage@[k] == st0[k],
                entity.spec_id() < 0x1000000,
            decreases entity.id + 1 - self.indices@.len(),
        {
            self.indices.push(None);
        }
        let ghost pre = self.indices@;
        self.indices.set(entity.id, Some(slot));
        proof {
            assert(self.indices@[entity.spec_id() as int] is Some);
            assert(self.spec_at(entity) == component);
            assert forall|e: Entity|
                e != entity implies (#[trigger] self.spec_has(e) <==> old(self).spec_has(e)) by {
                if e.spec_id() != entity.spec_id() {
                    if 0 <= e.spec_id() < old(self).indices@.len() {
                        assert(self.indices@[e.spec_id() as int] == old(self).indices@[e.spec_id()
                            as int]);
                    }
                }
            }
            assert forall|e: Entity|
                e != entity && old(self).spec_has(e) implies #[trigger] self.spec_at(e) == old(
                self,
            ).spec_at(e) by {
                assert(self.indices@[e.spec_id() as int] == old(self).indices@[e.spec_id()
                    as int]);
                let se = old(self).indices@[e.spec_id() as int].unwrap();
                assert(pre[e.spec_id() as int] == old(self).indices@[e.spec_id() as int]);
                assert(se != slot);
                assert(self.storage@[se as int] == st0[se as int]);
            }
            assert forall|i: int, j2: int|
                0 <= i < self.indices@.len() && 0 <= j2 < self.indices@.len() && i != j2 && (
                #[trigger] self.indices@[i]) is Some && (#[trigger] self.indices@[j2])
                    is Some implies self.indices@[i].unwrap() != self.indices@[j2].unwrap() by {
                if i != entity.spec_id() && j2 != entity.spec_id() {
                    assert(self.indices@[i] == pre[i]);
                    assert(self.indices@[j2] == pre[j2]);
                } else if i == entity.spec_id() {
                    assert(self.indices@[j2] == pre[j2]);
                    assert(pre[j2].unwrap() != slot);
                } else {
                    assert(self.indices@[i] == pre[i]);
                    assert(pre[i].unwrap() != slot);
                }
            }
        }
    }

    /// The component of an entity, if it has one: exactly the value
    /// last registered for it.
    pub fn query(&self, entity: Entity) -> (r: Option<&C>)
        requires
            self.wf(),
        ensures
            match r {
                Some(c) => self.spec_has(entity) && *c == self.spec_at(entity),
                None => !self.spec_has(entity),
            },
    {
        if entity.id >= self.indices.len() {
            return None;
        }
        match &self.indices[entity.id] {
            Some(slot) => {
                match &self.storage[*slot] {
                    Some(c) => Some(c),
                    None => None,
                }
            },
            None => None,
        }
    }

    /// Removes an entity's component, freeing its slot for reuse; an
    /// entity without one is left alone.  Run on despawn by whoever
    /// owns the storage, so a reused entity id starts clean.
    pub fn deregister(&mut self, entity: Entity)
        requires
            old(self).wf(),
        ensures
            final(self).wf(),
            !final(self).spec_has(entity),
            forall|e: Entity|
                e != entity ==> (#[trigger] final(self).spec_has(e) <==> old(self).spec_has(e)),
            forall|e: Entity|
                e != entity && old(self).spec_has(e) ==> #[trigger] final(self).spec_at(e) == old(
                    self,
                ).spec_at(e),
    {
        if entity.id >= self.indices.len() {
            return ;
        }
        let slot = match &self.indices[entity.id] {
            Some(slot) => *slot,
            None => {
                return ;
            },
        };
        self.storage.set(slot, None);
        self.indices.set(entity.id, None);
        proof {
            assert(forall|k: int|
                0 <= k < self.indices@.len() && k != entity.spec_id() ==> self.indices@[k] == old(
                    self,
                ).indices@[k]);
            assert forall|e: Entity|
                e != entity && old(self).spec_has(e) implies #[trigger] self.spec_at(e) == old(
                self,
            ).spec_at(e) by {
                let se = old(self).indices@[e.spec_id() as int].unwrap();
                assert(se != slot);
                assert(self.storage@[se as int] == old(self).storage@[se as int]);
            }
            assert forall|k: int|
                0 <= k < self.indices@.len() && (#[trigger] self.indices@[k])
                    is Some implies self.indices@[k].unwrap() < self.storage@.len()
                && self.storage@[self.indices@[k].unwrap() as int] is Some by {
                assert(k != entity.spec_id());
                assert(old(self).indices@[k].unwrap() != slot);
            }
        }
    }
}

/// Read access to one component type by entity.
pub trait StorageQuery<C: Component> {
    /// The component of an entity, if stored.
    fn query_one(&self, entity: Entity) -> Option<&C>;
}

impl<C: Component> StorageQuery<C> for ComponentStorage<C> {
    fn query_one(&self, entity: Entity) -> Option<&C> {
        if entity.id >= self.indices.len() {
            return None;
        }
        match &self.indices[entity.id] {
            Some(slot) => {
                if *slot < self.storage.len() {
                    match &self.storage[*slot] {
                        Some(c) => Some(c),
                        None => None,
                    }
                } else {
                    None
                }
            },
            None => None,
        }
    }
}

/// Filter matching entities whose component of this type changed.
pub struct Changed<C: Component> {
    _marker: PhantomData<C>,
}

/// Filter matching entities that carry this component.
pub struct With<C: Component> {
    _marker: PhantomData<C>,
}

/// Filter matching entities that lack this component.
pub struct Without<C: Component> {
    _marker: PhantomData<C>,
}

/// The kinds of query filter.
#[derive(Debug, Copy, Clone, PartialEq, Eq, Structural)]
pub enum QueryFilterVariant {
    Changed,
    With,
    Without,
}

/// The world: the entity arena and what hangs off it.
#[derive(Debug)]
pub struct World {
    pub(crate) entities: Entities,
}

impl World {
    /// The entity arena.
    pub closed spec fn spec_entities(self) -> Entities {
        self.entities
    }

    /// A world with no entities.
    pub fn new() -> (r: World)
        ensures
            r.spec_entities().wf(),
            r.spec_entities().spec_slots() == 0,
    {
        World { entities: Entities::new() }
    }

    /// Spawns an entity with no components yet.
    pub fn spawn_empty(&mut self) -> (r: EntityRef)
        requires
            old(self).spec_entities().wf(),
            old(self).spec_entities().spec_slots() < 0x1000000,
        ensures
            final(self).spec_entities().wf(),
            final(self).spec_entities().spec_alive(r.spec_entity()),
            !old(self).spec_entities().spec_alive(r.spec_entity()),
            forall|e: Entity|
                e != r.spec_entity() ==> (#[trigger] final(self).spec_entities().spec_alive(e)
                    <==> old(self).spec_entities().spec_alive(e)),
    {
        let entity = self.entities.register();
        EntityRef { entity, world: self }
    }

    /// Despawns an entity whose id the arena has handed out.  The
    /// caller owns the typed component storages and deregisters the
    /// entity from each of them; without an erased registry the world
    /// cannot reach them itself.
    pub fn despawn(&mut self, entity: Entity)
        requires
            old(self).spec_entities().wf(),
            1 <= entity.spec_id() <= old(self).spec_entities().spec_slots(),
        ensures
            final(self).spec_entities().wf(),
            !final(self).spec_entities().spec_alive(entity),
            forall|e: Entity|
                e != entity ==> (#[trigger] final(self).spec_entities().spec_alive(e) <==> old(
                    self,
                ).spec_entities().spec_alive(e)),
    {
        self.entities.deregister(entity);
    }
}

} // verus!
