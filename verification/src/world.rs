//! The world: entities, the components they consist of, and the processors
//! that operate upon them, composed into one unit.
//!
//! The world owns entity creation and deletion and drives the per-tick
//! update: every registered processor, in registration order, goes through a
//! match phase and a dispatch phase with the same delta.  Structural changes
//! a processor makes are visible to the match phase of the next processor in
//! the same tick.

use vstd::prelude::*;

use crate::comp::Component;
use crate::comp::ComponentManager;
use crate::comp::ComponentType;
use crate::entity::Entity;
use crate::entity::EntityIter;
use crate::entity::EntityManager;
use crate::entity::EntityRef;
use crate::entity::EntityRefMut;
use crate::processor::Aspect;
use crate::processor::Processor;
use crate::processor::ProcessorManager;

verus! {

/// A recipe for filling in a freshly created entity: the world hands it the
/// new entity's handle and the managers.
///
/// A builder may attach components and toggle activation; it must leave the
/// managers coherent and every existing entity in place.
pub trait EntityBuilder<C: Component>: Sized {
    /// Fill in one freshly created entity.
    fn build(
        &mut self,
        entity: EntityRefMut,
        entities: &mut EntityManager,
        components: &mut ComponentManager<C>,
    )
        requires
            old(entities).wf(),
            old(components).wf(),
            old(entities).spec_exists(entity.entity),
        ensures
            final(entities).wf(),
            final(components).wf(),
            forall|e: Entity|
                old(entities).spec_exists(e) ==> final(entities).spec_exists(e),
    ;
}

/// Encapsulates the entities, the components they consist of and the
/// processors that operate upon them.
pub struct World<C, P> {
    /// Manages the data.
    pub components: ComponentManager<C>,
    /// Manages the processors of the data.
    pub processors: ProcessorManager<P>,
    /// Manages the unique identifiers of bits of data.
    pub entities: EntityManager,
}

impl<C: Component, P: Processor<C>> World<C, P> {
    /// The world's managers are coherent.
    pub open spec fn wf(&self) -> bool {
        &&& self.components.wf()
        &&& self.entities.wf()
    }

    /// Create a new world.
    pub fn new() -> (world: World<C, P>)
        ensures
            world.wf(),
            world.components@ =~= Map::<u64, Map<Entity, C>>::empty(),
            world.processors.entries() =~= Seq::empty(),
            forall|e: Entity| !world.entities.spec_exists(e),
            world.entities.active_list() =~= Seq::<Entity>::empty(),
            world.entities.spec_count() == 0,
    {
        World {
            components: ComponentManager::new(),
            processors: ProcessorManager::new(),
            entities: EntityManager::new(),
        }
    }

    /// Create a new world sized for about `capacity` component types.
    pub fn with_capacity(capacity: usize) -> (world: World<C, P>)
        ensures
            world.wf(),
            world.components@ =~= Map::<u64, Map<Entity, C>>::empty(),
            world.processors.entries() =~= Seq::empty(),
            forall|e: Entity| !world.entities.spec_exists(e),
            world.entities.active_list() =~= Seq::<Entity>::empty(),
            world.entities.spec_count() == 0,
    {
        World {
            components: ComponentManager::with_capacity(capacity),
            processors: ProcessorManager::new(),
            entities: EntityManager::new(),
        }
    }

    /// Create an entity and hand back its mutating handle.  The entity is
    /// not yet active; enable it or build it to make processors see it.  A
    /// recycled identity is preferred over growing the watermark, so the
    /// handle may carry the identity of a previously deleted entity.
    pub fn new_entity(&mut self) -> (handle: EntityRefMut)
        requires
            old(self).wf(),
            old(self).entities.spec_count() < usize::MAX,
        ensures
            final(self).wf(),
            !old(self).entities.spec_exists(handle.entity),
            final(self).entities.spec_exists(handle.entity),
            !final(self).entities.spec_is_active(handle.entity),
            forall|e: Entity|
                e != handle.entity ==> final(self).entities.spec_exists(e) == old(self).entities.spec_exists(e),
            final(self).entities.active_list() == old(self).entities.active_list(),
            final(self).entities.spec_count() == old(self).entities.spec_count() + 1,
            old(self).entities.free_list().len() > 0 ==> handle.entity == old(self).entities.free_list().last() && final(self).entities.watermark() == old(self).entities.watermark() && final(self).entities.free_list() == old(self).entities.free_list().drop_last(),
            old(self).entities.free_list().len() == 0 ==> handle.entity == old(self).entities.watermark() && final(self).entities.watermark() == old(self).entities.watermark() + 1 && final(self).entities.free_list() == old(self).entities.free_list(),
            final(self).components == old(self).components,
            final(self).processors == old(self).processors,
    {
        let entity = self.entities.create();
        EntityRefMut { entity }
    }

    /// Create an entity, run `builder` on it, then enable it.
    pub fn build_entity<B: EntityBuilder<C>>(&mut self, builder: &mut B) -> (entity: Entity)
        requires
            old(self).wf(),
            old(self).entities.spec_count() < usize::MAX,
        ensures
            final(self).wf(),
            final(self).entities.spec_exists(entity),
            final(self).entities.spec_is_active(entity),
            final(self).processors == old(self).processors,
    {
        let handle = self.new_entity();
        let entity = handle.entity;
        builder.build(handle, &mut self.entities, &mut self.components);
        self.entities.enable(entity);
        entity
    }

    /// Create `count` entities, run `builder` on each, then enable them all.
    /// Builder application and enabling are sequential and never partial:
    /// every identifier comes first, then every build, then every enable.
    pub fn build_entities<B: EntityBuilder<C>>(&mut self, count: usize, builder: &mut B) -> (built:
        Vec<Entity>)
        requires
            old(self).wf(),
            old(self).entities.spec_count() + count <= usize::MAX,
        ensures
            final(self).wf(),
            built@.len() == count,
            built@.no_duplicates(),
            forall|i: int|
                0 <= i < count ==> final(self).entities.spec_exists(#[trigger] built@[i]) && final(self).entities.spec_is_active(built@[i]),
            final(self).processors == old(self).processors,
    {
        let mut built: Vec<Entity> = Vec::new();
        let mut i: usize = 0;
        while i < count
            invariant
                self.wf(),
                i <= count,
                built@.len() == i,
                built@.no_duplicates(),
                self.entities.spec_count() == old(self).entities.spec_count() + i,
                old(self).entities.spec_count() + count <= usize::MAX,
                forall|j: int|
                    0 <= j < i ==> self.entities.spec_exists(#[trigger] built@[j]),
                self.processors == old(self).processors,
            decreases count - i,
        {
            let ghost snap = self.entities;
            let entity = self.entities.create();
            built.push(entity);
            proof {
                assert forall|j: int| 0 <= j < built@.len() implies self.entities.spec_exists(
                    #[trigger] built@[j],
                ) by {
                    if j < built@.len() - 1 {
                        assert(snap.spec_exists(built@[j]));
                    }
                }
                assert forall|j1: int, j2: int|
                    0 <= j1 < built@.len() && 0 <= j2 < built@.len() && j1 != j2 implies built@[j1]
                    != built@[j2] by {
                    if j1 < built@.len() - 1 && j2 == built@.len() - 1 {
                        assert(snap.spec_exists(built@[j1]));
                        assert(!snap.spec_exists(built@[j2]));
                    }
                    if j2 < built@.len() - 1 && j1 == built@.len() - 1 {
                        assert(snap.spec_exists(built@[j2]));
                        assert(!snap.spec_exists(built@[j1]));
                    }
                }
            }
            i = i + 1;
        }
        let mut i: usize = 0;
        while i < built.len()
            invariant
                self.wf(),
                built@.len() == count,
                built@.no_duplicates(),
                forall|j: int|
                    0 <= j < count ==> self.entities.spec_exists(#[trigger] built@[j]),
                self.processors == old(self).processors,
            decreases built@.len() - i,
        {
            let handle = EntityRefMut { entity: built[i] };
            builder.build(handle, &mut self.entities, &mut self.components);
            i = i + 1;
        }
        let mut i: usize = 0;
        while i < built.len()
            invariant
                self.wf(),
                i <= count,
                built@.len() == count,
                built@.no_duplicates(),
                forall|j: int|
                    0 <= j < count ==> self.entities.spec_exists(#[trigger] built@[j]),
                forall|j: int|
                    0 <= j < i ==> self.entities.spec_is_active(#[trigger] built@[j]),
                self.processors == old(self).processors,
            decreases built@.len() - i,
        {
            let ghost snap = self.entities;
            self.entities.enable(built[i]);
            proof {
                assert forall|j: int| 0 <= j < i + 1 implies self.entities.spec_is_active(
                    #[trigger] built@[j],
                ) by {
                    if j < i {
                        assert(snap.spec_is_active(built@[j]));
                    }
                }
            }
            i = i + 1;
        }
        built
    }

    /// Delete an entity: drop its components of every registered type, hide
    /// it from matching and recycle its identifier, in that order, so no
    /// stale component ever survives under a reused identifier.
    pub fn remove_entity(&mut self, entity: Entity)
        requires
            old(self).wf(),
            old(self).entities.spec_exists(entity),
        ensures
            final(self).wf(),
            !final(self).entities.spec_exists(entity),
            !final(self).entities.spec_is_active(entity),
            forall|e: Entity|
                e != entity ==> final(self).entities.spec_exists(e) == old(self).entities.spec_exists(e),
            forall|e: Entity|
                e != entity ==> final(self).entities.spec_is_active(e) == old(self).entities.spec_is_active(e),
            final(self).entities.free_list() == old(self).entities.free_list().push(entity),
            final(self).entities.watermark() == old(self).entities.watermark(),
            final(self).entities.spec_count() == old(self).entities.spec_count() - 1,
            final(self).components@.dom() == old(self).components@.dom(),
            forall|k: u64|
                old(self).components@.dom().contains(k) ==> final(self).components@[k] == old(self).components@[k].remove(entity),
            final(self).processors == old(self).processors,
    {
        self.components.clear_entity(entity);
        self.entities.remove(entity);
    }

    /// Get a read-only handle on an entity.
    pub fn get_entity(&self, entity: Entity) -> (handle: EntityRef)
        ensures
            handle.entity == entity,
    {
        EntityRef { entity }
    }

    /// Get a mutating handle on an entity.
    pub fn get_entity_mut(&mut self, entity: Entity) -> (handle: EntityRefMut)
        ensures
            handle.entity == entity,
            *final(self) == *old(self),
    {
        EntityRefMut { entity }
    }

    /// Run one tick: every registered processor, in registration order, goes
    /// through its match phase and then its dispatch phase, all with the
    /// same `delta`.  Structural changes made by a processor are seen by the
    /// match phase of the processors after it in the same tick, so only the
    /// first processor's refreshed set is fixed by the tick's starting
    /// state; the later sets depend on what earlier processors did.
    pub fn update(&mut self, delta: u64)
        requires
            old(self).wf(),
        ensures
            final(self).wf(),
            final(self).processors.entries().len() == old(self).processors.entries().len(),
            forall|j: int|
                0 <= j < old(self).processors.entries().len() ==> final(self).processors.entries()[j].aspect == old(self).processors.entries()[j].aspect,
            old(self).processors.entries().len() > 0 ==> final(self).processors.entries()[0].entities@ == old(self).entities.active_list().filter(
                |e: Entity|
                    old(self).processors.entries()[0].aspect.matches(old(self).components@, e),
            ),
    {
        let mut index: usize = 0;
        while index < self.processors.len()
            invariant
                self.wf(),
                self.processors.entries().len() == old(self).processors.entries().len(),
                forall|j: int|
                    0 <= j < old(self).processors.entries().len()
                        ==> self.processors.entries()[j].aspect == old(self).processors.entries()[j].aspect,
                index == 0 ==> self.entities == old(self).entities && self.components == old(self).components && self.processors == old(self).processors,
                index > 0 && old(self).processors.entries().len() > 0
                    ==> self.processors.entries()[0].entities@ == old(self).entities.active_list().filter(
                    |e: Entity|
                        old(self).processors.entries()[0].aspect.matches(old(self).components@, e),
                ),
            decreases self.processors.entries().len() - index,
        {
            self.processors.update(&self.entities, &self.components, index);
            self.processors.run(index, &mut self.entities, &mut self.components, delta);
            index = index + 1;
        }
    }

    /// Allocate a component list for the given component type.  Must precede
    /// any use of that type.
    pub fn register_component(&mut self, key: ComponentType)
        requires
            old(self).wf(),
        ensures
            final(self).wf(),
            final(self).components@ == old(self).components@.insert(
                key.id,
                Map::<Entity, C>::empty(),
            ),
            final(self).entities == old(self).entities,
            final(self).processors == old(self).processors,
    {
        self.components.register(key);
    }

    /// Register a processor bound to an aspect, after every processor
    /// already registered.
    pub fn register_processor(&mut self, processor: P, aspect: Aspect)
        requires
            old(self).wf(),
        ensures
            final(self).wf(),
            final(self).processors.entries().len() == old(self).processors.entries().len() + 1,
            forall|j: int|
                0 <= j < old(self).processors.entries().len() ==> final(self).processors.entries()[j] == old(self).processors.entries()[j],
            final(self).processors.entries().last().aspect == aspect,
            final(self).processors.entries().last().processor == processor,
            final(self).processors.entries().last().entities@ =~= Seq::<Entity>::empty(),
            final(self).components == old(self).components,
            final(self).entities == old(self).entities,
    {
        self.processors.add(processor, aspect);
    }

    /// Snapshot the active entities for iteration, in the order they were
    /// enabled.
    pub fn entities(&self) -> (it: EntityIter)
        ensures
            it.items() == self.entities.active_list(),
            it.position() == 0,
    {
        self.entities.iter()
    }
}

} // verus!
