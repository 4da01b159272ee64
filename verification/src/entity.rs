//! Entity identities and their lifecycle.
//!
//! An entity is a small integer identity with no payload of its own.  The
//! manager issues fresh identities, recycles deleted ones before growing the
//! watermark, and keeps the insertion-ordered set of active entities that
//! processors iterate over.

use vstd::prelude::*;

use crate::comp::Component;
use crate::comp::ComponentManager;
use crate::comp::ComponentType;

verus! {

/// A unique small integer that tags one object; identity only, no payload.
pub type Entity = usize;

/// Whether `items` holds `needle`.
fn vec_contains(items: &Vec<usize>, needle: usize) -> (found: bool)
    ensures
        found == items@.contains(needle),
{
    let mut i: usize = 0;
    while i < items.len()
        invariant
            i <= items@.len(),
            forall|j: int| 0 <= j < i ==> items@[j] != needle,
        decreases items@.len() - i,
    {
        if items[i] == needle {
            return true;
        }
        i = i + 1;
    }
    false
}

/// Find the index of the first occurrence of `needle` in `items`.
fn vec_find(items: &Vec<usize>, needle: usize) -> (found: Option<usize>)
    ensures
        match found {
            Some(i) => i < items@.len() && items@[i as int] == needle && forall|j: int|
                0 <= j < i ==> items@[j] != needle,
            None => !items@.contains(needle),
        },
{
    let mut i: usize = 0;
    while i < items.len()
        invariant
            i <= items@.len(),
            forall|j: int| 0 <= j < i ==> items@[j] != needle,
        decreases items@.len() - i,
    {
        if items[i] == needle {
            return Some(i);
        }
        i = i + 1;
    }
    None
}

/// Issues and recycles entity identities and tracks which ones are active.
///
/// An identity exists once issued and not yet removed.  Removal returns the
/// identity to a free stack; creation pops that stack before growing the
/// watermark, so memory use stays bounded by the peak number of entities.
pub struct EntityManager {
    max_index: usize,
    free_indices: Vec<Entity>,
    active: Vec<Entity>,
}

impl EntityManager {
    /// One past the largest identity ever issued.
    pub closed spec fn watermark(&self) -> nat {
        self.max_index as nat
    }

    /// The identities currently awaiting reuse, in stack order.
    pub closed spec fn free_list(&self) -> Seq<Entity> {
        self.free_indices@
    }

    /// Whether `entity` has been issued and not removed since.
    pub open spec fn spec_exists(&self, entity: Entity) -> bool {
        entity < self.watermark() && !self.free_list().contains(entity)
    }

    /// The active entities, in the order they were enabled.
    pub closed spec fn active_list(&self) -> Seq<Entity> {
        self.active@
    }

    /// Whether `entity` is visible to processor matching.
    pub open spec fn spec_is_active(&self, entity: Entity) -> bool {
        self.active_list().contains(entity)
    }

    /// The number of existing entities.
    pub open spec fn spec_count(&self) -> int {
        self.watermark() - self.free_list().len()
    }

    /// The manager's bookkeeping is coherent: free identities are unique and
    /// below the watermark, and active entities exist.
    pub closed spec fn wf(&self) -> bool {
        &&& self.free_indices@.no_duplicates()
        &&& forall|i: int|
            0 <= i < self.free_indices@.len() ==> #[trigger] self.free_indices@[i]
                < self.max_index
        &&& self.active@.no_duplicates()
        &&& forall|i: int|
            0 <= i < self.active@.len() ==> self.spec_exists(#[trigger] self.active@[i])
    }

    /// The active list never repeats an entity: a coherent manager's `iter`
    /// snapshot yields each active entity exactly once.
    pub proof fn lemma_active_distinct(&self)
        requires
            self.wf(),
        ensures
            self.active_list().no_duplicates(),
    {
    }

    /// The number of existing entities never exceeds the integer limit, so
    /// one more entity can be created whenever one was just removed.
    pub proof fn lemma_count_bounded(&self)
        ensures
            self.spec_count() <= usize::MAX,
    {
    }

    /// Make a manager with no entity issued.
    pub fn new() -> (manager: EntityManager)
        ensures
            manager.wf(),
            manager.watermark() == 0,
            manager.free_list() =~= Seq::<Entity>::empty(),
            manager.active_list() =~= Seq::<Entity>::empty(),
            forall|e: Entity| !manager.spec_exists(e),
            manager.spec_count() == 0,
    {
        EntityManager {
            max_index: 0,
            free_indices: Vec::with_capacity(10),
            active: Vec::with_capacity(20),
        }
    }

    /// Issue an entity: recycle the most recently freed identity if one is
    /// waiting, otherwise grow the watermark by one.  The new entity exists,
    /// is not yet active, and no other entity changes.
    pub fn create(&mut self) -> (entity: Entity)
        requires
            old(self).wf(),
            old(self).spec_count() < usize::MAX,
        ensures
            final(self).wf(),
            !old(self).spec_exists(entity),
            final(self).spec_exists(entity),
            !final(self).spec_is_active(entity),
            forall|e: Entity|
                e != entity ==> final(self).spec_exists(e) == old(self).spec_exists(e),
            final(self).active_list() == old(self).active_list(),
            final(self).spec_count() == old(self).spec_count() + 1,
            old(self).free_list().len() > 0 ==> entity == old(self).free_list().last()
                && final(self).watermark() == old(self).watermark() && final(self).free_list()
                == old(self).free_list().drop_last(),
            old(self).free_list().len() == 0 ==> entity == old(self).watermark()
                && final(self).watermark() == old(self).watermark() + 1 && final(self).free_list()
                == old(self).free_list(),
    {
        match self.free_indices.pop() {
            Some(index) => {
                proof {
                    let prior = old(self).free_indices@;
                    assert forall|e: Entity| e != index implies final(self).spec_exists(e)
                        == old(self).spec_exists(e) by {
                        if prior.contains(e) {
                            let j = choose|j: int| 0 <= j < prior.len() && prior[j] == e;
                            assert(j < prior.len() - 1);
                            assert(self.free_indices@[j] == e);
                        }
                        if self.free_indices@.contains(e) {
                            let j = choose|j: int|
                                0 <= j < self.free_indices@.len() && self.free_indices@[j] == e;
                            assert(prior[j] == e);
                        }
                    }
                    assert(!self.free_indices@.contains(index)) by {
                        if self.free_indices@.contains(index) {
                            let j = choose|j: int|
                                0 <= j < self.free_indices@.len() && self.free_indices@[j]
                                    == index;
                            assert(prior[j] == prior[prior.len() - 1]);
                        }
                    }
                    assert(prior.contains(index)) by {
                        assert(prior[prior.len() - 1] == index);
                    }
                    assert forall|i: int|
                        0 <= i < self.active@.len() implies self.spec_exists(
                        #[trigger] self.active@[i],
                    ) by {
                        assert(old(self).spec_exists(self.active@[i]));
                    }
                }
                index
            },
            None => {
                let entity = self.max_index;
                self.max_index = self.max_index + 1;
                proof {
                    assert(forall|i: int|
                        0 <= i < self.active@.len() ==> old(self).spec_exists(
                            #[trigger] self.active@[i],
                        ));
                }
                entity
            },
        }
    }

    /// Make `entity` visible to processor matching.  Enabling an already
    /// active entity changes nothing.
    pub fn enable(&mut self, entity: Entity)
        requires
            old(self).wf(),
            old(self).spec_exists(entity),
        ensures
            final(self).wf(),
            final(self).spec_is_active(entity),
            forall|e: Entity|
                e != entity ==> final(self).spec_is_active(e) == old(self).spec_is_active(e),
            final(self).active_list() == if old(self).spec_is_active(entity) {
                old(self).active_list()
            } else {
                old(self).active_list().push(entity)
            },
            final(self).watermark() == old(self).watermark(),
            final(self).free_list() == old(self).free_list(),
            forall|e: Entity| final(self).spec_exists(e) == old(self).spec_exists(e),
    {
        if !vec_contains(&self.active, entity) {
            self.active.push(entity);
            proof {
                let prior = old(self).active@;
                assert(self.active@[prior.len() as int] == entity);
                assert forall|e: Entity| e != entity && self.active@.contains(e)
                    implies prior.contains(e) by {
                    let j = choose|j: int| 0 <= j < self.active@.len() && self.active@[j] == e;
                    assert(j < prior.len());
                    assert(prior[j] == e);
                }
                assert(forall|j: int| 0 <= j < prior.len() ==> self.active@[j] == prior[j]);
            }
        }
    }

    /// Hide `entity` from processor matching without touching its components.
    /// Disabling an inactive entity changes nothing.
    pub fn disable(&mut self, entity: Entity)
        requires
            old(self).wf(),
        ensures
            final(self).wf(),
            !final(self).spec_is_active(entity),
            forall|e: Entity|
                e != entity ==> final(self).spec_is_active(e) == old(self).spec_is_active(e),
            final(self).active_list() == old(self).active_list().remove_value(entity),
            final(self).watermark() == old(self).watermark(),
            final(self).free_list() == old(self).free_list(),
            forall|e: Entity| final(self).spec_exists(e) == old(self).spec_exists(e),
    {
        let ghost prior = self.active@;
        match vec_find(&self.active, entity) {
            Some(index) => {
                self.active.remove(index);
                proof {
                    prior.index_of_first_ensures(entity);
                    assert(prior.index_of_first(entity) == Some(index as int));
                    prior.remove_ensures(index as int);
                    assert(!self.active@.contains(entity)) by {
                        if self.active@.contains(entity) {
                            let j = choose|j: int|
                                0 <= j < self.active@.len() && self.active@[j] == entity;
                            if j < index {
                                assert(prior[j] == entity);
                            } else {
                                assert(prior[j + 1] == entity);
                            }
                        }
                    }
                    assert forall|e: Entity| e != entity implies final(self).spec_is_active(e)
                        == old(self).spec_is_active(e) by {
                        if prior.contains(e) {
                            let j = choose|j: int| 0 <= j < prior.len() && prior[j] == e;
                            if j < index {
                                assert(self.active@[j] == e);
                            } else {
                                assert(j > index);
                                assert(self.active@[j - 1] == e);
                            }
                        }
                        if self.active@.contains(e) {
                            let j = choose|j: int|
                                0 <= j < self.active@.len() && self.active@[j] == e;
                            if j < index {
                                assert(prior[j] == e);
                            } else {
                                assert(prior[j + 1] == e);
                            }
                        }
                    }
                    assert forall|i: int|
                        0 <= i < self.active@.len() implies self.spec_exists(
                        #[trigger] self.active@[i],
                    ) by {
                        if i < index {
                            assert(old(self).spec_exists(prior[i]));
                        } else {
                            assert(old(self).spec_exists(prior[i + 1]));
                        }
                    }
                    assert(self.active@.no_duplicates()) by {
                        assert forall|i: int, j: int|
                            0 <= i < self.active@.len() && 0 <= j < self.active@.len() && i != j
                                implies self.active@[i] != self.active@[j] by {
                            let pi: int = if i < index { i } else { i + 1 };
                            let pj: int = if j < index { j } else { j + 1 };
                            assert(self.active@[i] == prior[pi]);
                            assert(self.active@[j] == prior[pj]);
                        }
                    }
                }
            },
            None => {
                proof {
                    prior.index_of_first_ensures(entity);
                }
            },
        }
    }

    /// Whether `entity` is visible to processor matching.
    pub fn is_active(&self, entity: Entity) -> (active: bool)
        ensures
            active == self.spec_is_active(entity),
    {
        vec_contains(&self.active, entity)
    }

    /// Whether `entity` has been issued and not removed since.
    pub fn exists_entity(&self, entity: Entity) -> (present: bool)
        ensures
            present == self.spec_exists(entity),
    {
        entity < self.max_index && !vec_contains(&self.free_indices, entity)
    }

    /// Return `entity` to the free stack and hide it from matching.  The
    /// caller clears its components first; see the world's entity removal.
    pub fn remove(&mut self, entity: Entity)
        requires
            old(self).wf(),
            old(self).spec_exists(entity),
        ensures
            final(self).wf(),
            !final(self).spec_exists(entity),
            forall|e: Entity|
                e != entity ==> final(self).spec_exists(e) == old(self).spec_exists(e),
            !final(self).spec_is_active(entity),
            forall|e: Entity|
                e != entity ==> final(self).spec_is_active(e) == old(self).spec_is_active(e),
            final(self).active_list() == old(self).active_list().remove_value(entity),
            final(self).spec_count() == old(self).spec_count() - 1,
            final(self).watermark() == old(self).watermark(),
            final(self).free_list() == old(self).free_list().push(entity),
    {
        self.disable(entity);
        self.free_indices.push(entity);
        proof {
            let prior = old(self).free_indices@;
            assert forall|e: Entity| e != entity && self.free_indices@.contains(e)
                implies prior.contains(e) by {
                let j = choose|j: int|
                    0 <= j < self.free_indices@.len() && self.free_indices@[j] == e;
                assert(j < prior.len());
                assert(prior[j] == e);
            }
            assert(forall|j: int| 0 <= j < prior.len() ==> self.free_indices@[j] == prior[j]);
            assert(self.free_indices@.contains(entity)) by {
                assert(self.free_indices@[prior.len() as int] == entity);
            }
        }
    }

    /// Borrow the active entities, in the order they were enabled.
    pub fn active(&self) -> (list: &Vec<Entity>)
        ensures
            list@ == self.active_list(),
    {
        &self.active
    }

    /// Snapshot the active entities for iteration, in the order they were
    /// enabled.
    pub fn iter(&self) -> (it: EntityIter)
        ensures
            it.items() == self.active_list(),
            it.position() == 0,
    {
        let mut snapshot: Vec<Entity> = Vec::with_capacity(self.active.len());
        let mut i: usize = 0;
        while i < self.active.len()
            invariant
                i <= self.active@.len(),
                snapshot@ == self.active@.take(i as int),
            decreases self.active@.len() - i,
        {
            snapshot.push(self.active[i]);
            proof {
                assert(snapshot@ =~= self.active@.take(i + 1));
            }
            i = i + 1;
        }
        proof {
            assert(snapshot@ =~= self.active@);
        }
        EntityIter { entities: snapshot, index: 0 }
    }
}

/// A restartable walk over a snapshot of the active entities.
pub struct EntityIter {
    entities: Vec<Entity>,
    index: usize,
}

impl EntityIter {
    /// The snapshot being walked.
    pub closed spec fn items(&self) -> Seq<Entity> {
        self.entities@
    }

    /// How many entities have been handed out so far.
    pub closed spec fn position(&self) -> nat {
        self.index as nat
    }

    /// The next active entity of the snapshot, or nothing once exhausted.
    pub fn next(&mut self) -> (entity: Option<Entity>)
        ensures
            final(self).items() == old(self).items(),
            old(self).position() < old(self).items().len() ==> entity == Some(
                old(self).items()[old(self).position() as int],
            ) && final(self).position() == old(self).position() + 1,
            old(self).position() >= old(self).items().len() ==> entity is None
                && final(self).position() == old(self).position(),
    {
        if self.index < self.entities.len() {
            let entity = self.entities[self.index];
            self.index = self.index + 1;
            Some(entity)
        } else {
            None
        }
    }

    /// Restart the walk from the beginning of the snapshot.
    pub fn restart(&mut self)
        ensures
            final(self).items() == old(self).items(),
            final(self).position() == 0,
    {
        self.index = 0;
    }
}

/// A read-only handle on one entity, used together with the world's
/// managers.  Verus keeps mutable state out of struct fields, so each method
/// borrows the manager it reads.
pub struct EntityRef {
    /// The entity, a unique identifier.
    pub entity: Entity,
}

impl EntityRef {
    /// Whether the entity is visible to processor matching.
    pub fn is_active(&self, entities: &EntityManager) -> (active: bool)
        ensures
            active == entities.spec_is_active(self.entity),
    {
        entities.is_active(self.entity)
    }

    /// Copy out the entity's component of registered type `id`, if any.
    pub fn get<C: Component>(&self, components: &ComponentManager<C>, id: ComponentType) -> (component: Option<C>)
        requires
            components.wf(),
            components.spec_registered(id),
        ensures
            match component {
                Some(c) => components@[id.id].contains_key(self.entity) && c
                    == components@[id.id][self.entity],
                None => !components@[id.id].contains_key(self.entity),
            },
    {
        components.get(self.entity, id)
    }

    /// Whether the entity has a component of registered type `id`.
    pub fn has<C: Component>(&self, components: &ComponentManager<C>, id: ComponentType) -> (present: bool)
        requires
            components.wf(),
            components.spec_registered(id),
        ensures
            present == components@[id.id].contains_key(self.entity),
    {
        components.has(self.entity, id)
    }

    /// Whether the entity has a component of registered type `id`.
    pub fn has_id<C: Component>(&self, components: &ComponentManager<C>, id: &ComponentType) -> (present: bool)
        requires
            components.wf(),
            components.spec_registered(*id),
        ensures
            present == components@[id.id].contains_key(self.entity),
    {
        components.has_id(self.entity, id)
    }

    /// Borrow the entity's component of registered type `id`, if any.
    pub fn borrow<'a, C: Component>(
        &self,
        components: &'a ComponentManager<C>,
        id: ComponentType,
    ) -> (component: Option<&'a C>)
        requires
            components.wf(),
            components.spec_registered(id),
        ensures
            match component {
                Some(c) => components@[id.id].contains_key(self.entity) && *c
                    == components@[id.id][self.entity],
                None => !components@[id.id].contains_key(self.entity),
            },
    {
        components.borrow(self.entity, id)
    }
}

/// A mutating handle on one entity.  Methods consume and return the handle so
/// calls chain; each borrows the manager it touches.
pub struct EntityRefMut {
    /// The entity, a unique identifier.
    pub entity: Entity,
}

impl EntityRefMut {
    /// Whether the entity is visible to processor matching.
    pub fn is_active(&self, entities: &EntityManager) -> (active: bool)
        ensures
            active == entities.spec_is_active(self.entity),
    {
        entities.is_active(self.entity)
    }

    /// Make the entity visible to processor matching.
    pub fn enable(self, entities: &mut EntityManager) -> (handle: EntityRefMut)
        requires
            old(entities).wf(),
            old(entities).spec_exists(self.entity),
        ensures
            handle.entity == self.entity,
            final(entities).wf(),
            final(entities).spec_is_active(self.entity),
            forall|e: Entity|
                e != self.entity ==> final(entities).spec_is_active(e) == old(
                    entities,
                ).spec_is_active(e),
            forall|e: Entity| final(entities).spec_exists(e) == old(entities).spec_exists(e),
    {
        entities.enable(self.entity);
        self
    }

    /// Hide the entity from processor matching.
    pub fn disable(self, entities: &mut EntityManager) -> (handle: EntityRefMut)
        requires
            old(entities).wf(),
        ensures
            handle.entity == self.entity,
            final(entities).wf(),
            !final(entities).spec_is_active(self.entity),
            forall|e: Entity|
                e != self.entity ==> final(entities).spec_is_active(e) == old(
                    entities,
                ).spec_is_active(e),
            forall|e: Entity| final(entities).spec_exists(e) == old(entities).spec_exists(e),
    {
        entities.disable(self.entity);
        self
    }

    /// Attach `component` of registered type `id` to the entity, which must
    /// not have one yet.
    pub fn add<C: Component>(
        self,
        components: &mut ComponentManager<C>,
        id: ComponentType,
        component: C,
    ) -> (handle: EntityRefMut)
        requires
            old(components).wf(),
            old(components).spec_registered(id),
            !old(components)@[id.id].contains_key(self.entity),
            self.entity < usize::MAX,
        ensures
            handle.entity == self.entity,
            final(components).wf(),
            final(components)@ == old(components)@.insert(
                id.id,
                old(components)@[id.id].insert(self.entity, component),
            ),
    {
        components.add(self.entity, id, component);
        self
    }

    /// Attach the type's default value of registered type `id` to the
    /// entity, which must not have one yet.  Which value that is belongs to
    /// the component type's own `Default`.
    pub fn add_default<C: Component + Default>(
        self,
        components: &mut ComponentManager<C>,
        id: ComponentType,
    ) -> (handle: EntityRefMut)
        requires
            old(components).wf(),
            old(components).spec_registered(id),
            !old(components)@[id.id].contains_key(self.entity),
            self.entity < usize::MAX,
        ensures
            handle.entity == self.entity,
            final(components).wf(),
            exists|v: C|
                final(components)@ == old(components)@.insert(
                    id.id,
                    old(components)@[id.id].insert(self.entity, v),
                ),
    {
        let component: C = Default::default();
        components.add(self.entity, id, component);
        self
    }

    /// Copy out the entity's component of registered type `id`, if any.
    pub fn get<C: Component>(&self, components: &ComponentManager<C>, id: ComponentType) -> (component: Option<C>)
        requires
            components.wf(),
            components.spec_registered(id),
        ensures
            match component {
                Some(c) => components@[id.id].contains_key(self.entity) && c
                    == components@[id.id][self.entity],
                None => !components@[id.id].contains_key(self.entity),
            },
    {
        components.get(self.entity, id)
    }

    /// Whether the entity has a component of registered type `id`.
    pub fn has<C: Component>(&self, components: &ComponentManager<C>, id: ComponentType) -> (present: bool)
        requires
            components.wf(),
            components.spec_registered(id),
        ensures
            present == components@[id.id].contains_key(self.entity),
    {
        components.has(self.entity, id)
    }

    /// Overwrite the entity's component of registered type `id`, which it
    /// must already have.
    pub fn set<C: Component>(
        self,
        components: &mut ComponentManager<C>,
        id: ComponentType,
        component: C,
    ) -> (handle: EntityRefMut)
        requires
            old(components).wf(),
            old(components).spec_registered(id),
            old(components)@[id.id].contains_key(self.entity),
        ensures
            handle.entity == self.entity,
            final(components).wf(),
            final(components)@ == old(components)@.insert(
                id.id,
                old(components)@[id.id].insert(self.entity, component),
            ),
    {
        components.set(self.entity, id, component);
        self
    }

    /// Borrow the entity's component of registered type `id`, if any.
    pub fn borrow<'a, C: Component>(
        &self,
        components: &'a ComponentManager<C>,
        id: ComponentType,
    ) -> (component: Option<&'a C>)
        requires
            components.wf(),
            components.spec_registered(id),
        ensures
            match component {
                Some(c) => components@[id.id].contains_key(self.entity) && *c
                    == components@[id.id][self.entity],
                None => !components@[id.id].contains_key(self.entity),
            },
    {
        components.borrow(self.entity, id)
    }

    /// Borrow the entity's component of registered type `id` mutably, if
    /// any.
    pub fn borrow_mut<'a, C: Component>(
        &self,
        components: &'a mut ComponentManager<C>,
        id: ComponentType,
    ) -> (component: Option<&'a mut C>)
        requires
            old(components).wf(),
            old(components).spec_registered(id),
        ensures
            (component is Some) == old(components)@[id.id].contains_key(self.entity),
            component is None ==> final(components)@ == old(components)@ && final(components).wf(),
            component is Some ==> *component.unwrap() == old(components)@[id.id][self.entity]
                && final(components)@ == old(components)@.insert(
                id.id,
                old(components)@[id.id].insert(self.entity, *final(component.unwrap())),
            ) && final(components).wf(),
    {
        components.borrow_mut(self.entity, id)
    }

    /// Detach and drop the entity's component of registered type `id`; a
    /// no-op if the entity has none.
    pub fn remove<C: Component>(self, components: &mut ComponentManager<C>, id: ComponentType) -> (handle: EntityRefMut)
        requires
            old(components).wf(),
            old(components).spec_registered(id),
        ensures
            handle.entity == self.entity,
            final(components).wf(),
            final(components)@ == old(components)@.insert(
                id.id,
                old(components)@[id.id].remove(self.entity),
            ),
    {
        components.remove(self.entity, id);
        self
    }

    /// Delete the entity: drop its components of every registered type, hide
    /// it from matching and recycle its identifier.
    pub fn delete<C: Component>(
        self,
        entities: &mut EntityManager,
        components: &mut ComponentManager<C>,
    )
        requires
            old(entities).wf(),
            old(entities).spec_exists(self.entity),
            old(components).wf(),
        ensures
            final(entities).wf(),
            final(components).wf(),
            !final(entities).spec_exists(self.entity),
            !final(entities).spec_is_active(self.entity),
            forall|e: Entity|
                e != self.entity ==> final(entities).spec_exists(e) == old(entities).spec_exists(
                    e,
                ),
            forall|e: Entity|
                e != self.entity ==> final(entities).spec_is_active(e) == old(
                    entities,
                ).spec_is_active(e),
            final(entities).free_list() == old(entities).free_list().push(self.entity),
            final(entities).watermark() == old(entities).watermark(),
            final(entities).spec_count() == old(entities).spec_count() - 1,
            final(components)@.dom() == old(components)@.dom(),
            forall|k: u64|
                old(components)@.dom().contains(k) ==> final(components)@[k] == old(
                    components,
                )@[k].remove(self.entity),
    {
        components.clear_entity(self.entity);
        entities.remove(self.entity);
    }
}

} // verus!
