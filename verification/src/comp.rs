//! Component storage: typed lists of records keyed by entity.
//!
//! A component is a plain value owned by at most one entity at a time.  Each
//! registered component type gets one `ComponentList`, which packs the values
//! densely in a `Bag` and keeps a sparse entity-to-slot index with free-slot
//! recycling, so removal never shifts other entries.  The `ComponentManager`
//! is the registry from component type to list and the single point of truth
//! for which entity has which component.

use vstd::prelude::*;

use crate::bag::Bag;
use crate::entity::Entity;

verus! {

/// All the data for one aspect of an object: a plain copyable value.
pub trait Component: Copy {

}

impl<T: Copy> Component for T {

}

/// Identifies a component type: a stable key that the caller picks once per
/// type and uses for every registration and lookup.
#[derive(Clone, Copy, Debug, PartialEq, Eq, Hash, Structural)]
pub struct ComponentType {
    pub id: u64,
}

impl ComponentType {
    /// Make the key with the given stable identifier.
    pub fn of(id: u64) -> (key: ComponentType)
        ensures
            key.id == id,
    {
        ComponentType { id }
    }
}

/// The component map described by a sparse entity-to-slot index over a dense
/// record store: each entity whose slot entry is filled owns the record in
/// that slot.
pub open spec fn list_view<C>(entities: Seq<Option<usize>>, records: Seq<Option<C>>) -> Map<
    Entity,
    C,
> {
    Map::new(
        |e: Entity| e < entities.len() && entities[e as int] is Some,
        |e: Entity| records[entities[e as int]->0 as int]->0,
    )
}

/// Coherence of a sparse index, a record store and a free-slot stack: every
/// mapped entity owns one live slot, no two entities share a slot, and the
/// recyclable slots are unused and mutually distinct.
pub open spec fn list_wf<C>(
    entities: Seq<Option<usize>>,
    records: Seq<Option<C>>,
    recyclable: Seq<usize>,
) -> bool {
    &&& forall|e: int|
        0 <= e < entities.len() && entities[e] is Some ==> ((#[trigger] entities[e])->0 as int)
            < records.len() && records[entities[e]->0 as int] is Some
    &&& forall|e1: int, e2: int|
        0 <= e1 < entities.len() && 0 <= e2 < entities.len() && e1 != e2 && entities[e1] is Some
            && entities[e2] is Some ==> (#[trigger] entities[e1])->0 != (#[trigger] entities[e2])->0
    &&& recyclable.no_duplicates()
    &&& forall|i: int|
        0 <= i < recyclable.len() ==> ((#[trigger] recyclable[i]) as int) < records.len()
            && records[recyclable[i] as int] is None
}

/// Overwriting the record of a slot that some entity owns neither moves any
/// other record nor frees any slot, so coherence survives and only that
/// entity's value changes in the component map.
proof fn lemma_overwrite_slot<C>(
    entities: Seq<Option<usize>>,
    records: Seq<Option<C>>,
    recyclable: Seq<usize>,
    entity: Entity,
    index: usize,
    value: C,
)
    requires
        list_wf(entities, records, recyclable),
        entity < entities.len(),
        entities[entity as int] == Some(index),
    ensures
        list_wf(entities, records.update(index as int, Some(value)), recyclable),
        list_view(entities, records.update(index as int, Some(value))) =~= list_view(
            entities,
            records,
        ).insert(entity, value),
{
    let updated = records.update(index as int, Some(value));
    assert forall|i: int| 0 <= i < recyclable.len() implies ((#[trigger] recyclable[i]) as int)
        < updated.len() && updated[recyclable[i] as int] is None by {
        assert(records[recyclable[i] as int] is None);
        assert(recyclable[i] != index);
    }
    assert forall|k: Entity| #![all_triggers] true implies {
        &&& list_view(entities, updated).dom().contains(k) == list_view(entities, records).insert(
            entity,
            value,
        ).dom().contains(k)
        &&& (list_view(entities, updated).dom().contains(k) ==> list_view(entities, updated)[k]
            == list_view(entities, records).insert(entity, value)[k])
    } by {
        if k != entity && k < entities.len() && entities[k as int] is Some {
            assert(entities[k as int]->0 != index);
        }
    }
}

/// Grow `entities` with empty slots until index `entity` is addressable.
fn pad_none(entities: &mut Vec<Option<usize>>, entity: usize)
    requires
        entity < usize::MAX,
    ensures
        old(entities)@.len() > entity ==> final(entities)@ == old(entities)@,
        old(entities)@.len() <= entity ==> final(entities)@.len() == entity + 1,
        forall|j: int| 0 <= j < old(entities)@.len() ==> final(entities)@[j] == old(entities)@[j],
        forall|j: int|
            old(entities)@.len() <= j < final(entities)@.len() ==> final(entities)@[j] is None,
{
    while entities.len() <= entity
        invariant
            entity < usize::MAX,
            entities@.len() <= entity + 1 || entities@ == old(entities)@,
            old(entities)@.len() <= entities@.len(),
            forall|j: int| 0 <= j < old(entities)@.len() ==> entities@[j] == old(entities)@[j],
            forall|j: int| old(entities)@.len() <= j < entities@.len() ==> entities@[j] is None,
        decreases entity + 1 - entities@.len(),
    {
        entities.push(None);
    }
}

/// The records of one component type: a dense store plus a sparse map from
/// entity to slot, with a stack of reusable slots.
///
/// Its view is the map from each owning entity to its component value.
pub struct ComponentList<C> {
    components: Bag<C>,
    entities: Vec<Option<usize>>,
    recyclable_indices: Vec<usize>,
}

impl<C> View for ComponentList<C> {
    type V = Map<Entity, C>;

    closed spec fn view(&self) -> Map<Entity, C> {
        list_view(self.entities@, self.components@)
    }
}

impl<C: Component> ComponentList<C> {
    /// The list's bookkeeping is coherent; see `list_wf`.
    pub closed spec fn wf(&self) -> bool {
        &&& self.components.wf()
        &&& list_wf(self.entities@, self.components@, self.recyclable_indices@)
    }

    /// Make an empty list with room reported for `capacity` records.
    pub fn with_capacity(capacity: usize) -> (list: ComponentList<C>)
        ensures
            list.wf(),
            list@ =~= Map::<Entity, C>::empty(),
    {
        ComponentList {
            components: Bag::with_capacity(capacity),
            entities: Vec::new(),
            recyclable_indices: Vec::new(),
        }
    }

    /// Whether `entity` owns a record in this list.
    pub fn has(&self, entity: Entity) -> (present: bool)
        ensures
            present == self@.contains_key(entity),
    {
        entity < self.entities.len() && self.entities[entity].is_some()
    }

    /// Attach a record to `entity`, reusing a recycled slot before growing
    /// the store.  The entity must not own a record yet; use `set` to update.
    pub fn add(&mut self, entity: Entity, component: C)
        requires
            old(self).wf(),
            !old(self)@.contains_key(entity),
            entity < usize::MAX,
        ensures
            final(self).wf(),
            final(self)@ == old(self)@.insert(entity, component),
    {
        let ghost pre = *old(self);
        let index: usize = match self.recyclable_indices.pop() {
            Some(index) => {
                self.components.fill(index, component);
                index
            },
            None => self.components.add(component),
        };
        proof {
            let recyc = pre.recyclable_indices@;
            if recyc.len() > 0 {
                assert(recyc[recyc.len() - 1] == index);
                assert forall|i: int|
                    0 <= i < self.recyclable_indices@.len() implies ((
                #[trigger] self.recyclable_indices@[i]) as int) < self.components@.len()
                    && self.components@[self.recyclable_indices@[i] as int] is None by {
                    assert(self.recyclable_indices@[i] == recyc[i]);
                    assert(recyc[i] != index);
                }
            }
            assert(self.components@[index as int] == Some(component));
            assert(forall|s: int|
                0 <= s < pre.components@.len() && s != index ==> self.components@[s]
                    == pre.components@[s]);
            assert(forall|e: int|
                0 <= e < pre.entities@.len() && pre.entities@[e] is Some ==> pre.entities@[e]->0
                    != index);
        }
        pad_none(&mut self.entities, entity);
        let slot = &mut self.entities[entity];
        *slot = Some(index);
        proof {
            let epost = self.entities@;
            let epre = pre.entities@;
            assert(epost[entity as int] == Some(index));
            assert(forall|j: int|
                0 <= j < epost.len() && j != entity ==> (epost[j] is Some ==> j < epre.len()
                    && epost[j] == epre[j]));
            assert forall|e1: int, e2: int|
                0 <= e1 < epost.len() && 0 <= e2 < epost.len() && e1 != e2 && epost[e1] is Some
                    && epost[e2] is Some implies (#[trigger] epost[e1])->0 != (
            #[trigger] epost[e2])->0 by {
                if e1 != entity && e2 != entity {
                    assert(epre[e1] == epost[e1] && epre[e2] == epost[e2]);
                }
            }
            assert(final(self)@ =~= pre@.insert(entity, component)) by {
                assert forall|k: Entity| #![all_triggers] true implies {
                    &&& final(self)@.dom().contains(k) == pre@.insert(entity, component)
                        .dom()
                        .contains(k)
                    &&& (final(self)@.dom().contains(k) ==> final(self)@[k] == pre@.insert(
                        entity,
                        component,
                    )[k])
                } by {
                    if k != entity {
                        if k < epre.len() && epre[k as int] is Some {
                            assert(epost[k as int] == epre[k as int]);
                        }
                    }
                }
            }
        }
    }

    /// Overwrite the record attached to `entity`, which must own one.
    pub fn set(&mut self, entity: Entity, component: C)
        requires
            old(self).wf(),
            old(self)@.contains_key(entity),
        ensures
            final(self).wf(),
            final(self)@ == old(self)@.insert(entity, component),
    {
        let ghost pre = *old(self);
        let slot_opt = self.entities[entity];
        match slot_opt {
            Some(index) => {
                proof {
                    lemma_overwrite_slot(
                        pre.entities@,
                        pre.components@,
                        pre.recyclable_indices@,
                        entity,
                        index,
                        component,
                    );
                }
                self.components.set(index, component);
            },
            None => unreached(),
        }
    }

    /// Detach and drop the record attached to `entity`, making its slot
    /// reusable.  Removing from an entity that owns nothing changes nothing.
    pub fn remove(&mut self, entity: Entity)
        requires
            old(self).wf(),
        ensures
            final(self).wf(),
            final(self)@ == old(self)@.remove(entity),
    {
        let ghost pre = *old(self);
        if entity < self.entities.len() {
            let slot_opt = self.entities[entity];
            match slot_opt {
                Some(index) => {
                    self.components.remove_marks(index);
                    self.recyclable_indices.push(index);
                    let slot = &mut self.entities[entity];
                    *slot = None;
                    proof {
                        let recyc = pre.recyclable_indices@;
                        assert(forall|i: int|
                            0 <= i < recyc.len() ==> self.recyclable_indices@[i] == recyc[i]);
                        assert(self.recyclable_indices@[recyc.len() as int] == index);
                        assert(forall|i: int| 0 <= i < recyc.len() ==> recyc[i] != index);
                        assert(self.recyclable_indices@.no_duplicates());
                        assert(final(self)@ =~= pre@.remove(entity)) by {
                            assert forall|k: Entity| #![all_triggers] true implies {
                                &&& final(self)@.dom().contains(k) == pre@.remove(entity)
                                    .dom()
                                    .contains(k)
                                &&& (final(self)@.dom().contains(k) ==> final(self)@[k]
                                    == pre@.remove(entity)[k])
                            } by {
                                if k != entity && k < pre.entities@.len() && pre.entities@[k as int]
                                    is Some {
                                    assert(pre.entities@[k as int]->0 != index);
                                }
                            }
                        }
                    }
                },
                None => {
                    proof {
                        assert(final(self)@ =~= pre@.remove(entity));
                    }
                },
            }
        } else {
            proof {
                assert(final(self)@ =~= pre@.remove(entity));
            }
        }
    }

    /// Copy out the record attached to `entity`, if it owns one.
    pub fn get(&self, entity: Entity) -> (component: Option<C>)
        requires
            self.wf(),
        ensures
            match component {
                Some(c) => self@.contains_key(entity) && self@[entity] == c,
                None => !self@.contains_key(entity),
            },
    {
        if entity < self.entities.len() {
            let slot_opt = self.entities[entity];
            match slot_opt {
                Some(index) => Some(self.components.get(index)),
                None => None,
            }
        } else {
            None
        }
    }

    /// Borrow the record attached to `entity`, if it owns one.
    pub fn borrow(&self, entity: Entity) -> (component: Option<&C>)
        requires
            self.wf(),
        ensures
            match component {
                Some(c) => self@.contains_key(entity) && self@[entity] == *c,
                None => !self@.contains_key(entity),
            },
    {
        if entity < self.entities.len() {
            let slot_opt = self.entities[entity];
            match slot_opt {
                Some(index) => Some(self.components.borrow(index)),
                None => None,
            }
        } else {
            None
        }
    }

    /// Borrow the record attached to `entity` mutably, if it owns one.
    pub fn borrow_mut(&mut self, entity: Entity) -> (component: Option<&mut C>)
        requires
            old(self).wf(),
        ensures
            (component is Some) == old(self)@.contains_key(entity),
            component is None ==> final(self)@ == old(self)@ && final(self).wf(),
            component is Some ==> *component.unwrap() == old(self)@[entity] && final(self)@
                == old(self)@.insert(entity, *final(component.unwrap())) && final(self).wf(),
    {
        let ghost pre = *old(self);
        if entity < self.entities.len() {
            let slot_opt = self.entities[entity];
            match slot_opt {
                Some(index) => {
                    proof {
                        assert forall|t: C|
                            list_wf(
                                pre.entities@,
                                pre.components@.update(index as int, Some(t)),
                                pre.recyclable_indices@,
                            ) && list_view(
                                pre.entities@,
                                pre.components@.update(index as int, Some(t)),
                            ) =~= pre@.insert(entity, t) by {
                            lemma_overwrite_slot(
                                pre.entities@,
                                pre.components@,
                                pre.recyclable_indices@,
                                entity,
                                index,
                                t,
                            );
                        }
                    }
                    let c = self.components.borrow_mut(index);
                    Some(c)
                },
                None => None,
            }
        } else {
            None
        }
    }
}

/// Whether, in a registry view, `key` is registered and `entity` owns a
/// record of that type.
pub open spec fn spec_has<C>(registry: Map<u64, Map<Entity, C>>, key: u64, entity: Entity) -> bool {
    registry.dom().contains(key) && registry[key].contains_key(entity)
}

/// Removal is idempotent: removing a component from an entity that has none
/// leaves the registry exactly as it was, and any removal leaves the
/// membership of every other entity and type untouched.  This is the law
/// behind `ComponentManager::remove`, whose result is the first map below.
pub proof fn lemma_remove_idempotent<C>(
    registry: Map<u64, Map<Entity, C>>,
    key: u64,
    entity: Entity,
)
    requires
        registry.dom().contains(key),
    ensures
        !registry[key].contains_key(entity) ==> registry.insert(key, registry[key].remove(entity))
            =~= registry,
        forall|k: u64, e: Entity|
            !(k == key && e == entity) ==> spec_has(
                registry.insert(key, registry[key].remove(entity)),
                k,
                e,
            ) == spec_has(registry, k, e),
{
    if !registry[key].contains_key(entity) {
        assert(registry[key].remove(entity) =~= registry[key]);
    }
}

/// A deleted entity owns nothing: once every registered type's map has the
/// entity removed, no lookup under any key finds a component for it.  So an
/// entity created after a deletion -- even one reusing the same identifier
/// -- reports no component until one is explicitly added.  The premises are
/// what the world's entity removal ensures.
pub proof fn lemma_deleted_entity_bare<C>(
    pre: Map<u64, Map<Entity, C>>,
    post: Map<u64, Map<Entity, C>>,
    entity: Entity,
)
    requires
        post.dom() == pre.dom(),
        forall|k: u64| pre.dom().contains(k) ==> post[k] == pre[k].remove(entity),
    ensures
        forall|k: u64| !spec_has(post, k, entity),
{
}

/// The registry described by an association list from component type to
/// component list: each key maps to the component map of its list.
pub open spec fn registry_view<C>(lists: Seq<(ComponentType, ComponentList<C>)>) -> Map<
    u64,
    Map<Entity, C>,
> {
    Map::new(
        |k: u64| exists|i: int| 0 <= i < lists.len() && (#[trigger] lists[i]).0.id == k,
        |k: u64|
            {
                let i = choose|i: int| 0 <= i < lists.len() && (#[trigger] lists[i]).0.id == k;
                lists[i].1@
            },
    )
}

/// No two entries of an association list share a component type key.
pub open spec fn registry_keys_unique<C>(lists: Seq<(ComponentType, ComponentList<C>)>) -> bool {
    forall|i: int, j: int|
        0 <= i < lists.len() && 0 <= j < lists.len() && i != j ==> (#[trigger] lists[i]).0.id != (
        #[trigger] lists[j]).0.id
}

/// Coherence of an association list: component type keys are unique and every
/// list is coherent.
pub open spec fn registry_wf<C: Component>(lists: Seq<(ComponentType, ComponentList<C>)>) -> bool {
    &&& registry_keys_unique(lists)
    &&& forall|i: int| 0 <= i < lists.len() ==> (#[trigger] lists[i]).1.wf()
}

/// With unique keys, the registry view at the key of entry `i` is exactly
/// that entry's component map.
proof fn lemma_registry_at<C: Component>(lists: Seq<(ComponentType, ComponentList<C>)>, i: int)
    requires
        registry_keys_unique(lists),
        0 <= i < lists.len(),
    ensures
        registry_view(lists).dom().contains(lists[i].0.id),
        registry_view(lists)[lists[i].0.id] == lists[i].1@,
{
    let k = lists[i].0.id;
    assert(registry_view(lists).dom().contains(k));
    let j = choose|j: int| 0 <= j < lists.len() && (#[trigger] lists[j]).0.id == k;
    assert(j == i);
}

/// A key held by no entry is absent from the registry view.
proof fn lemma_registry_absent<C: Component>(lists: Seq<(ComponentType, ComponentList<C>)>, k: u64)
    requires
        forall|i: int| 0 <= i < lists.len() ==> (#[trigger] lists[i]).0.id != k,
    ensures
        !registry_view(lists).dom().contains(k),
{
}

/// Replacing the list of entry `i` while keeping its key updates the view at
/// exactly that key.
proof fn lemma_registry_update<C: Component>(
    pre: Seq<(ComponentType, ComponentList<C>)>,
    post: Seq<(ComponentType, ComponentList<C>)>,
    i: int,
)
    requires
        registry_keys_unique(pre),
        0 <= i < pre.len(),
        post.len() == pre.len(),
        forall|j: int| 0 <= j < pre.len() && j != i ==> post[j] == pre[j],
        post[i].0 == pre[i].0,
    ensures
        registry_keys_unique(post),
        registry_wf(pre) && post[i].1.wf() ==> registry_wf(post),
        registry_view(post) =~= registry_view(pre).insert(pre[i].0.id, post[i].1@),
{
    assert(forall|j: int| 0 <= j < post.len() ==> (#[trigger] post[j]).0 == pre[j].0);
    let key = pre[i].0.id;
    assert forall|k: u64| #![all_triggers] true implies {
        &&& registry_view(post).dom().contains(k) == registry_view(pre).insert(
            key,
            post[i].1@,
        ).dom().contains(k)
        &&& (registry_view(post).dom().contains(k) ==> registry_view(post)[k]
            == registry_view(pre).insert(key, post[i].1@)[k])
    } by {
        if exists|j: int| 0 <= j < post.len() && (#[trigger] post[j]).0.id == k {
            let j = choose|j: int| 0 <= j < post.len() && (#[trigger] post[j]).0.id == k;
            assert(pre[j].0.id == k);
            if k == key {
                assert(j == i);
                assert(registry_view(post)[k] == post[i].1@);
            } else {
                assert(j != i);
                lemma_registry_at(pre, j);
                lemma_registry_at(post, j);
            }
        } else {
            assert(!registry_view(post).dom().contains(k));
            assert(k != key);
            assert(forall|j: int| 0 <= j < pre.len() ==> (#[trigger] pre[j]).0.id != k);
            lemma_registry_absent(pre, k);
        }
    }
}

/// Appending an entry with a fresh key adds exactly that key to the view.
proof fn lemma_registry_push<C: Component>(
    pre: Seq<(ComponentType, ComponentList<C>)>,
    key: ComponentType,
    list: ComponentList<C>,
)
    requires
        registry_wf(pre),
        list.wf(),
        forall|i: int| 0 <= i < pre.len() ==> (#[trigger] pre[i]).0.id != key.id,
    ensures
        registry_wf(pre.push((key, list))),
        registry_view(pre.push((key, list))) =~= registry_view(pre).insert(key.id, list@),
{
    let post = pre.push((key, list));
    assert(forall|j: int| 0 <= j < pre.len() ==> post[j] == pre[j]);
    assert(post[pre.len() as int] == (key, list));
    assert forall|k: u64| #![all_triggers] true implies {
        &&& registry_view(post).dom().contains(k) == registry_view(pre).insert(
            key.id,
            list@,
        ).dom().contains(k)
        &&& (registry_view(post).dom().contains(k) ==> registry_view(post)[k]
            == registry_view(pre).insert(key.id, list@)[k])
    } by {
        if exists|j: int| 0 <= j < post.len() && (#[trigger] post[j]).0.id == k {
            let j = choose|j: int| 0 <= j < post.len() && (#[trigger] post[j]).0.id == k;
            if k == key.id {
                assert(j == pre.len());
                assert(registry_view(post)[k] == list@);
            } else {
                assert(j < pre.len());
                lemma_registry_at(pre, j);
                lemma_registry_at(post, j);
            }
        } else {
            assert(k != key.id);
            lemma_registry_absent(pre, k);
        }
    }
}

/// Removing entry `i` removes exactly its key from the view.
proof fn lemma_registry_remove<C: Component>(pre: Seq<(ComponentType, ComponentList<C>)>, i: int)
    requires
        registry_wf(pre),
        0 <= i < pre.len(),
    ensures
        registry_wf(pre.remove(i)),
        registry_view(pre.remove(i)) =~= registry_view(pre).remove(pre[i].0.id),
{
    let post = pre.remove(i);
    pre.remove_ensures(i);
    let key = pre[i].0.id;
    assert forall|k: u64| #![all_triggers] true implies {
        &&& registry_view(post).dom().contains(k) == registry_view(pre).remove(key).dom().contains(
            k,
        )
        &&& (registry_view(post).dom().contains(k) ==> registry_view(post)[k]
            == registry_view(pre).remove(key)[k])
    } by {
        if exists|j: int| 0 <= j < post.len() && (#[trigger] post[j]).0.id == k {
            let j = choose|j: int| 0 <= j < post.len() && (#[trigger] post[j]).0.id == k;
            let pj: int = if j < i {
                j
            } else {
                j + 1
            };
            assert(pre[pj].0.id == k);
            assert(k != key);
            lemma_registry_at(pre, pj);
            lemma_registry_at(post, j);
        } else {
            if k != key && registry_view(pre).dom().contains(k) {
                let pj = choose|pj: int| 0 <= pj < pre.len() && (#[trigger] pre[pj]).0.id == k;
                assert(pj != i);
                let j: int = if pj < i {
                    pj
                } else {
                    pj - 1
                };
                assert(post[j].0.id == k);
            }
        }
    }
}

/// The registry from component type to component list: the single point of
/// truth for which entity has which component.
///
/// Its view is the map from each registered key to that type's component map.
/// A type must be registered before any add, set, get or remove references
/// it.
pub struct ComponentManager<C> {
    components: Vec<(ComponentType, ComponentList<C>)>,
}

impl<C: Component> View for ComponentManager<C> {
    type V = Map<u64, Map<Entity, C>>;

    closed spec fn view(&self) -> Map<u64, Map<Entity, C>> {
        registry_view(self.components@)
    }
}

impl<C: Component> ComponentManager<C> {
    /// The registry's bookkeeping is coherent; see `registry_wf`.
    pub closed spec fn wf(&self) -> bool {
        registry_wf(self.components@)
    }

    /// Whether `key` has been registered.
    pub open spec fn spec_registered(&self, key: ComponentType) -> bool {
        self@.dom().contains(key.id)
    }

    /// Make a registry with no component type registered.
    pub fn new() -> (manager: ComponentManager<C>)
        ensures
            manager.wf(),
            manager@ =~= Map::<u64, Map<Entity, C>>::empty(),
    {
        let manager = ComponentManager { components: Vec::new() };
        proof {
            assert(manager@ =~= Map::<u64, Map<Entity, C>>::empty());
        }
        manager
    }

    /// Make a registry with no component type registered, sized for about
    /// `capacity` types.
    pub fn with_capacity(capacity: usize) -> (manager: ComponentManager<C>)
        ensures
            manager.wf(),
            manager@ =~= Map::<u64, Map<Entity, C>>::empty(),
    {
        let manager = ComponentManager { components: Vec::with_capacity(capacity) };
        proof {
            assert(manager@ =~= Map::<u64, Map<Entity, C>>::empty());
        }
        manager
    }

    /// Find the entry index of `id`, if registered.
    fn find_index(&self, id: u64) -> (found: Option<usize>)
        ensures
            match found {
                Some(i) => i < self.components@.len() && self.components@[i as int].0.id == id,
                None => forall|i: int|
                    0 <= i < self.components@.len() ==> (#[trigger] self.components@[i]).0.id != id,
            },
    {
        let mut i: usize = 0;
        while i < self.components.len()
            invariant
                i <= self.components@.len(),
                forall|j: int| 0 <= j < i ==> (#[trigger] self.components@[j]).0.id != id,
            decreases self.components@.len() - i,
        {
            if self.components[i].0.id == id {
                return Some(i);
            }
            i = i + 1;
        }
        None
    }

    /// Register `key`, giving it a fresh, empty component list.  Registering
    /// a key again empties its list.
    pub fn register(&mut self, key: ComponentType)
        requires
            old(self).wf(),
        ensures
            final(self).wf(),
            final(self)@ == old(self)@.insert(key.id, Map::<Entity, C>::empty()),
    {
        let ghost pre = self.components@;
        let fresh: ComponentList<C> = ComponentList::with_capacity(5);
        match self.find_index(key.id) {
            Some(i) => {
                let mut entry = self.components.remove(i);
                entry = (key, fresh);
                self.components.insert(i, entry);
                proof {
                    assert(self.components@ =~= pre.update(i as int, (key, entry.1)));
                    assert(pre[i as int].0.id == key.id);
                    assert(pre[i as int].0 == key);
                    lemma_registry_update(pre, self.components@, i as int);
                }
            },
            None => {
                self.components.push((key, fresh));
                proof {
                    lemma_registry_push(pre, key, fresh);
                }
            },
        }
    }

    /// Whether `entity` has a component of the registered type `id`.
    pub fn has_id(&self, entity: Entity, id: &ComponentType) -> (present: bool)
        requires
            self.wf(),
            self.spec_registered(*id),
        ensures
            present == self@[id.id].contains_key(entity),
    {
        match self.find_index(id.id) {
            Some(i) => {
                proof {
                    lemma_registry_at(self.components@, i as int);
                }
                self.components[i].1.has(entity)
            },
            None => {
                proof {
                    lemma_registry_absent(self.components@, id.id);
                }
                unreached()
            },
        }
    }

    /// Whether `entity` has a component of the registered type `id`.
    pub fn has(&self, entity: Entity, id: ComponentType) -> (present: bool)
        requires
            self.wf(),
            self.spec_registered(id),
        ensures
            present == self@[id.id].contains_key(entity),
    {
        self.has_id(entity, &id)
    }

    /// Whether `id` is registered and `entity` has a component of that type.
    /// Unlike `has_id`, asking about an unregistered type is allowed and
    /// answers no.
    pub fn contains(&self, entity: Entity, id: ComponentType) -> (present: bool)
        requires
            self.wf(),
        ensures
            present == spec_has(self@, id.id, entity),
    {
        match self.find_index(id.id) {
            Some(i) => {
                proof {
                    lemma_registry_at(self.components@, i as int);
                }
                self.components[i].1.has(entity)
            },
            None => {
                proof {
                    lemma_registry_absent(self.components@, id.id);
                }
                false
            },
        }
    }

    /// Whether `id` is registered.
    pub fn registered(&self, id: ComponentType) -> (present: bool)
        requires
            self.wf(),
        ensures
            present == self.spec_registered(id),
    {
        match self.find_index(id.id) {
            Some(i) => {
                proof {
                    lemma_registry_at(self.components@, i as int);
                }
                true
            },
            None => {
                proof {
                    lemma_registry_absent(self.components@, id.id);
                }
                false
            },
        }
    }

    /// Attach `component` of registered type `id` to `entity`, which must not
    /// have one yet; use `set` to update.
    pub fn add(&mut self, entity: Entity, id: ComponentType, component: C)
        requires
            old(self).wf(),
            old(self).spec_registered(id),
            !old(self)@[id.id].contains_key(entity),
            entity < usize::MAX,
        ensures
            final(self).wf(),
            final(self)@ == old(self)@.insert(id.id, old(self)@[id.id].insert(entity, component)),
    {
        let ghost pre = self.components@;
        match self.find_index(id.id) {
            Some(i) => {
                proof {
                    lemma_registry_at(pre, i as int);
                }
                let mut entry = self.components.remove(i);
                entry.1.add(entity, component);
                self.components.insert(i, entry);
                proof {
                    assert(self.components@ =~= pre.update(i as int, self.components@[i as int]));
                    lemma_registry_update(pre, self.components@, i as int);
                }
            },
            None => {
                proof {
                    lemma_registry_absent(pre, id.id);
                }
                unreached()
            },
        }
    }

    /// Overwrite the component of registered type `id` attached to `entity`,
    /// which must already have one.
    pub fn set(&mut self, entity: Entity, id: ComponentType, component: C)
        requires
            old(self).wf(),
            old(self).spec_registered(id),
            old(self)@[id.id].contains_key(entity),
        ensures
            final(self).wf(),
            final(self)@ == old(self)@.insert(id.id, old(self)@[id.id].insert(entity, component)),
    {
        let ghost pre = self.components@;
        match self.find_index(id.id) {
            Some(i) => {
                proof {
                    lemma_registry_at(pre, i as int);
                }
                let mut entry = self.components.remove(i);
                entry.1.set(entity, component);
                self.components.insert(i, entry);
                proof {
                    assert(self.components@ =~= pre.update(i as int, self.components@[i as int]));
                    lemma_registry_update(pre, self.components@, i as int);
                }
            },
            None => {
                proof {
                    lemma_registry_absent(pre, id.id);
                }
                unreached()
            },
        }
    }

    /// Detach and drop the component of registered type `id` attached to
    /// `entity`; a no-op if the entity has none.
    pub fn remove(&mut self, entity: Entity, id: ComponentType)
        requires
            old(self).wf(),
            old(self).spec_registered(id),
        ensures
            final(self).wf(),
            final(self)@ == old(self)@.insert(id.id, old(self)@[id.id].remove(entity)),
    {
        let ghost pre = self.components@;
        match self.find_index(id.id) {
            Some(i) => {
                proof {
                    lemma_registry_at(pre, i as int);
                }
                let mut entry = self.components.remove(i);
                entry.1.remove(entity);
                self.components.insert(i, entry);
                proof {
                    assert(self.components@ =~= pre.update(i as int, self.components@[i as int]));
                    lemma_registry_update(pre, self.components@, i as int);
                }
            },
            None => {
                proof {
                    lemma_registry_absent(pre, id.id);
                }
                unreached()
            },
        }
    }

    /// Borrow the component of registered type `id` attached to `entity`, or
    /// nothing if the entity has none.
    pub fn borrow(&self, entity: Entity, id: ComponentType) -> (component: Option<&C>)
        requires
            self.wf(),
            self.spec_registered(id),
        ensures
            match component {
                Some(c) => self@[id.id].contains_key(entity) && *c == self@[id.id][entity],
                None => !self@[id.id].contains_key(entity),
            },
    {
        match self.find_index(id.id) {
            Some(i) => {
                proof {
                    lemma_registry_at(self.components@, i as int);
                }
                self.components[i].1.borrow(entity)
            },
            None => {
                proof {
                    lemma_registry_absent(self.components@, id.id);
                }
                unreached()
            },
        }
    }

    /// Copy out the component of registered type `id` attached to `entity`,
    /// or nothing if the entity has none.
    pub fn get(&self, entity: Entity, id: ComponentType) -> (component: Option<C>)
        requires
            self.wf(),
            self.spec_registered(id),
        ensures
            match component {
                Some(c) => self@[id.id].contains_key(entity) && c == self@[id.id][entity],
                None => !self@[id.id].contains_key(entity),
            },
    {
        match self.find_index(id.id) {
            Some(i) => {
                proof {
                    lemma_registry_at(self.components@, i as int);
                }
                self.components[i].1.get(entity)
            },
            None => {
                proof {
                    lemma_registry_absent(self.components@, id.id);
                }
                unreached()
            },
        }
    }

    /// Borrow the component of registered type `id` attached to `entity`
    /// mutably, or nothing if the entity has none.
    pub fn borrow_mut(&mut self, entity: Entity, id: ComponentType) -> (component: Option<&mut C>)
        requires
            old(self).wf(),
            old(self).spec_registered(id),
        ensures
            (component is Some) == old(self)@[id.id].contains_key(entity),
            component is None ==> final(self)@ == old(self)@ && final(self).wf(),
            component is Some ==> *component.unwrap() == old(self)@[id.id][entity] && final(self)@
                == old(self)@.insert(
                id.id,
                old(self)@[id.id].insert(entity, *final(component.unwrap())),
            ) && final(self).wf(),
    {
        let ghost pre = self.components@;
        match self.find_index(id.id) {
            Some(i) => {
                proof {
                    lemma_registry_at(pre, i as int);
                    assert forall|l: ComponentList<C>| #![all_triggers] true implies {
                        &&& registry_view(pre.update(i as int, (pre[i as int].0, l)))
                            =~= registry_view(pre).insert(id.id, l@)
                        &&& (l.wf() ==> registry_wf(pre.update(i as int, (pre[i as int].0, l))))
                    } by {
                        lemma_registry_update(pre, pre.update(i as int, (pre[i as int].0, l)), i as int);
                    }
                    assert(registry_view(pre).insert(id.id, pre[i as int].1@) =~= registry_view(
                        pre,
                    ));
                }
                let entry = &mut self.components[i];
                entry.1.borrow_mut(entity)
            },
            None => {
                proof {
                    lemma_registry_absent(pre, id.id);
                }
                unreached()
            },
        }
    }

    /// Borrow the whole component list of registered type `id` mutably.  The
    /// registry stays coherent as long as the caller leaves the list so.
    pub fn get_list(&mut self, id: ComponentType) -> (list: &mut ComponentList<C>)
        requires
            old(self).wf(),
            old(self).spec_registered(id),
        ensures
            (*list)@ == old(self)@[id.id],
            (*list).wf(),
            final(self)@ == old(self)@.insert(id.id, final(list)@),
            final(list).wf() ==> final(self).wf(),
    {
        let ghost pre = self.components@;
        match self.find_index(id.id) {
            Some(i) => {
                proof {
                    lemma_registry_at(pre, i as int);
                    assert forall|l: ComponentList<C>| #![all_triggers] true implies {
                        &&& registry_view(pre.update(i as int, (pre[i as int].0, l)))
                            =~= registry_view(pre).insert(id.id, l@)
                        &&& (l.wf() ==> registry_wf(pre.update(i as int, (pre[i as int].0, l))))
                    } by {
                        lemma_registry_update(pre, pre.update(i as int, (pre[i as int].0, l)), i as int);
                    }
                }
                let entry = &mut self.components[i];
                &mut entry.1
            },
            None => {
                proof {
                    lemma_registry_absent(pre, id.id);
                }
                unreached()
            },
        }
    }

    /// Detach the entity's components of every registered type; used when an
    /// entity is deleted.
    pub fn clear_entity(&mut self, entity: Entity)
        requires
            old(self).wf(),
        ensures
            final(self).wf(),
            final(self)@.dom() == old(self)@.dom(),
            forall|k: u64|
                old(self)@.dom().contains(k) ==> final(self)@[k] == old(self)@[k].remove(entity),
    {
        let ghost pre = self.components@;
        let mut i: usize = 0;
        while i < self.components.len()
            invariant
                registry_wf(pre),
                registry_wf(self.components@),
                i <= self.components@.len(),
                self.components@.len() == pre.len(),
                forall|j: int| 0 <= j < pre.len() ==> (#[trigger] self.components@[j]).0 == pre[j].0,
                forall|j: int| i <= j < pre.len() ==> self.components@[j] == pre[j],
                forall|j: int|
                    0 <= j < i ==> (#[trigger] self.components@[j]).1@ == pre[j].1@.remove(entity),
            decreases self.components@.len() - i,
        {
            let ghost snap = self.components@;
            let mut entry = self.components.remove(i);
            entry.1.remove(entity);
            self.components.insert(i, entry);
            proof {
                assert(self.components@ =~= snap.update(i as int, self.components@[i as int]));
            }
            i = i + 1;
        }
        proof {
            assert forall|k: u64| #![all_triggers] true implies {
                &&& final(self)@.dom().contains(k) == registry_view(pre).dom().contains(k)
                &&& (registry_view(pre).dom().contains(k) ==> final(self)@[k] == registry_view(
                    pre,
                )[k].remove(entity))
            } by {
                if exists|j: int| 0 <= j < pre.len() && (#[trigger] pre[j]).0.id == k {
                    let j = choose|j: int| 0 <= j < pre.len() && (#[trigger] pre[j]).0.id == k;
                    lemma_registry_at(pre, j);
                    lemma_registry_at(self.components@, j);
                } else {
                    lemma_registry_absent(pre, k);
                    lemma_registry_absent(self.components@, k);
                }
            }
            assert(final(self)@.dom() =~= registry_view(pre).dom());
        }
    }

    /// Unregister `id`, dropping its whole component list.  Unregistering an
    /// unknown type changes nothing.
    pub fn clear(&mut self, id: ComponentType)
        requires
            old(self).wf(),
        ensures
            final(self).wf(),
            final(self)@ == old(self)@.remove(id.id),
    {
        let ghost pre = self.components@;
        match self.find_index(id.id) {
            Some(i) => {
                self.components.remove(i);
                proof {
                    lemma_registry_remove(pre, i as int);
                }
            },
            None => {
                proof {
                    lemma_registry_absent(pre, id.id);
                    assert(final(self)@ =~= registry_view(pre).remove(id.id));
                }
            },
        }
    }
}

} // verus!
