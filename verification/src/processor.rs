//! Processors, aspects and the per-tick scheduling loop.
//!
//! A processor acts once per tick on every entity matching its aspect.  An
//! aspect is a pure predicate over an entity's component membership.  The
//! manager keeps, per registered processor, its aspect and the entity set
//! computed at the last match phase, and drives the two phases of each tick:
//! matching recomputes that set from the active entities, dispatch hands it
//! to the processor.

use vstd::prelude::*;

use crate::comp::Component;
use crate::comp::ComponentManager;
use crate::comp::ComponentType;
use crate::comp::spec_has;
use crate::entity::Entity;
use crate::entity::EntityManager;

verus! {

/// Filtering a sequence extended by one element keeps the filtered prefix
/// and appends the element exactly when it satisfies the predicate.
proof fn lemma_filter_push<A>(s: Seq<A>, pred: spec_fn(A) -> bool, x: A)
    ensures
        s.push(x).filter(pred) == if pred(x) {
            s.filter(pred).push(x)
        } else {
            s.filter(pred)
        },
{
    reveal(Seq::filter);
    assert(s.push(x).drop_last() =~= s);
    assert(s.push(x).last() == x);
}

/// A matcher against entities: a processor is interested in an entity when
/// the entity has every component type of `all` and, if `any` is non-empty,
/// at least one of `any`.
pub struct Aspect {
    all: Vec<ComponentType>,
    any: Vec<ComponentType>,
}

impl Aspect {
    /// The component types an entity must all have.
    pub closed spec fn all_kinds(&self) -> Seq<ComponentType> {
        self.all@
    }

    /// The component types of which an entity must have at least one, when
    /// there are any.
    pub closed spec fn any_kinds(&self) -> Seq<ComponentType> {
        self.any@
    }

    /// Whether, in the given registry view, `entity` meets the criteria of
    /// this aspect.
    pub open spec fn matches<C>(&self, registry: Map<u64, Map<Entity, C>>, entity: Entity) -> bool {
        &&& forall|i: int|
            0 <= i < self.all_kinds().len() ==> spec_has(
                registry,
                (#[trigger] self.all_kinds()[i]).id,
                entity,
            )
        &&& (self.any_kinds().len() == 0 || exists|i: int|
            0 <= i < self.any_kinds().len() && spec_has(
                registry,
                (#[trigger] self.any_kinds()[i]).id,
                entity,
            ))
    }

    /// An aspect matching entities that have every one of `kinds`.
    pub fn all_of(kinds: Vec<ComponentType>) -> (aspect: Aspect)
        ensures
            aspect.all_kinds() == kinds@,
            aspect.any_kinds().len() == 0,
    {
        Aspect { all: kinds, any: Vec::new() }
    }

    /// An aspect matching entities that have at least one of `kinds`.
    pub fn any_of(kinds: Vec<ComponentType>) -> (aspect: Aspect)
        ensures
            aspect.all_kinds().len() == 0,
            aspect.any_kinds() == kinds@,
    {
        Aspect { all: Vec::new(), any: kinds }
    }

    /// An aspect matching entities that have every one of `all` and, if
    /// `any` is non-empty, at least one of `any`.
    pub fn new(all: Vec<ComponentType>, any: Vec<ComponentType>) -> (aspect: Aspect)
        ensures
            aspect.all_kinds() == all@,
            aspect.any_kinds() == any@,
    {
        Aspect { all, any }
    }

    /// Check whether `entity` meets the criteria of this aspect.  Component
    /// types that are not registered count as absent.
    pub fn check<C: Component>(&self, entity: Entity, components: &ComponentManager<C>) -> (interested: bool)
        requires
            components.wf(),
        ensures
            interested == self.matches(components@, entity),
    {
        let mut i: usize = 0;
        while i < self.all.len()
            invariant
                components.wf(),
                i <= self.all@.len(),
                forall|j: int|
                    0 <= j < i ==> spec_has(components@, (#[trigger] self.all@[j]).id, entity),
            decreases self.all@.len() - i,
        {
            if !components.contains(entity, self.all[i]) {
                proof {
                    assert(!spec_has(components@, self.all_kinds()[i as int].id, entity));
                }
                return false;
            }
            i = i + 1;
        }
        if self.any.len() == 0 {
            return true;
        }
        let mut i: usize = 0;
        while i < self.any.len()
            invariant
                components.wf(),
                i <= self.any@.len(),
                forall|j: int|
                    0 <= j < self.all@.len() ==> spec_has(
                        components@,
                        (#[trigger] self.all@[j]).id,
                        entity,
                    ),
                forall|j: int|
                    0 <= j < i ==> !spec_has(components@, (#[trigger] self.any@[j]).id, entity),
            decreases self.any@.len() - i,
        {
            if components.contains(entity, self.any[i]) {
                proof {
                    assert(spec_has(components@, self.any_kinds()[i as int].id, entity));
                }
                return true;
            }
            i = i + 1;
        }
        false
    }
}

/// Logic run once per tick over the entities matching an aspect.
///
/// Implementations are the library user's; the contract only demands that a
/// processor leave the managers coherent, so the world can keep scheduling
/// after arbitrary processor work.
pub trait Processor<C: Component>: Sized {
    /// Process one matched entity with the tick's delta.
    fn run(
        &mut self,
        entity: Entity,
        entities: &mut EntityManager,
        components: &mut ComponentManager<C>,
        delta: u64,
    )
        requires
            old(entities).wf(),
            old(components).wf(),
        ensures
            final(entities).wf(),
            final(components).wf(),
    ;

    /// Process the whole matched set for one tick: by default, once per
    /// entity in matched order.  Processors that need whole-batch side
    /// effects override this.
    fn run_all(
        &mut self,
        entities: &mut EntityManager,
        components: &mut ComponentManager<C>,
        matched: &Vec<Entity>,
        delta: u64,
    )
        requires
            old(entities).wf(),
            old(components).wf(),
        ensures
            final(entities).wf(),
            final(components).wf(),
    {
        let mut i: usize = 0;
        while i < matched.len()
            invariant
                entities.wf(),
                components.wf(),
            decreases matched@.len() - i,
        {
            self.run(matched[i], entities, components, delta);
            i = i + 1;
        }
    }
}

/// A decorator that forwards to its processor only once enough time has
/// accumulated, letting fixed-step logic coexist with a variable-step tick.
pub struct IntervalProcessor<S> {
    /// The interval between forwarded runs, in the caller's delta unit.
    pub interval: u64,
    /// The time accumulated since the last forwarded run.
    pub since_last: u64,
    /// The processor to forward to.
    pub processor: S,
}

impl<S> IntervalProcessor<S> {
    /// Wrap `processor` so it runs once per `interval` of accumulated time.
    pub fn new(processor: S, interval: u64) -> (wrapped: IntervalProcessor<S>)
        ensures
            wrapped.interval == interval,
            wrapped.since_last == 0,
            wrapped.processor == processor,
    {
        IntervalProcessor { interval, since_last: 0, processor }
    }

    /// Add `delta` to the accumulator; report whether the interval was
    /// exceeded, and if so reduce the accumulator by one interval.  The
    /// accumulator saturates at the integer limit.
    pub fn step(&mut self, delta: u64) -> (fire: bool)
        ensures
            ({
                let accumulated: int = if old(self).since_last + delta <= u64::MAX {
                    old(self).since_last + delta
                } else {
                    u64::MAX as int
                };
                &&& fire == (accumulated > old(self).interval)
                &&& final(self).since_last == if accumulated > old(self).interval {
                    accumulated - old(self).interval
                } else {
                    accumulated
                }
            }),
            final(self).interval == old(self).interval,
            final(self).processor == old(self).processor,
    {
        if delta > u64::MAX - self.since_last {
            self.since_last = u64::MAX;
        } else {
            self.since_last = self.since_last + delta;
        }
        if self.since_last > self.interval {
            self.since_last = self.since_last - self.interval;
            true
        } else {
            false
        }
    }
}

impl<C: Component, S: Processor<C>> Processor<C> for IntervalProcessor<S> {
    fn run(
        &mut self,
        entity: Entity,
        entities: &mut EntityManager,
        components: &mut ComponentManager<C>,
        delta: u64,
    ) {
        self.processor.run(entity, entities, components, delta)
    }

    fn run_all(
        &mut self,
        entities: &mut EntityManager,
        components: &mut ComponentManager<C>,
        matched: &Vec<Entity>,
        delta: u64,
    ) {
        if self.step(delta) {
            let interval = self.interval;
            self.processor.run_all(entities, components, matched, interval);
        }
    }
}

/// One registered processor: its aspect and the entities matched for it at
/// the last match phase.
pub struct MetaProcessor<P> {
    /// The aspect the processor is matched against.
    pub aspect: Aspect,
    /// The processor itself.
    pub processor: P,
    /// The entities matched at the last match phase, in active order.
    pub entities: Vec<Entity>,
}

/// The registered processors, in registration order, with the tick protocol:
/// for each processor, a match phase that recomputes its cached entity set,
/// then a dispatch phase that runs it over that set.
pub struct ProcessorManager<P> {
    processors: Vec<MetaProcessor<P>>,
}

impl<P> ProcessorManager<P> {
    /// The registered processors in registration order.
    pub closed spec fn entries(&self) -> Seq<MetaProcessor<P>> {
        self.processors@
    }

    /// Make a manager with no processor registered.
    pub fn new() -> (manager: ProcessorManager<P>)
        ensures
            manager.entries() =~= Seq::<MetaProcessor<P>>::empty(),
    {
        ProcessorManager { processors: Vec::new() }
    }

    /// Register `processor` bound to `aspect`, after every processor already
    /// registered.  Its matched set starts empty.
    pub fn add(&mut self, processor: P, aspect: Aspect)
        ensures
            final(self).entries().len() == old(self).entries().len() + 1,
            forall|j: int|
                0 <= j < old(self).entries().len() ==> final(self).entries()[j] == old(
                    self,
                ).entries()[j],
            final(self).entries().last().aspect == aspect,
            final(self).entries().last().processor == processor,
            final(self).entries().last().entities@ =~= Seq::<Entity>::empty(),
    {
        self.processors.push(MetaProcessor { processor, aspect, entities: Vec::new() });
    }

    /// The number of registered processors.
    pub fn len(&self) -> (n: usize)
        ensures
            n == self.entries().len(),
    {
        self.processors.len()
    }

    /// Borrow the registered processor entry at `index`.
    pub fn borrow(&self, index: usize) -> (entry: &MetaProcessor<P>)
        requires
            index < self.entries().len(),
        ensures
            *entry == self.entries()[index as int],
    {
        &self.processors[index]
    }

    /// Match phase for the processor at `index`: recompute its cached entity
    /// set as the active entities its aspect matches, in active order,
    /// replacing the previous set entirely.
    pub fn update<C: Component>(
        &mut self,
        entities: &EntityManager,
        components: &ComponentManager<C>,
        index: usize,
    )
        requires
            old(self).entries().len() > index,
            components.wf(),
        ensures
            final(self).entries().len() == old(self).entries().len(),
            forall|j: int|
                0 <= j < old(self).entries().len() && j != index ==> final(self).entries()[j]
                    == old(self).entries()[j],
            final(self).entries()[index as int].aspect == old(self).entries()[index as int].aspect,
            final(self).entries()[index as int].processor == old(self).entries()[
                index as int
            ].processor,
            final(self).entries()[index as int].entities@ == entities.active_list().filter(
                |e: Entity| old(self).entries()[index as int].aspect.matches(components@, e),
            ),
    {
        let ghost pre = self.processors@;
        let mut entry = self.processors.remove(index);
        let ghost pred = |e: Entity| pre[index as int].aspect.matches(components@, e);
        let active = entities.active();
        let mut matched: Vec<Entity> = Vec::new();
        let mut i: usize = 0;
        proof {
            assert(entities.active_list().take(0) =~= Seq::<Entity>::empty());
            reveal(Seq::filter);
        }
        while i < active.len()
            invariant
                components.wf(),
                i <= active@.len(),
                active@ == entities.active_list(),
                entry.aspect == pre[index as int].aspect,
                matched@ == entities.active_list().take(i as int).filter(pred),
                pred == (|e: Entity| pre[index as int].aspect.matches(components@, e)),
            decreases active@.len() - i,
        {
            let candidate = active[i];
            proof {
                assert(entities.active_list().take(i + 1) =~= entities.active_list().take(
                    i as int,
                ).push(candidate));
                lemma_filter_push(entities.active_list().take(i as int), pred, candidate);
            }
            if entry.aspect.check(candidate, components) {
                matched.push(candidate);
            }
            i = i + 1;
        }
        proof {
            assert(entities.active_list().take(active@.len() as int) =~= entities.active_list());
        }
        entry.entities = matched;
        self.processors.insert(index, entry);
        proof {
            assert(forall|j: int|
                0 <= j < pre.len() && j != index ==> final(self).entries()[j] == pre[j]);
        }
    }

    /// Dispatch phase for the processor at `index`: run it once over its
    /// cached matched set with the tick's delta.  The cached set and every
    /// other entry stay as they were.
    pub fn run<C: Component>(
        &mut self,
        index: usize,
        entities: &mut EntityManager,
        components: &mut ComponentManager<C>,
        delta: u64,
    ) where P: Processor<C>
        requires
            old(self).entries().len() > index,
            old(entities).wf(),
            old(components).wf(),
        ensures
            final(entities).wf(),
            final(components).wf(),
            final(self).entries().len() == old(self).entries().len(),
            forall|j: int|
                0 <= j < old(self).entries().len() && j != index ==> final(self).entries()[j]
                    == old(self).entries()[j],
            final(self).entries()[index as int].aspect == old(self).entries()[index as int].aspect,
            final(self).entries()[index as int].entities == old(self).entries()[
                index as int
            ].entities,
    {
        let mut entry = self.processors.remove(index);
        entry.processor.run_all(entities, components, &entry.entities, delta);
        self.processors.insert(index, entry);
        proof {
            assert(forall|j: int|
                0 <= j < old(self).entries().len() && j != index ==> final(self).entries()[j]
                    == old(self).entries()[j]);
        }
    }
}

} // verus!
