//! A lightweight entity-component-system runtime.
//!
//! Entities are small integer identities, components are plain values attached
//! to entities, and processors act once per tick on every entity matching
//! their aspect.

mod bag;
mod comp;
mod entity;
mod processor;
mod world;

pub use bag::Bag;
pub use bag::IntoBag;
pub use bag::StoreOp;
pub use bag::count_adds;
pub use bag::count_removes;
pub use bag::lemma_len_accounting;
pub use bag::lemma_slot_reuse;
pub use bag::lemma_slot_round_trip;
pub use bag::live_count;
pub use bag::store_after;
pub use comp::Component;
pub use comp::ComponentList;
pub use comp::ComponentManager;
pub use comp::ComponentType;
pub use comp::lemma_deleted_entity_bare;
pub use comp::lemma_remove_idempotent;
pub use comp::spec_has;
pub use entity::Entity;
pub use entity::EntityIter;
pub use entity::EntityManager;
pub use entity::EntityRef;
pub use entity::EntityRefMut;
pub use processor::Aspect;
pub use processor::IntervalProcessor;
pub use processor::MetaProcessor;
pub use processor::Processor;
pub use processor::ProcessorManager;
pub use world::EntityBuilder;
pub use world::World;
