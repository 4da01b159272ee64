use eccles::ComponentList;
use eccles::ComponentManager;
use eccles::ComponentType;

#[derive(Clone, Copy, Debug, PartialEq)]
enum Comp {
    Health(i64),
    Armor(i64),
}

fn health_key() -> ComponentType {
    ComponentType::of(1)
}

fn armor_key() -> ComponentType {
    ComponentType::of(2)
}

#[test]
fn component_type_of_keeps_id() {
    assert_eq!(health_key().id, 1);
    assert_eq!(health_key(), ComponentType::of(1));
    assert_ne!(health_key(), armor_key());
}

#[test]
fn list_add_and_get() {
    let mut list: ComponentList<Comp> = ComponentList::with_capacity(4);
    assert!(!list.has(3));
    list.add(3, Comp::Health(10));
    assert!(list.has(3));
    assert_eq!(list.get(3), Some(Comp::Health(10)));
    assert_eq!(list.get(4), None);
}

#[test]
fn list_set_overwrites() {
    let mut list: ComponentList<Comp> = ComponentList::with_capacity(4);
    list.add(0, Comp::Health(10));
    list.set(0, Comp::Health(25));
    assert_eq!(list.get(0), Some(Comp::Health(25)));
}

#[test]
fn list_remove_is_idempotent_and_local() {
    // Removing a component an entity does not have is a no-op and leaves
    // every other entity untouched.
    let mut list: ComponentList<Comp> = ComponentList::with_capacity(4);
    list.add(1, Comp::Health(5));
    list.add(2, Comp::Health(6));
    list.remove(7);
    assert!(list.has(1));
    assert!(list.has(2));
    list.remove(1);
    assert!(!list.has(1));
    assert!(list.has(2));
    list.remove(1);
    assert!(!list.has(1));
    assert_eq!(list.get(2), Some(Comp::Health(6)));
}

#[test]
fn list_reuses_slots_without_stale_reads() {
    // After a removal the next add may reuse the freed slot; the value read
    // back is the newly added one.
    let mut list: ComponentList<Comp> = ComponentList::with_capacity(2);
    list.add(0, Comp::Health(1));
    list.add(1, Comp::Health(2));
    list.remove(0);
    list.add(5, Comp::Health(50));
    assert_eq!(list.get(5), Some(Comp::Health(50)));
    assert_eq!(list.get(1), Some(Comp::Health(2)));
    assert!(!list.has(0));
}

#[test]
fn list_borrow_mut_updates_in_place() {
    let mut list: ComponentList<Comp> = ComponentList::with_capacity(2);
    list.add(4, Comp::Armor(3));
    if let Some(c) = list.borrow_mut(4) {
        *c = Comp::Armor(8);
    } else {
        panic!("component missing");
    }
    assert_eq!(list.borrow(4), Some(&Comp::Armor(8)));
    assert_eq!(list.borrow_mut(9), None);
}

#[test]
fn manager_register_then_add_and_query() {
    let mut manager: ComponentManager<Comp> = ComponentManager::new();
    manager.register(health_key());
    manager.register(armor_key());
    assert!(manager.registered(health_key()));
    assert!(!manager.has(0, health_key()));
    manager.add(0, health_key(), Comp::Health(12));
    assert!(manager.has(0, health_key()));
    assert!(manager.has_id(0, &health_key()));
    assert!(!manager.has(0, armor_key()));
    assert_eq!(manager.get(0, health_key()), Some(Comp::Health(12)));
    assert_eq!(manager.get(0, armor_key()), None);
}

#[test]
fn manager_set_overwrites() {
    let mut manager: ComponentManager<Comp> = ComponentManager::with_capacity(2);
    manager.register(health_key());
    manager.add(2, health_key(), Comp::Health(1));
    manager.set(2, health_key(), Comp::Health(2));
    assert_eq!(manager.get(2, health_key()), Some(Comp::Health(2)));
}

#[test]
fn manager_remove_is_idempotent_and_local() {
    let mut manager: ComponentManager<Comp> = ComponentManager::new();
    manager.register(health_key());
    manager.register(armor_key());
    manager.add(1, health_key(), Comp::Health(5));
    manager.add(2, health_key(), Comp::Health(6));
    manager.add(1, armor_key(), Comp::Armor(7));
    manager.remove(3, health_key());
    assert!(manager.has(1, health_key()));
    assert!(manager.has(2, health_key()));
    manager.remove(1, health_key());
    assert!(!manager.has(1, health_key()));
    assert!(manager.has(2, health_key()));
    assert!(manager.has(1, armor_key()));
    manager.remove(1, health_key());
    assert!(!manager.has(1, health_key()));
}

#[test]
fn manager_borrow_and_borrow_mut() {
    let mut manager: ComponentManager<Comp> = ComponentManager::new();
    manager.register(health_key());
    manager.add(0, health_key(), Comp::Health(30));
    assert_eq!(manager.borrow(0, health_key()), Some(&Comp::Health(30)));
    assert_eq!(manager.borrow(1, health_key()), None);
    if let Some(c) = manager.borrow_mut(0, health_key()) {
        *c = Comp::Health(31);
    } else {
        panic!("component missing");
    }
    assert_eq!(manager.get(0, health_key()), Some(Comp::Health(31)));
    assert!(manager.borrow_mut(1, health_key()).is_none());
}

#[test]
fn manager_get_list_gives_the_typed_list() {
    let mut manager: ComponentManager<Comp> = ComponentManager::new();
    manager.register(health_key());
    manager.add(4, health_key(), Comp::Health(9));
    let list = manager.get_list(health_key());
    assert!(list.has(4));
    list.set(4, Comp::Health(10));
    assert_eq!(manager.get(4, health_key()), Some(Comp::Health(10)));
}

#[test]
fn manager_clear_entity_touches_every_type() {
    let mut manager: ComponentManager<Comp> = ComponentManager::new();
    manager.register(health_key());
    manager.register(armor_key());
    manager.add(6, health_key(), Comp::Health(1));
    manager.add(6, armor_key(), Comp::Armor(2));
    manager.add(7, health_key(), Comp::Health(3));
    manager.clear_entity(6);
    assert!(!manager.has(6, health_key()));
    assert!(!manager.has(6, armor_key()));
    assert!(manager.has(7, health_key()));
}

#[test]
fn manager_clear_unregisters_a_type() {
    let mut manager: ComponentManager<Comp> = ComponentManager::new();
    manager.register(health_key());
    manager.register(armor_key());
    manager.add(0, armor_key(), Comp::Armor(2));
    manager.clear(armor_key());
    assert!(!manager.registered(armor_key()));
    assert!(manager.registered(health_key()));
    assert!(!manager.contains(0, armor_key()));
}

#[test]
fn manager_contains_answers_no_for_unregistered() {
    let manager: ComponentManager<Comp> = ComponentManager::new();
    assert!(!manager.contains(0, health_key()));
}

#[test]
fn reregistering_empties_the_list() {
    let mut manager: ComponentManager<Comp> = ComponentManager::new();
    manager.register(health_key());
    manager.add(0, health_key(), Comp::Health(1));
    manager.register(health_key());
    assert!(manager.registered(health_key()));
    assert!(!manager.has(0, health_key()));
}

#[test]
fn list_handles_sparse_entity_ids() {
    let mut list: ComponentList<Comp> = ComponentList::with_capacity(1);
    list.add(1000, Comp::Health(1));
    assert!(list.has(1000));
    assert!(!list.has(999));
    assert_eq!(list.get(1000), Some(Comp::Health(1)));
    list.remove(1000);
    assert!(!list.has(1000));
}
