use eccles::ComponentManager;
use eccles::ComponentType;
use eccles::EntityManager;
use eccles::EntityRef;
use eccles::EntityRefMut;

#[derive(Clone, Copy, Debug, PartialEq)]
struct Marker(i64);

impl Default for Marker {
    fn default() -> Marker {
        Marker(0)
    }
}

fn marker_key() -> ComponentType {
    ComponentType::of(11)
}

#[test]
fn create_issues_consecutive_ids() {
    let mut manager = EntityManager::new();
    assert_eq!(manager.create(), 0);
    assert_eq!(manager.create(), 1);
    assert_eq!(manager.create(), 2);
    assert!(manager.exists_entity(0));
    assert!(manager.exists_entity(2));
    assert!(!manager.exists_entity(3));
}

#[test]
fn create_prefers_recycled_ids() {
    let mut manager = EntityManager::new();
    let a = manager.create();
    let b = manager.create();
    let c = manager.create();
    manager.remove(b);
    assert!(!manager.exists_entity(b));
    assert_eq!(manager.create(), b);
    assert!(manager.exists_entity(a));
    assert!(manager.exists_entity(b));
    assert!(manager.exists_entity(c));
    // With every recycled id in use again, the next id is fresh.
    assert_eq!(manager.create(), 3);
}

#[test]
fn enable_disable_toggle_activity() {
    let mut manager = EntityManager::new();
    let e = manager.create();
    assert!(!manager.is_active(e));
    manager.enable(e);
    assert!(manager.is_active(e));
    manager.enable(e);
    assert!(manager.is_active(e));
    manager.disable(e);
    assert!(!manager.is_active(e));
    assert!(manager.exists_entity(e));
    manager.disable(e);
    assert!(!manager.is_active(e));
}

#[test]
fn removed_entity_is_not_active_or_iterated() {
    let mut manager = EntityManager::new();
    let a = manager.create();
    let b = manager.create();
    manager.enable(a);
    manager.enable(b);
    manager.remove(a);
    assert!(!manager.is_active(a));
    assert!(manager.is_active(b));
    let mut it = manager.iter();
    assert_eq!(it.next(), Some(b));
    assert_eq!(it.next(), None);
}

#[test]
fn iter_walks_a_snapshot_in_enable_order() {
    let mut manager = EntityManager::new();
    let a = manager.create();
    let b = manager.create();
    let c = manager.create();
    manager.enable(c);
    manager.enable(a);
    manager.enable(b);
    let mut it = manager.iter();
    assert_eq!(it.next(), Some(c));
    assert_eq!(it.next(), Some(a));
    // The walk is a snapshot: later changes do not show up in it.
    manager.disable(b);
    assert_eq!(it.next(), Some(b));
    assert_eq!(it.next(), None);
    assert_eq!(it.next(), None);
    it.restart();
    assert_eq!(it.next(), Some(c));
}

#[test]
fn entity_ref_reads_components_and_activity() {
    let mut entities = EntityManager::new();
    let mut components: ComponentManager<Marker> = ComponentManager::new();
    components.register(marker_key());
    let e = entities.create();
    entities.enable(e);
    components.add(e, marker_key(), Marker(3));
    let handle = EntityRef { entity: e };
    assert!(handle.is_active(&entities));
    assert!(handle.has(&components, marker_key()));
    assert!(handle.has_id(&components, &marker_key()));
    assert_eq!(handle.get(&components, marker_key()), Some(Marker(3)));
    assert_eq!(handle.borrow(&components, marker_key()), Some(&Marker(3)));
}

#[test]
fn entity_ref_mut_chains_component_edits() {
    let mut entities = EntityManager::new();
    let mut components: ComponentManager<Marker> = ComponentManager::new();
    components.register(marker_key());
    let e = entities.create();
    let handle = EntityRefMut { entity: e };
    let handle = handle.add(&mut components, marker_key(), Marker(1)).enable(&mut entities);
    assert!(handle.is_active(&entities));
    assert!(handle.has(&components, marker_key()));
    let handle = handle.set(&mut components, marker_key(), Marker(2));
    assert_eq!(handle.get(&components, marker_key()), Some(Marker(2)));
    if let Some(m) = handle.borrow_mut(&mut components, marker_key()) {
        *m = Marker(5);
    } else {
        panic!("component missing");
    }
    assert_eq!(handle.borrow(&components, marker_key()), Some(&Marker(5)));
    let handle = handle.disable(&mut entities);
    assert!(!handle.is_active(&entities));
    let handle = handle.remove(&mut components, marker_key());
    assert!(!handle.has(&components, marker_key()));
}

#[test]
fn entity_ref_mut_add_default_uses_the_default_value() {
    let mut entities = EntityManager::new();
    let mut components: ComponentManager<Marker> = ComponentManager::new();
    components.register(marker_key());
    let e = entities.create();
    let handle = EntityRefMut { entity: e };
    let handle = handle.add_default(&mut components, marker_key());
    assert_eq!(handle.get(&components, marker_key()), Some(Marker(0)));
}

#[test]
fn entity_ref_mut_delete_clears_and_recycles() {
    let mut entities = EntityManager::new();
    let mut components: ComponentManager<Marker> = ComponentManager::new();
    components.register(marker_key());
    let e = entities.create();
    entities.enable(e);
    components.add(e, marker_key(), Marker(9));
    let handle = EntityRefMut { entity: e };
    handle.delete(&mut entities, &mut components);
    assert!(!entities.exists_entity(e));
    assert!(!entities.is_active(e));
    assert!(!components.has(e, marker_key()));
    // The freed identifier is reused by the next creation.
    assert_eq!(entities.create(), e);
}
