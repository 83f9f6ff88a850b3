use component_db::component_list::ComponentList;
use component_db::entity::Entity;
use component_db::persistent_id::{find_entity_with_id, PersistentId, SerializationMarker};
use component_db::serializable_entity_reference::SerializableEntityReference;

fn marker(value: u128) -> SerializationMarker {
    SerializationMarker::with_id(PersistentId::from_value(value))
}

fn markers() -> (ComponentList<SerializationMarker>, Entity, Entity) {
    let mut list = ComponentList::new();
    let a = Entity::new(0, 1);
    let b = Entity::new(3, 5);
    list.insert(a, marker(100));
    list.insert(b, marker(200));
    (list, a, b)
}

#[test]
fn new_points_at_the_entity_without_an_id() {
    let e = Entity::new(4, 1);
    let reference = SerializableEntityReference::new(e);
    assert_eq!(reference.target, Some(e));
    assert_eq!(reference.target_serialized_id(), None);
}

#[test]
fn blank_and_default_point_nowhere() {
    let blank = SerializableEntityReference::blank();
    assert_eq!(blank.target, None);
    assert_eq!(blank.target_serialized_id(), None);
    assert_eq!(SerializableEntityReference::default(), blank);
}

#[test]
fn from_serialized_id_names_the_target_by_id_only() {
    let id = PersistentId::from_value(9);
    let reference = SerializableEntityReference::from_serialized_id(Some(id));
    assert_eq!(reference.target, None);
    assert_eq!(reference.target_serialized_id(), Some(id));
}

#[test]
fn from_entity_id_takes_the_id_of_a_marked_target() {
    let (list, a, _) = markers();
    let reference = SerializableEntityReference::from_entity_id(Some(a), &list);
    assert_eq!(reference.target, Some(a));
    assert_eq!(reference.target_serialized_id(), Some(PersistentId::from_value(100)));

    let unmarked = Entity::new(1, 1);
    let reference = SerializableEntityReference::from_entity_id(Some(unmarked), &list);
    assert_eq!(reference.target, Some(unmarked));
    assert_eq!(reference.target_serialized_id(), None);

    let reference = SerializableEntityReference::from_entity_id(None, &list);
    assert_eq!(reference, SerializableEntityReference::blank());
}

#[test]
fn externalizing_a_reference_to_a_marked_target_sets_the_id() {
    let (list, _, b) = markers();
    let mut reference = SerializableEntityReference::new(b);
    assert_eq!(reference.entity_id_to_serialized_refs(&list), None);
    assert_eq!(reference.target, Some(b));
    assert_eq!(reference.target_serialized_id(), Some(PersistentId::from_value(200)));
}

#[test]
fn externalizing_a_reference_to_an_unmarked_target_empties_it() {
    let (list, _, _) = markers();
    let unmarked = Entity::new(1, 1);
    let mut reference = SerializableEntityReference::new(unmarked);
    assert_eq!(reference.entity_id_to_serialized_refs(&list), Some(unmarked));
    assert_eq!(reference, SerializableEntityReference::blank());

    let stale = Entity::new(3, 3);
    let mut reference = SerializableEntityReference::new(stale);
    assert_eq!(reference.entity_id_to_serialized_refs(&list), Some(stale));
    assert_eq!(reference, SerializableEntityReference::blank());
}

#[test]
fn externalizing_a_reference_without_target_clears_a_leftover_id() {
    let (list, _, _) = markers();
    let mut reference = SerializableEntityReference::from_serialized_id(Some(PersistentId::from_value(100)));
    assert_eq!(reference.entity_id_to_serialized_refs(&list), None);
    assert_eq!(reference, SerializableEntityReference::blank());
}

#[test]
fn internalizing_resolves_the_id_to_the_entity() {
    let (list, a, b) = markers();
    let mut reference = SerializableEntityReference::from_serialized_id(Some(PersistentId::from_value(200)));
    assert_eq!(reference.serialized_refs_to_entity_id(&list), None);
    assert_eq!(reference.target, Some(b));
    assert_eq!(reference.target_serialized_id(), Some(PersistentId::from_value(200)));

    let mut reference = SerializableEntityReference::from_serialized_id(Some(PersistentId::from_value(100)));
    assert_eq!(reference.serialized_refs_to_entity_id(&list), None);
    assert_eq!(reference.target, Some(a));
}

#[test]
fn internalizing_an_unknown_id_empties_the_reference() {
    let (list, _, _) = markers();
    let unknown = PersistentId::from_value(300);
    let mut reference = SerializableEntityReference::from_serialized_id(Some(unknown));
    assert_eq!(reference.serialized_refs_to_entity_id(&list), Some(unknown));
    assert_eq!(reference, SerializableEntityReference::blank());
}

#[test]
fn internalizing_without_an_id_leaves_no_target() {
    let (list, a, _) = markers();
    let mut reference = SerializableEntityReference::new(a);
    assert_eq!(reference.serialized_refs_to_entity_id(&list), None);
    assert_eq!(reference, SerializableEntityReference::blank());
}

#[test]
fn an_id_names_the_first_entity_in_slot_order_that_carries_it() {
    let mut list = ComponentList::new();
    let late = Entity::new(6, 1);
    let early = Entity::new(2, 1);
    list.insert(late, marker(7));
    list.insert(early, marker(7));
    list.insert(Entity::new(0, 1), marker(8));
    assert_eq!(find_entity_with_id(&list, PersistentId::from_value(7)), Some(early));
    assert_eq!(find_entity_with_id(&list, PersistentId::from_value(8)), Some(Entity::new(0, 1)));
    assert_eq!(find_entity_with_id(&list, PersistentId::from_value(9)), None);
}

#[test]
fn inspect_writes_the_picked_target() {
    let a = Entity::new(0, 1);
    let b = Entity::new(1, 1);
    let id = PersistentId::from_value(1);
    let mut reference = SerializableEntityReference { target: Some(a), target_serialized_id: Some(id) };

    assert!(!reference.inspect(None));
    assert_eq!(reference.target, Some(a));
    assert_eq!(reference.target_serialized_id(), Some(id));

    assert!(reference.inspect(Some(Some(b))));
    assert_eq!(reference.target, Some(b));
    assert_eq!(reference.target_serialized_id(), Some(id));

    assert!(reference.inspect(Some(Some(b))));
    assert_eq!(reference.target, Some(b));

    let elsewhere = Entity::new(9, 4);
    assert!(reference.inspect(Some(Some(elsewhere))));
    assert_eq!(reference.target, Some(elsewhere));
    assert_eq!(reference.target_serialized_id(), Some(id));

    assert!(reference.inspect(Some(None)));
    assert_eq!(reference.target, None);
    assert_eq!(reference.target_serialized_id(), Some(id));
}

#[test]
fn inspect_of_a_blank_reference_sets_the_target_only() {
    let a = Entity::new(3, 1);
    let mut reference = SerializableEntityReference::blank();
    assert!(reference.inspect(Some(Some(a))));
    assert_eq!(reference, SerializableEntityReference::new(a));
    assert!(reference.inspect(Some(None)));
    assert_eq!(reference, SerializableEntityReference::blank());
}
