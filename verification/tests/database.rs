use component_db::components::{Follow, GraphNode, GridObject, Name};
use component_db::database::{ComponentDatabase, MarkerError};
use component_db::entity::{Entity, InvalidHandle};
use component_db::persistent_id::{
    PersistentId, SerializationMarker, RANDOM_VERSION_AND_VARIANT, VERSION_AND_VARIANT_MASK,
};
use component_db::serializable_entity_reference::SerializableEntityReference;
use component_db::vec2int::Vec2Int;

fn name(text: &str) -> Name {
    Name::new(text.to_string())
}

fn grid(x: i32, y: i32) -> GridObject {
    GridObject { position: Vec2Int::new(x, y) }
}

fn follow(target: Entity) -> Follow {
    Follow { target: SerializableEntityReference::new(target), offset: Vec2Int::new(1, 1) }
}

#[test]
fn a_new_database_has_no_entities() {
    let database = ComponentDatabase::new();
    assert!(database.entities().is_empty());
    assert_eq!(database.slot_count(), 0);
    assert!(database.has_capacity());
    assert!(!database.entity_exists(Entity::new(0, 1)));
}

#[test]
fn created_entities_exist_and_have_no_components() {
    let mut database = ComponentDatabase::new();
    let a = database.create_entity();
    let b = database.create_entity();
    assert_ne!(a, b);
    assert!(database.entity_exists(a));
    assert!(database.entity_exists(b));
    assert_eq!(database.entities(), vec![a, b]);
    assert_eq!(database.names().get(&a), None);
    assert_eq!(database.grid_objects().get(&a), None);
    assert_eq!(database.follows().get(&a), None);
    assert_eq!(database.graph_nodes().get(&a), None);
    assert_eq!(database.serialization_markers().get(&a), None);
    assert!(!database.is_hidden_from_inspector(a));
}

#[test]
fn components_attach_and_detach() {
    let mut database = ComponentDatabase::new();
    let a = database.create_entity();
    let b = database.create_entity();
    assert_eq!(database.insert_name(a, name("a")), None);
    assert_eq!(database.insert_name(a, name("A")), Some(name("a")));
    assert_eq!(database.insert_grid_object(a, grid(1, 2)), None);
    assert_eq!(database.insert_follow(a, follow(b)), None);
    let node = GraphNode {
        previous: SerializableEntityReference::blank(),
        next: SerializableEntityReference::new(b),
    };
    assert_eq!(database.insert_graph_node(a, node), None);

    assert_eq!(database.names().get(&a), Some(&name("A")));
    assert_eq!(database.grid_objects().get(&a), Some(&grid(1, 2)));
    assert_eq!(database.follows().get(&a), Some(&follow(b)));
    assert_eq!(database.graph_nodes().get(&a), Some(&node));
    assert_eq!(database.names().get(&b), None);

    assert_eq!(database.remove_name(a), Some(name("A")));
    assert_eq!(database.remove_grid_object(a), Some(grid(1, 2)));
    assert_eq!(database.remove_follow(a), Some(follow(b)));
    assert_eq!(database.remove_graph_node(a), Some(node));
    assert_eq!(database.remove_name(a), None);
    assert_eq!(database.names().get(&a), None);
}

#[test]
fn components_are_written_in_place() {
    let mut database = ComponentDatabase::new();
    let a = database.create_entity();
    let b = database.create_entity();
    database.insert_name(a, name("a"));
    database.insert_grid_object(a, grid(1, 2));
    database.insert_follow(a, follow(b));
    database.insert_graph_node(
        a,
        GraphNode { previous: SerializableEntityReference::blank(), next: SerializableEntityReference::blank() },
    );
    if let Some(n) = database.name_mut(a) {
        n.name.push('!');
    }
    if let Some(g) = database.grid_object_mut(a) {
        g.position.x = 9;
    }
    if let Some(f) = database.follow_mut(a) {
        f.offset = Vec2Int::new(0, -1);
    }
    if let Some(n) = database.graph_node_mut(a) {
        n.next = SerializableEntityReference::new(b);
    }
    assert_eq!(database.names().get(&a), Some(&name("a!")));
    assert_eq!(database.grid_objects().get(&a), Some(&grid(9, 2)));
    assert_eq!(database.follows().get(&a).map(|f| f.offset), Some(Vec2Int::new(0, -1)));
    assert_eq!(database.graph_nodes().get(&a).map(|n| n.next.target), Some(Some(b)));
    assert!(database.name_mut(b).is_none());
    assert!(database.grid_object_mut(Entity::new(0, 9)).is_none());
}

#[test]
fn after_destroy_nothing_is_left_of_the_entity() {
    let mut database = ComponentDatabase::new();
    let a = database.create_entity();
    let b = database.create_entity();
    database.insert_name(a, name("a"));
    database.insert_grid_object(a, grid(1, 2));
    database.insert_follow(a, follow(b));
    database.insert_graph_node(
        a,
        GraphNode { previous: SerializableEntityReference::new(b), next: SerializableEntityReference::blank() },
    );
    assert_eq!(database.insert_serialization_marker(a, PersistentId::from_value(1)), Ok(None));
    database.hide_from_inspector(a);
    database.insert_name(b, name("b"));

    assert_eq!(database.destroy_entity(a), Ok(()));

    assert!(!database.entity_exists(a));
    assert_eq!(database.names().get(&a), None);
    assert_eq!(database.grid_objects().get(&a), None);
    assert_eq!(database.follows().get(&a), None);
    assert_eq!(database.graph_nodes().get(&a), None);
    assert_eq!(database.serialization_markers().get(&a), None);
    assert!(!database.is_hidden_from_inspector(a));
    assert!(database.entity_exists(b));
    assert_eq!(database.names().get(&b), Some(&name("b")));
    assert_eq!(database.entities(), vec![b]);
}

#[test]
fn destroy_of_a_stale_handle_changes_nothing() {
    let mut database = ComponentDatabase::new();
    let a = database.create_entity();
    assert_eq!(database.destroy_entity(a), Ok(()));
    let reused = database.create_entity();
    database.insert_name(reused, name("reused"));
    assert_eq!(database.destroy_entity(a), Err(InvalidHandle { entity: a }));
    assert!(database.entity_exists(reused));
    assert_eq!(database.names().get(&reused), Some(&name("reused")));
}

#[test]
fn a_handle_from_before_a_slot_reuse_stays_stale() {
    let mut database = ComponentDatabase::new();
    let old = database.create_entity();
    database.insert_name(old, name("old"));
    assert_eq!(database.destroy_entity(old), Ok(()));
    let new = database.create_entity();
    assert_eq!(new.index, old.index);
    assert!(new.generation > old.generation);
    assert_ne!(new, old);
    database.insert_name(new, name("new"));
    assert!(!database.entity_exists(old));
    assert_eq!(database.names().get(&old), None);
    assert_eq!(database.names().get(&new), Some(&name("new")));
}

#[test]
fn operations_on_a_stale_handle_do_nothing() {
    let mut database = ComponentDatabase::new();
    let a = database.create_entity();
    assert_eq!(database.destroy_entity(a), Ok(()));
    assert_eq!(database.insert_name(a, name("ghost")), None);
    assert_eq!(database.insert_grid_object(a, grid(0, 0)), None);
    assert_eq!(database.insert_follow(a, follow(a)), None);
    assert_eq!(
        database.insert_graph_node(
            a,
            GraphNode { previous: SerializableEntityReference::blank(), next: SerializableEntityReference::blank() },
        ),
        None
    );
    database.hide_from_inspector(a);
    assert_eq!(database.names().get(&a), None);
    assert_eq!(database.grid_objects().get(&a), None);
    assert_eq!(database.follows().get(&a), None);
    assert_eq!(database.graph_nodes().get(&a), None);
    assert!(!database.is_hidden_from_inspector(a));
    assert_eq!(database.clone_entity(a), None);
    assert!(database.entities().is_empty());
}

#[test]
fn clone_copies_every_component_but_the_marker() {
    let mut database = ComponentDatabase::new();
    let target = database.create_entity();
    let a = database.create_entity();
    database.insert_name(a, name("a"));
    database.insert_grid_object(a, grid(3, 4));
    database.insert_follow(a, follow(target));
    assert_eq!(database.insert_serialization_marker(a, PersistentId::from_value(77)), Ok(None));

    let copy = database.clone_entity(a).unwrap();

    assert_ne!(copy, a);
    assert!(database.entity_exists(copy));
    assert_eq!(database.names().get(&copy), Some(&name("a")));
    assert_eq!(database.grid_objects().get(&copy), Some(&grid(3, 4)));
    assert_eq!(database.follows().get(&copy), Some(&follow(target)));
    assert_eq!(database.graph_nodes().get(&copy), None);
    assert_eq!(database.serialization_markers().get(&copy), None);
    assert_eq!(
        database.serialization_markers().get(&a),
        Some(&SerializationMarker::with_id(PersistentId::from_value(77)))
    );
    assert_eq!(database.names().get(&a), Some(&name("a")));
}

#[test]
fn a_clone_that_is_marked_later_is_a_persistent_identity_of_its_own() {
    let mut database = ComponentDatabase::new();
    let a = database.create_entity();
    database.insert_name(a, name("a"));
    assert_eq!(database.insert_serialization_marker(a, PersistentId::from_value(77)), Ok(None));
    let copy = database.clone_entity(a).unwrap();

    assert_eq!(
        database.insert_serialization_marker(copy, PersistentId::from_value(77)),
        Err(MarkerError::DuplicatePersistentId)
    );
    assert_eq!(database.serialization_markers().get(&copy), None);
    assert_eq!(database.insert_serialization_marker(copy, PersistentId::from_value(78)), Ok(None));
    let of_a = database.serialization_markers().get(&a).map(|m| m.id);
    let of_copy = database.serialization_markers().get(&copy).map(|m| m.id);
    assert_eq!(of_a, Some(PersistentId::from_value(77)));
    assert_eq!(of_copy, Some(PersistentId::from_value(78)));
}

#[test]
fn marker_errors() {
    let mut database = ComponentDatabase::new();
    let a = database.create_entity();
    let b = database.create_entity();
    let gone = database.create_entity();
    assert_eq!(database.destroy_entity(gone), Ok(()));
    let id = PersistentId::from_value(5);

    assert_eq!(database.insert_serialization_marker(gone, id), Err(MarkerError::StaleHandle));
    assert_eq!(database.insert_serialization_marker(a, id), Ok(None));
    assert_eq!(database.insert_serialization_marker(b, id), Err(MarkerError::DuplicatePersistentId));
    assert_eq!(database.serialization_markers().get(&b), None);
    assert_eq!(database.insert_serialization_marker(a, id), Ok(Some(SerializationMarker::with_id(id))));
    assert_eq!(
        database.insert_serialization_marker(a, PersistentId::from_value(6)),
        Ok(Some(SerializationMarker::with_id(id)))
    );
    assert_eq!(database.insert_serialization_marker(b, id), Ok(None));
    assert_eq!(database.remove_serialization_marker(b), Some(SerializationMarker::with_id(id)));
    assert_eq!(database.remove_serialization_marker(b), None);
    assert_eq!(database.mark_for_serialization(gone), Err(MarkerError::StaleHandle));
}

#[test]
fn fresh_markers_are_random_uuids() {
    let mut database = ComponentDatabase::new();
    let a = database.create_entity();
    let b = database.create_entity();
    let id_a = database.mark_for_serialization(a).unwrap();
    let id_b = database.mark_for_serialization(b).unwrap();
    assert_ne!(id_a, id_b);
    assert_eq!(database.serialization_markers().get(&a), Some(&SerializationMarker::with_id(id_a)));
    assert_eq!(database.serialization_markers().get(&b), Some(&SerializationMarker::with_id(id_b)));
    for id in [id_a, id_b, PersistentId::generate(), SerializationMarker::new().id] {
        assert_eq!(id.value() & VERSION_AND_VARIANT_MASK, RANDOM_VERSION_AND_VARIANT);
        let as_uuid = uuid::Uuid::from_u128(id.value());
        assert_eq!(as_uuid.get_version_num(), 4);
        assert_eq!(as_uuid.as_u128(), id.value());
    }
}

#[test]
fn hiding_and_showing() {
    let mut database = ComponentDatabase::new();
    let a = database.create_entity();
    let b = database.create_entity();
    database.hide_from_inspector(a);
    assert!(database.is_hidden_from_inspector(a));
    assert!(!database.is_hidden_from_inspector(b));
    database.hide_from_inspector(a);
    assert!(database.is_hidden_from_inspector(a));
    database.show_in_inspector(a);
    assert!(!database.is_hidden_from_inspector(a));
    database.show_in_inspector(a);
    database.show_in_inspector(Entity::new(50, 1));
    assert!(!database.is_hidden_from_inspector(a));
}

#[test]
fn entities_lists_the_live_ones_in_slot_order() {
    let mut database = ComponentDatabase::new();
    let a = database.create_entity();
    let b = database.create_entity();
    let c = database.create_entity();
    assert_eq!(database.destroy_entity(b), Ok(()));
    assert_eq!(database.entities(), vec![a, c]);
    assert_eq!(database.live_at(0), Some(a));
    assert_eq!(database.live_at(1), None);
    assert_eq!(database.live_at(2), Some(c));
    assert_eq!(database.live_at(3), None);
    let d = database.create_entity();
    assert_eq!(d.index, 1);
    assert_eq!(database.entities(), vec![a, d, c]);
}

#[test]
fn a_clone_of_a_hidden_entity_is_shown() {
    let mut database = ComponentDatabase::new();
    let a = database.create_entity();
    database.hide_from_inspector(a);
    let copy = database.clone_entity(a).unwrap();
    assert!(database.is_hidden_from_inspector(a));
    assert!(!database.is_hidden_from_inspector(copy));
}

#[test]
fn a_hidden_flag_does_not_pass_to_the_next_entity_in_the_slot() {
    let mut database = ComponentDatabase::new();
    let a = database.create_entity();
    database.hide_from_inspector(a);
    assert_eq!(database.destroy_entity(a), Ok(()));
    let next = database.create_entity();
    assert_eq!(next.index, a.index);
    assert!(!database.is_hidden_from_inspector(next));
    database.hide_from_inspector(next);
    assert!(database.is_hidden_from_inspector(next));
    assert!(!database.is_hidden_from_inspector(a));
}
