use component_db::components::{EntityRecord, Follow, FollowRecord, GraphNode, GraphNodeRecord, GridObject, Name};
use component_db::database::ComponentDatabase;
use component_db::entity::Entity;
use component_db::persistent_id::PersistentId;
use component_db::serializable_entity_reference::SerializableEntityReference;
use component_db::serialization::{Diagnostic, LoadError};
use component_db::vec2int::Vec2Int;

fn id(value: u128) -> PersistentId {
    PersistentId::from_value(value)
}

fn name(text: &str) -> Name {
    Name::new(text.to_string())
}

fn bare_record(value: u128) -> EntityRecord {
    EntityRecord { persistent_id: id(value), name: None, grid_object: None, follow: None, graph_node: None }
}

fn follow_record(target: Option<u128>) -> FollowRecord {
    FollowRecord { target: target.map(id), offset: Vec2Int::new(2, 3) }
}

fn follow(target: Entity) -> Follow {
    Follow { target: SerializableEntityReference::new(target), offset: Vec2Int::new(2, 3) }
}

fn resolved(target: Entity, value: u128) -> SerializableEntityReference {
    SerializableEntityReference { target: Some(target), target_serialized_id: Some(id(value)) }
}

/// Three marked entities: `a` follows `c` (a forward reference), `b` and `c`
/// point at each other, `c` sits on the grid.
fn scene() -> (ComponentDatabase, Entity, Entity, Entity) {
    let mut database = ComponentDatabase::new();
    let a = database.create_entity();
    let b = database.create_entity();
    let c = database.create_entity();
    database.insert_name(a, name("a"));
    database.insert_name(b, name("b"));
    database.insert_follow(a, follow(c));
    database.insert_graph_node(
        b,
        GraphNode { previous: SerializableEntityReference::blank(), next: SerializableEntityReference::new(c) },
    );
    database.insert_graph_node(
        c,
        GraphNode { previous: SerializableEntityReference::new(b), next: SerializableEntityReference::blank() },
    );
    database.insert_grid_object(c, GridObject { position: Vec2Int::new(7, 8) });
    assert_eq!(database.insert_serialization_marker(a, id(10)), Ok(None));
    assert_eq!(database.insert_serialization_marker(b, id(20)), Ok(None));
    assert_eq!(database.insert_serialization_marker(c, id(30)), Ok(None));
    (database, a, b, c)
}

fn scene_records() -> Vec<EntityRecord> {
    vec![
        EntityRecord { name: Some(name("a")), follow: Some(follow_record(Some(30))), ..bare_record(10) },
        EntityRecord {
            name: Some(name("b")),
            graph_node: Some(GraphNodeRecord { previous: None, next: Some(id(30)) }),
            ..bare_record(20)
        },
        EntityRecord {
            grid_object: Some(GridObject { position: Vec2Int::new(7, 8) }),
            graph_node: Some(GraphNodeRecord { previous: Some(id(20)), next: None }),
            ..bare_record(30)
        },
    ]
}

#[test]
fn save_writes_one_record_per_marked_entity_in_slot_order() {
    let (mut database, a, b, c) = scene();
    let output = database.save();
    assert_eq!(output.records, scene_records());
    assert!(output.diagnostics.is_empty());
    assert_eq!(database.follows().get(&a).map(|f| f.target), Some(resolved(c, 30)));
    assert_eq!(database.graph_nodes().get(&b).map(|n| n.next), Some(resolved(c, 30)));
    assert_eq!(database.graph_nodes().get(&c).map(|n| n.previous), Some(resolved(b, 20)));
}

#[test]
fn save_of_an_empty_database_writes_nothing() {
    let mut database = ComponentDatabase::new();
    let output = database.save();
    assert!(output.records.is_empty());
    assert!(output.diagnostics.is_empty());
}

#[test]
fn save_leaves_unmarked_entities_out() {
    let mut database = ComponentDatabase::new();
    let unmarked = database.create_entity();
    let marked = database.create_entity();
    database.insert_name(unmarked, name("transient"));
    database.insert_name(marked, name("kept"));
    assert_eq!(database.insert_serialization_marker(marked, id(1)), Ok(None));
    let output = database.save();
    assert_eq!(output.records, vec![EntityRecord { name: Some(name("kept")), ..bare_record(1) }]);
    assert!(output.diagnostics.is_empty());
}

#[test]
fn save_empties_and_reports_a_reference_to_an_unmarked_entity() {
    let mut database = ComponentDatabase::new();
    let a = database.create_entity();
    let b = database.create_entity();
    database.insert_follow(a, follow(b));
    database.insert_name(b, name("b"));
    assert_eq!(database.insert_serialization_marker(a, id(1)), Ok(None));

    let output = database.save();

    assert_eq!(output.records, vec![EntityRecord { follow: Some(follow_record(None)), ..bare_record(1) }]);
    assert_eq!(output.diagnostics, vec![Diagnostic::DanglingReferenceOnSave { holder: a, target: b }]);
    assert_eq!(database.follows().get(&a).map(|f| f.target), Some(SerializableEntityReference::blank()));
    assert!(database.entity_exists(b));
}

#[test]
fn save_reports_each_dangling_reference_in_order() {
    let mut database = ComponentDatabase::new();
    let a = database.create_entity();
    let b = database.create_entity();
    let loose = database.create_entity();
    let gone = database.create_entity();
    assert_eq!(database.destroy_entity(gone), Ok(()));
    database.insert_graph_node(
        a,
        GraphNode { previous: SerializableEntityReference::new(loose), next: SerializableEntityReference::new(gone) },
    );
    database.insert_follow(a, follow(b));
    database.insert_follow(b, follow(loose));
    database.insert_follow(loose, follow(gone));
    assert_eq!(database.insert_serialization_marker(a, id(1)), Ok(None));
    assert_eq!(database.insert_serialization_marker(b, id(2)), Ok(None));

    let output = database.save();

    assert_eq!(
        output.diagnostics,
        vec![
            Diagnostic::DanglingReferenceOnSave { holder: a, target: loose },
            Diagnostic::DanglingReferenceOnSave { holder: a, target: gone },
            Diagnostic::DanglingReferenceOnSave { holder: b, target: loose },
        ]
    );
    assert_eq!(
        output.records,
        vec![
            EntityRecord {
                follow: Some(follow_record(Some(2))),
                graph_node: Some(GraphNodeRecord { previous: None, next: None }),
                ..bare_record(1)
            },
            EntityRecord { follow: Some(follow_record(None)), ..bare_record(2) },
        ]
    );
    assert_eq!(database.follows().get(&loose), Some(&follow(gone)));
}

#[test]
fn load_creates_the_entities_and_resolves_forward_references() {
    let output = ComponentDatabase::load(&scene_records()).unwrap();
    let database = output.database;
    assert!(output.diagnostics.is_empty());
    let a = Entity::new(0, 1);
    let b = Entity::new(1, 1);
    let c = Entity::new(2, 1);
    assert_eq!(database.entities(), vec![a, b, c]);
    assert_eq!(database.names().get(&a), Some(&name("a")));
    assert_eq!(database.names().get(&b), Some(&name("b")));
    assert_eq!(database.names().get(&c), None);
    assert_eq!(database.grid_objects().get(&c), Some(&GridObject { position: Vec2Int::new(7, 8) }));
    assert_eq!(
        database.follows().get(&a),
        Some(&Follow { target: resolved(c, 30), offset: Vec2Int::new(2, 3) })
    );
    assert_eq!(
        database.graph_nodes().get(&b),
        Some(&GraphNode { previous: SerializableEntityReference::blank(), next: resolved(c, 30) })
    );
    assert_eq!(
        database.graph_nodes().get(&c),
        Some(&GraphNode { previous: resolved(b, 20), next: SerializableEntityReference::blank() })
    );
    assert_eq!(database.serialization_markers().get(&a).map(|m| m.id), Some(id(10)));
    assert_eq!(database.serialization_markers().get(&b).map(|m| m.id), Some(id(20)));
    assert_eq!(database.serialization_markers().get(&c).map(|m| m.id), Some(id(30)));
}

#[test]
fn load_of_no_records_gives_an_empty_database() {
    let output = ComponentDatabase::load(&Vec::new()).unwrap();
    assert!(output.database.entities().is_empty());
    assert!(output.diagnostics.is_empty());
}

#[test]
fn load_empties_and_reports_a_reference_to_a_missing_record() {
    let mut records = scene_records();
    records.remove(2);

    let output = ComponentDatabase::load(&records).unwrap();

    let a = Entity::new(0, 1);
    let b = Entity::new(1, 1);
    assert_eq!(
        output.diagnostics,
        vec![
            Diagnostic::UnresolvedReferenceOnLoad { holder: a, id: id(30) },
            Diagnostic::UnresolvedReferenceOnLoad { holder: b, id: id(30) },
        ]
    );
    let database = output.database;
    assert_eq!(database.entities(), vec![a, b]);
    assert_eq!(database.follows().get(&a).map(|f| f.target), Some(SerializableEntityReference::blank()));
    assert_eq!(database.graph_nodes().get(&b).map(|n| n.next), Some(SerializableEntityReference::blank()));
}

#[test]
fn load_with_one_missing_target_reports_one_diagnostic() {
    let records = vec![
        EntityRecord { follow: Some(follow_record(Some(2))), ..bare_record(1) },
        EntityRecord { name: Some(name("x")), ..bare_record(2) },
    ];
    let whole = ComponentDatabase::load(&records).unwrap();
    assert!(whole.diagnostics.is_empty());
    assert_eq!(whole.database.follows().get(&Entity::new(0, 1)).map(|f| f.target.target), Some(Some(Entity::new(1, 1))));

    let edited = vec![records[0].clone()];
    let output = ComponentDatabase::load(&edited).unwrap();
    let a = Entity::new(0, 1);
    assert_eq!(output.diagnostics, vec![Diagnostic::UnresolvedReferenceOnLoad { holder: a, id: id(2) }]);
    assert_eq!(
        output.database.follows().get(&a),
        Some(&Follow { target: SerializableEntityReference::blank(), offset: Vec2Int::new(2, 3) })
    );
    assert_eq!(output.database.serialization_markers().get(&a).map(|m| m.id), Some(id(1)));
}

#[test]
fn load_refuses_duplicate_ids() {
    let records = vec![bare_record(1), bare_record(2), bare_record(1), bare_record(2)];
    let outcome = ComponentDatabase::load(&records);
    assert_eq!(outcome.err(), Some(LoadError::DuplicatePersistentId { id: id(1) }));
    let outcome = ComponentDatabase::instantiate(&records);
    assert_eq!(outcome.err(), Some(LoadError::DuplicatePersistentId { id: id(1) }));
}

#[test]
fn a_refused_reload_leaves_the_database_untouched() {
    let (mut database, a, b, c) = scene();
    let records = vec![bare_record(5), bare_record(5)];
    assert_eq!(database.reload(&records), Err(LoadError::DuplicatePersistentId { id: id(5) }));
    assert_eq!(database.entities(), vec![a, b, c]);
    assert_eq!(database.names().get(&a), Some(&name("a")));
    assert_eq!(database.follows().get(&a), Some(&follow(c)));
    assert_eq!(database.serialization_markers().get(&c).map(|m| m.id), Some(id(30)));
}

#[test]
fn reload_replaces_the_database() {
    let (mut database, _, _, _) = scene();
    let records = vec![EntityRecord { name: Some(name("only")), ..bare_record(5) }];
    assert_eq!(database.reload(&records), Ok(Vec::new()));
    let only = Entity::new(0, 1);
    assert_eq!(database.entities(), vec![only]);
    assert_eq!(database.names().get(&only), Some(&name("only")));
    assert_eq!(database.serialization_markers().get(&only).map(|m| m.id), Some(id(5)));
    assert_eq!(database.follows().get(&only), None);
}

#[test]
fn round_trip_keeps_ids_components_and_reference_targets() {
    let mut database = ComponentDatabase::new();
    let filler = database.create_entity();
    let a = database.create_entity();
    let b = database.create_entity();
    assert_eq!(database.destroy_entity(filler), Ok(()));
    database.insert_name(a, name("a"));
    database.insert_follow(a, follow(b));
    database.insert_grid_object(b, GridObject { position: Vec2Int::new(-1, 4) });
    database.insert_follow(b, follow(a));
    assert_eq!(database.insert_serialization_marker(a, id(111)), Ok(None));
    assert_eq!(database.insert_serialization_marker(b, id(222)), Ok(None));

    let saved = database.save();
    assert!(saved.diagnostics.is_empty());
    let output = ComponentDatabase::load(&saved.records).unwrap();
    assert!(output.diagnostics.is_empty());
    let mut loaded = output.database;

    let new_a = Entity::new(0, 1);
    let new_b = Entity::new(1, 1);
    assert_ne!(new_a, a);
    assert_eq!(loaded.entities(), vec![new_a, new_b]);
    assert_eq!(loaded.serialization_markers().get(&new_a).map(|m| m.id), Some(id(111)));
    assert_eq!(loaded.serialization_markers().get(&new_b).map(|m| m.id), Some(id(222)));
    assert_eq!(loaded.names().get(&new_a), Some(&name("a")));
    assert_eq!(loaded.names().get(&new_b), None);
    assert_eq!(loaded.grid_objects().get(&new_b), Some(&GridObject { position: Vec2Int::new(-1, 4) }));
    assert_eq!(loaded.follows().get(&new_a).map(|f| f.target), Some(resolved(new_b, 222)));
    assert_eq!(loaded.follows().get(&new_b).map(|f| f.target), Some(resolved(new_a, 111)));
    assert_eq!(loaded.follows().get(&new_a).map(|f| f.offset), Some(Vec2Int::new(2, 3)));

    let again = loaded.save();
    assert_eq!(again.records, saved.records);
    assert!(again.diagnostics.is_empty());
}

#[test]
fn repeated_cycles_do_not_drift() {
    let mut records = scene_records();
    records.push(EntityRecord { follow: Some(follow_record(Some(99))), ..bare_record(40) });

    let first = ComponentDatabase::load(&records).unwrap();
    assert_eq!(first.diagnostics.len(), 1);
    let mut first = first.database;
    let saved = first.save();
    assert!(saved.diagnostics.is_empty());
    let second = ComponentDatabase::load(&saved.records).unwrap();
    assert!(second.diagnostics.is_empty());
    let mut second = second.database;

    assert_eq!(first.entities(), second.entities());
    for e in first.entities() {
        assert_eq!(first.names().get(&e), second.names().get(&e));
        assert_eq!(first.grid_objects().get(&e), second.grid_objects().get(&e));
        assert_eq!(first.follows().get(&e), second.follows().get(&e));
        assert_eq!(first.graph_nodes().get(&e), second.graph_nodes().get(&e));
        assert_eq!(first.serialization_markers().get(&e), second.serialization_markers().get(&e));
    }
    let saved_again = second.save();
    assert_eq!(saved_again.records, saved.records);
    let mut expected = scene_records();
    expected.push(EntityRecord { follow: Some(follow_record(None)), ..bare_record(40) });
    assert_eq!(saved.records, expected);
}

#[test]
fn a_reference_to_itself_survives_the_round_trip() {
    let mut database = ComponentDatabase::new();
    let a = database.create_entity();
    database.insert_follow(a, follow(a));
    assert_eq!(database.insert_serialization_marker(a, id(1)), Ok(None));
    let saved = database.save();
    assert_eq!(saved.records, vec![EntityRecord { follow: Some(follow_record(Some(1))), ..bare_record(1) }]);
    let loaded = ComponentDatabase::load(&saved.records).unwrap().database;
    let new_a = Entity::new(0, 1);
    assert_eq!(loaded.follows().get(&new_a).map(|f| f.target), Some(resolved(new_a, 1)));
}

#[test]
fn the_two_phases_can_be_run_one_by_one() {
    let (mut database, a, _, c) = scene();
    let diagnostics = database.externalize_references();
    assert!(diagnostics.is_empty());
    assert_eq!(database.follows().get(&a).map(|f| f.target), Some(resolved(c, 30)));

    let mut fresh = ComponentDatabase::instantiate(&scene_records()).unwrap();
    let new_a = Entity::new(0, 1);
    assert_eq!(
        fresh.follows().get(&new_a).map(|f| f.target),
        Some(SerializableEntityReference::from_serialized_id(Some(id(30))))
    );
    let diagnostics = fresh.internalize_references();
    assert!(diagnostics.is_empty());
    assert_eq!(fresh.follows().get(&new_a).map(|f| f.target), Some(resolved(Entity::new(2, 1), 30)));
}

#[test]
fn records_convert_to_components_and_back() {
    let record = follow_record(Some(3));
    let component = Follow::from_record(&record);
    assert_eq!(component.target, SerializableEntityReference::from_serialized_id(Some(id(3))));
    assert_eq!(component.offset, Vec2Int::new(2, 3));
    assert_eq!(component.to_record(), record);

    let record = GraphNodeRecord { previous: Some(id(1)), next: None };
    let component = GraphNode::from_record(&record);
    assert_eq!(component.previous, SerializableEntityReference::from_serialized_id(Some(id(1))));
    assert_eq!(component.next, SerializableEntityReference::blank());
    assert_eq!(component.to_record(), record);
}

#[test]
fn save_empties_and_reports_dangling_graph_node_references() {
    let mut database = ComponentDatabase::new();
    let a = database.create_entity();
    let b = database.create_entity();
    let c = database.create_entity();
    database.insert_graph_node(
        a,
        GraphNode { previous: SerializableEntityReference::new(b), next: SerializableEntityReference::new(c) },
    );
    assert_eq!(database.insert_serialization_marker(a, id(1)), Ok(None));
    assert_eq!(database.insert_serialization_marker(c, id(3)), Ok(None));

    let output = database.save();

    assert_eq!(output.diagnostics, vec![Diagnostic::DanglingReferenceOnSave { holder: a, target: b }]);
    assert_eq!(
        output.records,
        vec![
            EntityRecord {
                graph_node: Some(GraphNodeRecord { previous: None, next: Some(id(3)) }),
                ..bare_record(1)
            },
            bare_record(3),
        ]
    );
    assert_eq!(
        database.graph_nodes().get(&a),
        Some(&GraphNode { previous: SerializableEntityReference::blank(), next: resolved(c, 3) })
    );
}

#[test]
fn load_empties_and_reports_unresolved_graph_node_references() {
    let records = vec![
        EntityRecord {
            graph_node: Some(GraphNodeRecord { previous: Some(id(8)), next: Some(id(2)) }),
            ..bare_record(1)
        },
        EntityRecord {
            graph_node: Some(GraphNodeRecord { previous: Some(id(1)), next: Some(id(9)) }),
            ..bare_record(2)
        },
    ];
    let output = ComponentDatabase::load(&records).unwrap();
    let a = Entity::new(0, 1);
    let b = Entity::new(1, 1);
    assert_eq!(
        output.diagnostics,
        vec![
            Diagnostic::UnresolvedReferenceOnLoad { holder: a, id: id(8) },
            Diagnostic::UnresolvedReferenceOnLoad { holder: b, id: id(9) },
        ]
    );
    assert_eq!(
        output.database.graph_nodes().get(&a),
        Some(&GraphNode { previous: SerializableEntityReference::blank(), next: resolved(b, 2) })
    );
    assert_eq!(
        output.database.graph_nodes().get(&b),
        Some(&GraphNode { previous: resolved(a, 1), next: SerializableEntityReference::blank() })
    );
}
