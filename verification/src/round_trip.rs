//! What saving and loading preserve.
//!
//! Handles do not survive a save and a load, persistent identifiers do. So
//! the laws speak of a database through its records: the record of an
//! entity holds its components with every reference named by the persistent
//! identifier of its target.

use vstd::prelude::*;
use crate::components::{EntityRecord, FollowRecord, GraphNodeRecord};
use crate::database::DatabaseState;
use crate::entity::{Entity, MAX_SLOTS};
use crate::persistent_id::{
    entity_with_id, id_in_use, lemma_entity_with_id, lemma_unique_id_names_its_entity, PersistentId,
};
use crate::serializable_entity_reference::{persistent_id_of, SerializableEntityReference};
use crate::serialization::{
    dangling_report, follow_load_reports, follow_save_reports, has_duplicate_ids, instantiated,
    lemma_instantiated_wf, loaded, loaded_entity, occurs_before, unresolved_report, Diagnostic,
};

verus! {

/// Some record carries `id`.
pub open spec fn is_present(records: Seq<EntityRecord>, id: PersistentId) -> bool {
    exists|k: int| 0 <= k < records.len() && (#[trigger] records[k]).persistent_id == id
}

/// A saved reference as it is after loading `records`: kept where a record
/// carries its identifier, empty otherwise.
pub open spec fn resolved_id(records: Seq<EntityRecord>, id: Option<PersistentId>) -> Option<PersistentId> {
    if id is Some && is_present(records, id.unwrap()) {
        id
    } else {
        None
    }
}

/// `record` with each of its references resolved among `records`.
pub open spec fn resolved_record(records: Seq<EntityRecord>, record: EntityRecord) -> EntityRecord {
    EntityRecord {
        follow: match record.follow {
            Some(follow) => Some(FollowRecord { target: resolved_id(records, follow.target), ..follow }),
            None => None,
        },
        graph_node: match record.graph_node {
            Some(node) => Some(
                GraphNodeRecord {
                    previous: resolved_id(records, node.previous),
                    next: resolved_id(records, node.next),
                },
            ),
            None => None,
        },
        ..record
    }
}

/// The records with every reference resolved among them.
pub open spec fn resolved(records: Seq<EntityRecord>) -> Seq<EntityRecord> {
    Seq::new(records.len(), |k: int| resolved_record(records, records[k]))
}

/// Every reference in the records names a record among them.
pub open spec fn references_closed(records: Seq<EntityRecord>) -> bool {
    forall|k: int| 0 <= k < records.len() ==> resolved_record(records, #[trigger] records[k]) == records[k]
}

impl DatabaseState {
    /// What the database holds under the persistent identifier `id`: the
    /// record of the entity that carries it, or nothing.
    pub open spec fn persistent_entry(self, id: PersistentId) -> Option<EntityRecord> {
        match entity_with_id(self.markers, id) {
            Some(e) => Some(self.record_of(e)),
            None => None,
        }
    }

    /// Every live entity carries a marker.
    pub open spec fn fully_marked(self) -> bool {
        forall|e: Entity| #[trigger] self.entities.is_live(e) ==> self.markers.contains_key(e)
    }

    /// Every reference is empty or points at an entity with a marker.
    pub open spec fn references_target_marked(self) -> bool {
        &&& forall|e: Entity| #[trigger]
            self.follows.contains_key(e) ==> self.follows[e].target.dangling_target(self.markers) is None
        &&& forall|e: Entity| #[trigger]
            self.graph_nodes.contains_key(e) ==> self.graph_nodes[e].previous.dangling_target(self.markers)
                is None && self.graph_nodes[e].next.dangling_target(self.markers) is None
    }

    /// The records of the slots below `bound` are those of the marked
    /// entities there, each once.
    pub proof fn lemma_records_below(self, bound: nat)
        requires
            self.wf(),
        ensures
            self.records_below(bound).len() <= bound,
            forall|k: int|
                0 <= k < self.records_below(bound).len() ==> {
                    let e = entity_with_id(self.markers, (#[trigger] self.records_below(bound)[k]).persistent_id);
                    &&& e is Some
                    &&& self.markers.contains_key(e.unwrap())
                    &&& e.unwrap().index < bound
                    &&& self.records_below(bound)[k] == self.record_of(e.unwrap())
                },
            forall|e: Entity| #[trigger]
                self.markers.contains_key(e) && e.index < bound ==> is_present(
                    self.records_below(bound),
                    self.markers[e].id,
                ),
            !has_duplicate_ids(self.records_below(bound)),
        decreases bound,
    {
        let records = self.records_below(bound);
        if bound > 0 {
            let before = self.records_below((bound - 1) as nat);
            self.lemma_records_below((bound - 1) as nat);
            match self.saved_at(bound - 1) {
                Some(e) => {
                    lemma_unique_id_names_its_entity(self.markers, e);
                    let last = before.len() as int;
                    assert(records[last] == self.record_of(e));
                    assert forall|k: int| 0 <= k < records.len() implies {
                        let o = entity_with_id(self.markers, (#[trigger] records[k]).persistent_id);
                        &&& o is Some
                        &&& self.markers.contains_key(o.unwrap())
                        &&& o.unwrap().index < bound
                        &&& records[k] == self.record_of(o.unwrap())
                    } by {
                        if k < last {
                            assert(records[k] == before[k]);
                        }
                    }
                    assert forall|o: Entity| #[trigger]
                        self.markers.contains_key(o) && o.index < bound implies is_present(
                        records,
                        self.markers[o].id,
                    ) by {
                        if o.index < bound - 1 {
                            let k = choose|k: int|
                                0 <= k < before.len() && (#[trigger] before[k]).persistent_id
                                    == self.markers[o].id;
                            assert(records[k] == before[k]);
                        } else {
                            assert(self.entities.is_live(o));
                            assert(o == e);
                            assert(records[last].persistent_id == self.markers[o].id);
                        }
                    }
                    if has_duplicate_ids(records) {
                        let j = choose|j: int| 0 <= j < records.len() && #[trigger] occurs_before(records, j);
                        let i = choose|i: int|
                            0 <= i < j && (#[trigger] records[i]).persistent_id == records[j].persistent_id;
                        assert(records[i] == before[i]);
                        if j < last {
                            assert(records[j] == before[j]);
                            assert(occurs_before(before, j));
                        }
                    }
                },
                None => {
                    assert forall|o: Entity| #[trigger]
                        self.markers.contains_key(o) && o.index < bound implies is_present(
                        records,
                        self.markers[o].id,
                    ) by {
                        if o.index == bound - 1 {
                            assert(self.entities.is_live(o));
                        }
                    }
                },
            }
        }
    }

    /// The records that saving writes hold no identifier twice, and every
    /// reference in them names one of them.
    pub proof fn lemma_saved_records(self)
        requires
            self.wf(),
        ensures
            self.saved_records().len() <= MAX_SLOTS,
            !has_duplicate_ids(self.saved_records()),
            references_closed(self.saved_records()),
            forall|id: PersistentId| #[trigger]
                is_present(self.saved_records(), id) <==> id_in_use(self.markers, id),
            forall|k: int|
                0 <= k < self.saved_records().len() ==> self.persistent_entry(
                    (#[trigger] self.saved_records()[k]).persistent_id,
                ) == Some(self.saved_records()[k]),
    {
        let count = self.entities.generations.len();
        let records = self.saved_records();
        self.lemma_records_below(count);
        assert forall|id: PersistentId| #[trigger] is_present(records, id) <==> id_in_use(self.markers, id) by {
            lemma_entity_with_id(self.markers, id);
            if id_in_use(self.markers, id) {
                let e = entity_with_id(self.markers, id).unwrap();
                assert(self.entities.is_live(e));
            }
            if is_present(records, id) {
                let k = choose|k: int| 0 <= k < records.len() && (#[trigger] records[k]).persistent_id == id;
                assert(entity_with_id(self.markers, id) is Some);
            }
        }
        assert forall|k: int| 0 <= k < records.len() implies resolved_record(records, #[trigger] records[k])
            == records[k] by {
            let e = entity_with_id(self.markers, records[k].persistent_id).unwrap();
            assert(records[k] == self.record_of(e));
            if self.follows.contains_key(e) {
                self.lemma_saved_reference_is_present(self.follows[e].target);
            }
            if self.graph_nodes.contains_key(e) {
                self.lemma_saved_reference_is_present(self.graph_nodes[e].previous);
                self.lemma_saved_reference_is_present(self.graph_nodes[e].next);
            }
        }
    }

    /// A reference as saving writes it names a record that saving writes.
    proof fn lemma_saved_reference_is_present(self, reference: SerializableEntityReference)
        requires
            self.wf(),
            forall|e: Entity| #[trigger]
                self.markers.contains_key(e) ==> is_present(self.saved_records(), self.markers[e].id),
        ensures
            resolved_id(self.saved_records(), reference.externalized(self.markers).target_serialized_id)
                == reference.externalized(self.markers).target_serialized_id,
    {
        if persistent_id_of(self.markers, reference.target) is Some {
            assert(self.markers.contains_key(reference.target.unwrap()));
        }
    }
}

/// After loading, an identifier names the entity of the record that
/// carries it, and names nothing where no record does.
pub proof fn lemma_loaded_markers(records: Seq<EntityRecord>, id: PersistentId)
    requires
        records.len() <= MAX_SLOTS,
        !has_duplicate_ids(records),
    ensures
        is_present(records, id) <==> entity_with_id(instantiated(records).markers, id) is Some,
        forall|k: int|
            0 <= k < records.len() && (#[trigger] records[k]).persistent_id == id ==> entity_with_id(
                instantiated(records).markers,
                id,
            ) == Some(loaded_entity(k)),
{
    let markers = instantiated(records).markers;
    lemma_instantiated_wf(records);
    lemma_entity_with_id(markers, id);
    assert forall|k: int|
        0 <= k < records.len() && (#[trigger] records[k]).persistent_id == id implies entity_with_id(
        markers,
        id,
    ) == Some(loaded_entity(k)) by {
        assert(markers.contains_key(loaded_entity(k)));
        lemma_unique_id_names_its_entity(markers, loaded_entity(k));
    }
    if entity_with_id(markers, id) is Some {
        let e = entity_with_id(markers, id).unwrap();
        assert(records[e.index as int].persistent_id == id);
    }
}

/// A reference read from `records`, resolved and made ready for saving
/// again, carries its identifier exactly where a record carries it.
pub proof fn lemma_reference_round_trip(records: Seq<EntityRecord>, id: Option<PersistentId>)
    requires
        records.len() <= MAX_SLOTS,
        !has_duplicate_ids(records),
    ensures
        ({
            let markers = instantiated(records).markers;
            let read = SerializableEntityReference { target: None, target_serialized_id: id };
            &&& read.internalized(markers).externalized(markers) == read.internalized(markers)
            &&& read.internalized(markers).target_serialized_id == resolved_id(records, id)
            &&& read.internalized(markers).target is Some <==> resolved_id(records, id) is Some
            &&& read.unresolved_id(markers) == (if resolved_id(records, id) is None {
                id
            } else {
                None
            })
        }),
{
    if id is Some {
        let markers = instantiated(records).markers;
        lemma_loaded_markers(records, id.unwrap());
        lemma_entity_with_id(markers, id.unwrap());
    }
}

/// The entity that loading creates for the record at `position` is live
/// and marked, saving writes the record back with its references resolved
/// among the records, and saving has nothing to report on it.
pub proof fn lemma_loaded_record(records: Seq<EntityRecord>, position: int)
    requires
        records.len() <= MAX_SLOTS,
        !has_duplicate_ids(records),
        0 <= position < records.len(),
    ensures
        loaded(records).wf(),
        loaded(records).saved_at(position) == Some(loaded_entity(position)),
        loaded(records).record_of(loaded_entity(position)) == resolved_record(records, records[position]),
        loaded(records).save_reports_of(loaded_entity(position)) == Seq::<Diagnostic>::empty(),
{
    let first = instantiated(records);
    let e = loaded_entity(position);
    lemma_instantiated_wf(records);
    first.lemma_internalized_below(records.len() as int);
    let record = records[position];
    if record.follow is Some {
        lemma_reference_round_trip(records, record.follow.unwrap().target);
    }
    if record.graph_node is Some {
        lemma_reference_round_trip(records, record.graph_node.unwrap().previous);
        lemma_reference_round_trip(records, record.graph_node.unwrap().next);
    }
    assert(first.follows.contains_key(e) == record.follow is Some);
    assert(first.graph_nodes.contains_key(e) == record.graph_node is Some);
    assert(loaded(records).save_reports_of(e) =~= Seq::<Diagnostic>::empty());
}

/// Saving a database that was just loaded writes the records back with
/// their references resolved, and reports nothing.
pub proof fn lemma_loaded_records_below(records: Seq<EntityRecord>, bound: nat)
    requires
        records.len() <= MAX_SLOTS,
        !has_duplicate_ids(records),
        bound <= records.len(),
    ensures
        loaded(records).records_below(bound) == resolved(records).take(bound as int),
        loaded(records).save_reports_below(bound) == Seq::<Diagnostic>::empty(),
    decreases bound,
{
    if bound > 0 {
        lemma_loaded_records_below(records, (bound - 1) as nat);
        lemma_loaded_record(records, bound - 1);
        assert(loaded(records).records_below(bound) =~= resolved(records).take(bound as int));
        assert(loaded(records).save_reports_below(bound) =~= Seq::<Diagnostic>::empty());
    } else {
        assert(loaded(records).records_below(bound) =~= resolved(records).take(bound as int));
    }
}

/// Loading has nothing to report on records whose references all name
/// records among them.
pub proof fn lemma_closed_records_load_silently(records: Seq<EntityRecord>, bound: nat)
    requires
        records.len() <= MAX_SLOTS,
        !has_duplicate_ids(records),
        references_closed(records),
        bound <= records.len(),
    ensures
        instantiated(records).load_reports_below(bound) == Seq::<Diagnostic>::empty(),
    decreases bound,
{
    if bound > 0 {
        lemma_closed_records_load_silently(records, (bound - 1) as nat);
        let first = instantiated(records);
        let e = loaded_entity(bound - 1);
        let record = records[bound - 1];
        assert(resolved_record(records, record) == record);
        if record.follow is Some {
            lemma_reference_round_trip(records, record.follow.unwrap().target);
        }
        if record.graph_node is Some {
            lemma_reference_round_trip(records, record.graph_node.unwrap().previous);
            lemma_reference_round_trip(records, record.graph_node.unwrap().next);
        }
        assert(first.entities.live_at(bound - 1) == Some(e));
        assert(first.follows.contains_key(e) == record.follow is Some);
        assert(first.graph_nodes.contains_key(e) == record.graph_node is Some);
        assert(first.load_reports_of(e) =~= Seq::<Diagnostic>::empty());
        assert(first.load_reports_below(bound) =~= Seq::<Diagnostic>::empty());
    }
}

/// Resolving the references of records changes neither which identifiers
/// they carry nor what loading makes of them.
pub proof fn lemma_resolved_records_load_alike(records: Seq<EntityRecord>)
    requires
        records.len() <= MAX_SLOTS,
        !has_duplicate_ids(records),
    ensures
        !has_duplicate_ids(resolved(records)),
        references_closed(resolved(records)),
        loaded(resolved(records)) == loaded(records),
{
    let again = resolved(records);
    assert forall|id: PersistentId| #[trigger] is_present(again, id) == is_present(records, id) by {
        if is_present(again, id) {
            let k = choose|k: int| 0 <= k < again.len() && (#[trigger] again[k]).persistent_id == id;
            assert(records[k].persistent_id == id);
        }
        if is_present(records, id) {
            let k = choose|k: int| 0 <= k < records.len() && (#[trigger] records[k]).persistent_id == id;
            assert(again[k].persistent_id == id);
        }
    }
    if has_duplicate_ids(again) {
        let j = choose|j: int| 0 <= j < again.len() && #[trigger] occurs_before(again, j);
        let i = choose|i: int| 0 <= i < j && (#[trigger] again[i]).persistent_id == again[j].persistent_id;
        assert(records[i].persistent_id == records[j].persistent_id);
        assert(occurs_before(records, j));
    }
    assert forall|k: int| 0 <= k < again.len() implies resolved_record(again, #[trigger] again[k]) == again[k] by {
        let record = records[k];
        if record.follow is Some {
            assert(is_present(again, record.follow.unwrap().target.unwrap()) == is_present(
                records,
                record.follow.unwrap().target.unwrap(),
            ));
        }
        if record.graph_node is Some {
            assert(is_present(again, record.graph_node.unwrap().previous.unwrap()) == is_present(
                records,
                record.graph_node.unwrap().previous.unwrap(),
            ));
            assert(is_present(again, record.graph_node.unwrap().next.unwrap()) == is_present(
                records,
                record.graph_node.unwrap().next.unwrap(),
            ));
        }
    }
    let first = instantiated(records);
    let second = instantiated(again);
    assert(second.entities.generations =~= first.entities.generations);
    assert(second.markers =~= first.markers);
    assert(second.names =~= first.names);
    assert(second.grid_objects =~= first.grid_objects);
    let markers = first.markers;
    assert forall|e: Entity| #[trigger] first.follows.contains_key(e) implies second.follows.contains_key(e)
        && second.follows[e].internalized(markers) == first.follows[e].internalized(markers) by {
        lemma_reference_round_trip(records, records[e.index as int].follow.unwrap().target);
        lemma_reference_round_trip(
            records,
            resolved_id(records, records[e.index as int].follow.unwrap().target),
        );
    }
    assert forall|e: Entity| #[trigger]
        first.graph_nodes.contains_key(e) implies second.graph_nodes.contains_key(e)
        && second.graph_nodes[e].internalized(markers) == first.graph_nodes[e].internalized(markers) by {
        let node = records[e.index as int].graph_node.unwrap();
        lemma_reference_round_trip(records, node.previous);
        lemma_reference_round_trip(records, resolved_id(records, node.previous));
        lemma_reference_round_trip(records, node.next);
        lemma_reference_round_trip(records, resolved_id(records, node.next));
    }
    assert(loaded(again).follows =~= loaded(records).follows);
    assert(loaded(again).graph_nodes =~= loaded(records).graph_nodes);
}

/// Repeated cycles do not drift. Saving a database that was just loaded
/// changes nothing in it and reports nothing, it writes the records back
/// with their references resolved, and loading what it wrote yields the
/// very same database again.
pub proof fn lemma_reload_is_stable(records: Seq<EntityRecord>)
    requires
        records.len() <= MAX_SLOTS,
        !has_duplicate_ids(records),
    ensures
        loaded(records).wf(),
        loaded(records).externalized() == loaded(records),
        loaded(records).save_reports() == Seq::<Diagnostic>::empty(),
        loaded(records).saved_records() == resolved(records),
        loaded(records).saved_records().len() <= MAX_SLOTS,
        !has_duplicate_ids(loaded(records).saved_records()),
        loaded(loaded(records).saved_records()) == loaded(records),
        instantiated(loaded(records).saved_records()).load_reports() == Seq::<Diagnostic>::empty(),
{
    let database = loaded(records);
    let count = records.len();
    lemma_instantiated_wf(records);
    instantiated(records).lemma_internalized_below(count as int);
    lemma_loaded_records_below(records, count);
    assert(resolved(records).take(count as int) =~= resolved(records));
    lemma_resolved_records_load_alike(records);
    lemma_closed_records_load_silently(resolved(records), count);
    let markers = database.markers;
    assert forall|e: Entity| #[trigger] database.follows.contains_key(e) implies database.follows[e].externalized(
        markers,
    ) == database.follows[e] by {
        lemma_reference_round_trip(records, records[e.index as int].follow.unwrap().target);
    }
    assert forall|e: Entity| #[trigger]
        database.graph_nodes.contains_key(e) implies database.graph_nodes[e].externalized(markers)
        == database.graph_nodes[e] by {
        lemma_reference_round_trip(records, records[e.index as int].graph_node.unwrap().previous);
        lemma_reference_round_trip(records, records[e.index as int].graph_node.unwrap().next);
    }
    assert(database.externalized().follows =~= database.follows);
    assert(database.externalized().graph_nodes =~= database.graph_nodes);
}

/// The round trip. Loading what a database saved is accepted and reports
/// nothing, and the loaded database holds under every persistent identifier
/// what the saved one held: the same identifiers are in use, each with the
/// same components, and each reference names the same target by persistent
/// identifier. Saving the loaded database writes the same records again.
pub proof fn lemma_round_trip(database: DatabaseState)
    requires
        database.wf(),
    ensures
        database.saved_records().len() <= MAX_SLOTS,
        !has_duplicate_ids(database.saved_records()),
        loaded(database.saved_records()).wf(),
        instantiated(database.saved_records()).load_reports() == Seq::<Diagnostic>::empty(),
        forall|id: PersistentId| #[trigger]
            loaded(database.saved_records()).persistent_entry(id) == database.persistent_entry(id),
        forall|id: PersistentId| #[trigger]
            id_in_use(loaded(database.saved_records()).markers, id) == id_in_use(database.markers, id),
        loaded(database.saved_records()).saved_records() == database.saved_records(),
{
    let records = database.saved_records();
    let after = loaded(records);
    database.lemma_saved_records();
    lemma_reload_is_stable(records);
    lemma_closed_records_load_silently(records, records.len());
    assert(resolved(records) =~= records);
    assert forall|id: PersistentId| #[trigger] after.persistent_entry(id) == database.persistent_entry(id) by {
        lemma_loaded_markers(records, id);
        lemma_entity_with_id(database.markers, id);
        if is_present(records, id) {
            let k = choose|k: int| 0 <= k < records.len() && (#[trigger] records[k]).persistent_id == id;
            lemma_loaded_record(records, k);
            assert(entity_with_id(after.markers, id) == Some(loaded_entity(k)));
            assert(database.persistent_entry(records[k].persistent_id) == Some(records[k]));
        }
    }
    assert forall|id: PersistentId| #[trigger]
        id_in_use(after.markers, id) == id_in_use(database.markers, id) by {
        lemma_loaded_markers(records, id);
        lemma_entity_with_id(after.markers, id);
        assert(is_present(records, id) <==> id_in_use(database.markers, id));
    }
}

/// The round trip of a database in which every entity carries a marker
/// and every reference is empty or points at a marked entity: saving
/// reports nothing, leaves every target in place, and writes a record for
/// every entity, in which every reference that has a target names it.
/// Together with `lemma_round_trip`, nothing of such a database is lost.
pub proof fn lemma_round_trip_of_fully_marked(database: DatabaseState)
    requires
        database.wf(),
        database.fully_marked(),
        database.references_target_marked(),
    ensures
        database.save_reports() == Seq::<Diagnostic>::empty(),
        forall|e: Entity| #[trigger]
            database.entities.is_live(e) ==> is_present(database.saved_records(), database.markers[e].id)
                && database.persistent_entry(database.markers[e].id) == Some(database.record_of(e)),
        forall|e: Entity| #[trigger]
            database.follows.contains_key(e) ==> {
                let reference = database.follows[e].target;
                &&& database.externalized().follows[e].target.target == reference.target
                &&& database.record_of(e).follow.unwrap().target == persistent_id_of(
                    database.markers,
                    reference.target,
                )
                &&& reference.target is Some ==> database.record_of(e).follow.unwrap().target is Some
            },
        forall|e: Entity| #[trigger]
            database.graph_nodes.contains_key(e) ==> {
                let node = database.graph_nodes[e];
                &&& database.externalized().graph_nodes[e].previous.target == node.previous.target
                &&& database.externalized().graph_nodes[e].next.target == node.next.target
                &&& database.record_of(e).graph_node.unwrap().previous == persistent_id_of(
                    database.markers,
                    node.previous.target,
                )
                &&& database.record_of(e).graph_node.unwrap().next == persistent_id_of(
                    database.markers,
                    node.next.target,
                )
                &&& node.previous.target is Some ==> database.record_of(e).graph_node.unwrap().previous is Some
                &&& node.next.target is Some ==> database.record_of(e).graph_node.unwrap().next is Some
            },
{
    database.lemma_saved_records();
    database.lemma_marked_save_silently(database.entities.generations.len());
    assert forall|e: Entity| #[trigger] database.entities.is_live(e) implies is_present(
        database.saved_records(),
        database.markers[e].id,
    ) && database.persistent_entry(database.markers[e].id) == Some(database.record_of(e)) by {
        lemma_unique_id_names_its_entity(database.markers, e);
        assert(id_in_use(database.markers, database.markers[e].id));
    }
    assert forall|e: Entity| #[trigger] database.follows.contains_key(e) implies database.externalized().follows[e].target.target
        == database.follows[e].target.target by {
        assert(database.entities.is_live(e));
    }
    assert forall|e: Entity| #[trigger]
        database.graph_nodes.contains_key(e) implies database.externalized().graph_nodes[e].previous.target
        == database.graph_nodes[e].previous.target && database.externalized().graph_nodes[e].next.target
        == database.graph_nodes[e].next.target by {
        assert(database.entities.is_live(e));
    }
}

impl DatabaseState {
    /// Saving has nothing to report where every reference is empty or
    /// points at a marked entity.
    pub proof fn lemma_marked_save_silently(self, bound: nat)
        requires
            self.wf(),
            self.references_target_marked(),
        ensures
            self.save_reports_below(bound) == Seq::<Diagnostic>::empty(),
        decreases bound,
    {
        if bound > 0 {
            self.lemma_marked_save_silently((bound - 1) as nat);
            if self.saved_at(bound - 1) is Some {
                let e = self.saved_at(bound - 1).unwrap();
                assert(self.save_reports_of(e) =~= Seq::<Diagnostic>::empty());
            }
            assert(self.save_reports_below(bound) =~= Seq::<Diagnostic>::empty());
        }
    }
}

impl DatabaseState {
    /// Whatever saving has to report on a marked entity is among the
    /// reports of saving.
    pub proof fn lemma_save_reports_include(self, holder: Entity, report: Diagnostic, bound: nat)
        requires
            self.wf(),
            self.markers.contains_key(holder),
            self.save_reports_of(holder).contains(report),
            holder.index < bound,
        ensures
            self.save_reports_below(bound).contains(report),
        decreases bound,
    {
        let before = self.save_reports_below((bound - 1) as nat);
        let all = self.save_reports_below(bound);
        if holder.index < bound - 1 {
            self.lemma_save_reports_include(holder, report, (bound - 1) as nat);
            let k = choose|k: int| 0 <= k < before.len() && before[k] == report;
            assert(all[k] == report);
        } else {
            assert(self.entities.is_live(holder));
            assert(self.saved_at(bound - 1) == Some(holder));
            let own = self.save_reports_of(holder);
            let k = choose|k: int| 0 <= k < own.len() && own[k] == report;
            assert(all[before.len() + k] == report);
        }
    }

    /// Whatever loading has to report on a live entity is among the reports
    /// of loading.
    pub proof fn lemma_load_reports_include(self, holder: Entity, report: Diagnostic, bound: nat)
        requires
            self.entities.is_live(holder),
            self.load_reports_of(holder).contains(report),
            holder.index < bound,
        ensures
            self.load_reports_below(bound).contains(report),
        decreases bound,
    {
        let before = self.load_reports_below((bound - 1) as nat);
        let all = self.load_reports_below(bound);
        if holder.index < bound - 1 {
            self.lemma_load_reports_include(holder, report, (bound - 1) as nat);
            let k = choose|k: int| 0 <= k < before.len() && before[k] == report;
            if self.entities.live_at(bound - 1) is Some {
                assert(all[k] == report);
            }
        } else {
            assert(self.entities.live_at(bound - 1) == Some(holder));
            let own = self.load_reports_of(holder);
            let k = choose|k: int| 0 <= k < own.len() && own[k] == report;
            assert(all[before.len() + k] == report);
        }
    }

    /// The dangling policy. Where a marked entity follows an entity without
    /// a marker, saving empties the reference in the database, reports it,
    /// writes the record of the holder with an empty reference, and writes
    /// no record for the target.
    pub proof fn lemma_dangling_reference_is_dropped(self, holder: Entity, target: Entity)
        requires
            self.wf(),
            self.markers.contains_key(holder),
            self.follows.contains_key(holder),
            self.follows[holder].target.target == Some(target),
            !self.markers.contains_key(target),
        ensures
            self.externalized().follows[holder].target == SerializableEntityReference::empty(),
            self.save_reports().contains(Diagnostic::DanglingReferenceOnSave { holder, target }),
            is_present(self.saved_records(), self.markers[holder].id),
            self.persistent_entry(self.markers[holder].id) == Some(self.record_of(holder)),
            self.record_of(holder).follow == Some(
                FollowRecord { target: None, offset: self.follows[holder].offset },
            ),
            forall|k: int|
                0 <= k < self.saved_records().len() ==> entity_with_id(
                    self.markers,
                    (#[trigger] self.saved_records()[k]).persistent_id,
                ) != Some(target),
    {
        let report = Diagnostic::DanglingReferenceOnSave { holder, target };
        assert(self.entities.is_live(holder));
        assert(self.save_reports_of(holder)[0] == report);
        self.lemma_save_reports_include(holder, report, self.entities.generations.len());
        self.lemma_saved_records();
        self.lemma_records_below(self.entities.generations.len());
        lemma_unique_id_names_its_entity(self.markers, holder);
        assert(id_in_use(self.markers, self.markers[holder].id));
    }

    /// The dangling policy for the `previous` reference of a graph node:
    /// where it points at an entity without a marker and the holder is
    /// marked, saving empties it in the database, reports it, writes the
    /// record of the holder with that reference empty, and writes no record
    /// for the target.
    pub proof fn lemma_dangling_previous_is_dropped(self, holder: Entity, target: Entity)
        requires
            self.wf(),
            self.markers.contains_key(holder),
            self.graph_nodes.contains_key(holder),
            self.graph_nodes[holder].previous.target == Some(target),
            !self.markers.contains_key(target),
        ensures
            self.externalized().graph_nodes[holder].previous == SerializableEntityReference::empty(),
            self.save_reports().contains(Diagnostic::DanglingReferenceOnSave { holder, target }),
            is_present(self.saved_records(), self.markers[holder].id),
            self.persistent_entry(self.markers[holder].id) == Some(self.record_of(holder)),
            self.record_of(holder).graph_node is Some,
            self.record_of(holder).graph_node.unwrap().previous is None,
            forall|k: int|
                0 <= k < self.saved_records().len() ==> entity_with_id(
                    self.markers,
                    (#[trigger] self.saved_records()[k]).persistent_id,
                ) != Some(target),
    {
        let report = Diagnostic::DanglingReferenceOnSave { holder, target };
        let before = follow_save_reports(self.follows.get(holder), holder, self.markers);
        assert(self.entities.is_live(holder));
        assert(self.save_reports_of(holder)[before.len() as int] == report);
        self.lemma_save_reports_include(holder, report, self.entities.generations.len());
        self.lemma_saved_records();
        self.lemma_records_below(self.entities.generations.len());
        lemma_unique_id_names_its_entity(self.markers, holder);
        assert(id_in_use(self.markers, self.markers[holder].id));
    }

    /// The dangling policy for the `next` reference of a graph node.
    pub proof fn lemma_dangling_next_is_dropped(self, holder: Entity, target: Entity)
        requires
            self.wf(),
            self.markers.contains_key(holder),
            self.graph_nodes.contains_key(holder),
            self.graph_nodes[holder].next.target == Some(target),
            !self.markers.contains_key(target),
        ensures
            self.externalized().graph_nodes[holder].next == SerializableEntityReference::empty(),
            self.save_reports().contains(Diagnostic::DanglingReferenceOnSave { holder, target }),
            is_present(self.saved_records(), self.markers[holder].id),
            self.persistent_entry(self.markers[holder].id) == Some(self.record_of(holder)),
            self.record_of(holder).graph_node is Some,
            self.record_of(holder).graph_node.unwrap().next is None,
            forall|k: int|
                0 <= k < self.saved_records().len() ==> entity_with_id(
                    self.markers,
                    (#[trigger] self.saved_records()[k]).persistent_id,
                ) != Some(target),
    {
        let report = Diagnostic::DanglingReferenceOnSave { holder, target };
        let before = follow_save_reports(self.follows.get(holder), holder, self.markers)
            + dangling_report(holder, self.graph_nodes[holder].previous.dangling_target(self.markers));
        assert(self.entities.is_live(holder));
        assert(self.save_reports_of(holder)[before.len() as int] == report);
        self.lemma_save_reports_include(holder, report, self.entities.generations.len());
        self.lemma_saved_records();
        self.lemma_records_below(self.entities.generations.len());
        lemma_unique_id_names_its_entity(self.markers, holder);
        assert(id_in_use(self.markers, self.markers[holder].id));
    }
}

/// The missing-target policy. Where a record follows an identifier that no
/// record carries, loading empties the reference and reports it. The load
/// itself goes through: only a repeated identifier makes loading refuse.
pub proof fn lemma_missing_target_is_dropped(records: Seq<EntityRecord>, position: int, id: PersistentId)
    requires
        records.len() <= MAX_SLOTS,
        !has_duplicate_ids(records),
        0 <= position < records.len(),
        records[position].follow is Some,
        records[position].follow.unwrap().target == Some(id),
        !is_present(records, id),
    ensures
        loaded(records).wf(),
        loaded(records).follows[loaded_entity(position)].target == SerializableEntityReference::empty(),
        instantiated(records).load_reports().contains(
            Diagnostic::UnresolvedReferenceOnLoad { holder: loaded_entity(position), id },
        ),
{
    let first = instantiated(records);
    let holder = loaded_entity(position);
    let report = Diagnostic::UnresolvedReferenceOnLoad { holder, id };
    lemma_loaded_record(records, position);
    lemma_reference_round_trip(records, Some(id));
    assert(first.follows.contains_key(holder));
    assert(first.load_reports_of(holder)[0] == report);
    first.lemma_load_reports_include(holder, report, records.len());
}

/// The missing-target policy for the `previous` reference of a graph node:
/// where it names an identifier that no record carries, loading empties the
/// reference and reports it.
pub proof fn lemma_missing_previous_is_dropped(records: Seq<EntityRecord>, position: int, id: PersistentId)
    requires
        records.len() <= MAX_SLOTS,
        !has_duplicate_ids(records),
        0 <= position < records.len(),
        records[position].graph_node is Some,
        records[position].graph_node.unwrap().previous == Some(id),
        !is_present(records, id),
    ensures
        loaded(records).wf(),
        loaded(records).graph_nodes[loaded_entity(position)].previous == SerializableEntityReference::empty(),
        instantiated(records).load_reports().contains(
            Diagnostic::UnresolvedReferenceOnLoad { holder: loaded_entity(position), id },
        ),
{
    let first = instantiated(records);
    let holder = loaded_entity(position);
    let report = Diagnostic::UnresolvedReferenceOnLoad { holder, id };
    let before = follow_load_reports(first.follows.get(holder), holder, first.markers);
    lemma_loaded_record(records, position);
    lemma_reference_round_trip(records, Some(id));
    assert(first.graph_nodes.contains_key(holder));
    assert(first.load_reports_of(holder)[before.len() as int] == report);
    first.lemma_load_reports_include(holder, report, records.len());
}

/// The missing-target policy for the `next` reference of a graph node.
pub proof fn lemma_missing_next_is_dropped(records: Seq<EntityRecord>, position: int, id: PersistentId)
    requires
        records.len() <= MAX_SLOTS,
        !has_duplicate_ids(records),
        0 <= position < records.len(),
        records[position].graph_node is Some,
        records[position].graph_node.unwrap().next == Some(id),
        !is_present(records, id),
    ensures
        loaded(records).wf(),
        loaded(records).graph_nodes[loaded_entity(position)].next == SerializableEntityReference::empty(),
        instantiated(records).load_reports().contains(
            Diagnostic::UnresolvedReferenceOnLoad { holder: loaded_entity(position), id },
        ),
{
    let first = instantiated(records);
    let holder = loaded_entity(position);
    let report = Diagnostic::UnresolvedReferenceOnLoad { holder, id };
    let before = follow_load_reports(first.follows.get(holder), holder, first.markers) + unresolved_report(
        holder,
        first.graph_nodes[holder].previous.unresolved_id(first.markers),
    );
    lemma_loaded_record(records, position);
    lemma_reference_round_trip(records, Some(id));
    assert(first.graph_nodes.contains_key(holder));
    assert(first.load_reports_of(holder)[before.len() as int] == report);
    first.lemma_load_reports_include(holder, report, records.len());
}

} // verus!
