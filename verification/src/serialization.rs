//! Saving a database to records and loading records into a database.
//!
//! A handle means nothing outside the run that issued it, so a saved
//! reference names its target by persistent identifier. Saving first turns
//! every reference of a marked entity into that form and then writes the
//! marked entities down in slot order. Loading first creates all entities,
//! and only then resolves the references against all of their markers, so
//! that a reference to an entity that comes later in the file resolves too.

use vstd::prelude::*;
use crate::components::{Component, EntityRecord, Follow, FollowRecord, GraphNode, GraphNodeRecord, GridObject, Name};
use crate::database::{id_used_by_other, ComponentDatabase, DatabaseState};
use crate::entity::{AllocatorState, Entity, MAX_SLOTS};
use crate::persistent_id::{find_entity_with_id, id_in_use, PersistentId, SerializationMarker};
use crate::serializable_entity_reference::SerializableEntityReference;

verus! {

/// A defect that saving or loading repaired and went on from.
#[derive(Clone, Copy, Debug, PartialEq, Eq, Structural)]
pub enum Diagnostic {
    /// On saving, `holder` referred to `target`, which carries no marker
    /// and so is not saved: the reference was emptied.
    DanglingReferenceOnSave { holder: Entity, target: Entity },
    /// On loading, `holder` referred to `id`, which no loaded entity
    /// carries: the reference was emptied.
    UnresolvedReferenceOnLoad { holder: Entity, id: PersistentId },
}

/// Why records were not loaded.
#[derive(Clone, Copy, Debug, PartialEq, Eq, Structural)]
pub enum LoadError {
    /// Two records carry `id`.
    DuplicatePersistentId { id: PersistentId },
}

/// What saving hands back.
#[derive(Debug)]
pub struct SaveOutput {
    /// One record per marked entity, in slot order.
    pub records: Vec<EntityRecord>,
    /// One entry per reference that had to be emptied.
    pub diagnostics: Vec<Diagnostic>,
}

/// What loading hands back.
#[derive(Debug)]
pub struct LoadOutput {
    /// The database that the records describe.
    pub database: ComponentDatabase,
    /// One entry per reference that had to be emptied.
    pub diagnostics: Vec<Diagnostic>,
}

/// The report on a reference of `holder` whose target `dropped`, if any,
/// had to be dropped on saving.
pub open spec fn dangling_report(holder: Entity, dropped: Option<Entity>) -> Seq<Diagnostic> {
    match dropped {
        Some(target) => seq![Diagnostic::DanglingReferenceOnSave { holder, target }],
        None => Seq::empty(),
    }
}

/// The report on a reference of `holder` whose identifier `dropped`, if
/// any, had to be dropped on loading.
pub open spec fn unresolved_report(holder: Entity, dropped: Option<PersistentId>) -> Seq<Diagnostic> {
    match dropped {
        Some(id) => seq![Diagnostic::UnresolvedReferenceOnLoad { holder, id }],
        None => Seq::empty(),
    }
}

impl Follow {
    /// The component with its reference made ready for saving.
    pub open spec fn externalized(self, markers: Map<Entity, SerializationMarker>) -> Follow {
        Follow { target: self.target.externalized(markers), ..self }
    }

    /// The component with its reference resolved after loading.
    pub open spec fn internalized(self, markers: Map<Entity, SerializationMarker>) -> Follow {
        Follow { target: self.target.internalized(markers), ..self }
    }

    /// The reports on the references of the component that saving empties.
    pub open spec fn save_reports(self, holder: Entity, markers: Map<Entity, SerializationMarker>) -> Seq<
        Diagnostic,
    > {
        dangling_report(holder, self.target.dangling_target(markers))
    }

    /// The reports on the references of the component that loading empties.
    pub open spec fn load_reports(self, holder: Entity, markers: Map<Entity, SerializationMarker>) -> Seq<
        Diagnostic,
    > {
        unresolved_report(holder, self.target.unresolved_id(markers))
    }
}

impl GraphNode {
    /// The component with its references made ready for saving.
    pub open spec fn externalized(self, markers: Map<Entity, SerializationMarker>) -> GraphNode {
        GraphNode {
            previous: self.previous.externalized(markers),
            next: self.next.externalized(markers),
        }
    }

    /// The component with its references resolved after loading.
    pub open spec fn internalized(self, markers: Map<Entity, SerializationMarker>) -> GraphNode {
        GraphNode {
            previous: self.previous.internalized(markers),
            next: self.next.internalized(markers),
        }
    }

    /// The reports on the references of the component that saving empties,
    /// `previous` before `next`.
    pub open spec fn save_reports(self, holder: Entity, markers: Map<Entity, SerializationMarker>) -> Seq<
        Diagnostic,
    > {
        dangling_report(holder, self.previous.dangling_target(markers)) + dangling_report(
            holder,
            self.next.dangling_target(markers),
        )
    }

    /// The reports on the references of the component that loading empties,
    /// `previous` before `next`.
    pub open spec fn load_reports(self, holder: Entity, markers: Map<Entity, SerializationMarker>) -> Seq<
        Diagnostic,
    > {
        unresolved_report(holder, self.previous.unresolved_id(markers)) + unresolved_report(
            holder,
            self.next.unresolved_id(markers),
        )
    }
}

/// The reports of a component that may be absent.
pub open spec fn follow_save_reports(
    component: Option<Follow>,
    holder: Entity,
    markers: Map<Entity, SerializationMarker>,
) -> Seq<Diagnostic> {
    match component {
        Some(follow) => follow.save_reports(holder, markers),
        None => Seq::empty(),
    }
}

/// The reports of a component that may be absent.
pub open spec fn graph_node_save_reports(
    component: Option<GraphNode>,
    holder: Entity,
    markers: Map<Entity, SerializationMarker>,
) -> Seq<Diagnostic> {
    match component {
        Some(node) => node.save_reports(holder, markers),
        None => Seq::empty(),
    }
}

/// The reports of a component that may be absent.
pub open spec fn follow_load_reports(
    component: Option<Follow>,
    holder: Entity,
    markers: Map<Entity, SerializationMarker>,
) -> Seq<Diagnostic> {
    match component {
        Some(follow) => follow.load_reports(holder, markers),
        None => Seq::empty(),
    }
}

/// The reports of a component that may be absent.
pub open spec fn graph_node_load_reports(
    component: Option<GraphNode>,
    holder: Entity,
    markers: Map<Entity, SerializationMarker>,
) -> Seq<Diagnostic> {
    match component {
        Some(node) => node.load_reports(holder, markers),
        None => Seq::empty(),
    }
}

impl DatabaseState {
    /// Whether saving touches the references of `e`: only those of marked
    /// entities in slots below `bound`.
    pub open spec fn externalizes(self, e: Entity, bound: int) -> bool {
        self.markers.contains_key(e) && e.index < bound
    }

    /// The state in which the references of the marked entities in the
    /// slots below `bound` are ready for saving.
    pub open spec fn externalized_below(self, bound: int) -> DatabaseState {
        DatabaseState {
            follows: Map::new(
                |e: Entity| self.follows.contains_key(e),
                |e: Entity|
                    if self.externalizes(e, bound) {
                        self.follows[e].externalized(self.markers)
                    } else {
                        self.follows[e]
                    },
            ),
            graph_nodes: Map::new(
                |e: Entity| self.graph_nodes.contains_key(e),
                |e: Entity|
                    if self.externalizes(e, bound) {
                        self.graph_nodes[e].externalized(self.markers)
                    } else {
                        self.graph_nodes[e]
                    },
            ),
            ..self
        }
    }

    /// The state after the first phase of saving: every reference of every
    /// marked entity names its target by persistent identifier, or is empty
    /// where the target carries no marker.
    pub open spec fn externalized(self) -> DatabaseState {
        self.externalized_below(self.entities.generations.len() as int)
    }

    /// The record that saving writes for the marked entity `e`.
    pub open spec fn record_of(self, e: Entity) -> EntityRecord {
        EntityRecord {
            persistent_id: self.markers[e].id,
            name: self.names.get(e),
            grid_object: self.grid_objects.get(e),
            follow: match self.follows.get(e) {
                Some(follow) => Some(follow.externalized(self.markers).as_record()),
                None => None,
            },
            graph_node: match self.graph_nodes.get(e) {
                Some(node) => Some(node.externalized(self.markers).as_record()),
                None => None,
            },
        }
    }

    /// The marked live entity in slot `index`, if there is one.
    pub open spec fn saved_at(self, index: int) -> Option<Entity> {
        match self.entities.live_at(index) {
            Some(e) => if self.markers.contains_key(e) {
                Some(e)
            } else {
                None
            },
            None => None,
        }
    }

    /// The records of the marked entities in the slots below `bound`, in
    /// slot order.
    pub open spec fn records_below(self, bound: nat) -> Seq<EntityRecord>
        decreases bound,
    {
        if bound == 0 {
            Seq::empty()
        } else {
            let before = self.records_below((bound - 1) as nat);
            match self.saved_at(bound - 1) {
                Some(e) => before.push(self.record_of(e)),
                None => before,
            }
        }
    }

    /// The records that saving writes: one per marked entity, in slot
    /// order.
    pub open spec fn saved_records(self) -> Seq<EntityRecord> {
        self.records_below(self.entities.generations.len())
    }

    /// The reports on the references of `e` that saving empties: those of
    /// its follower, then those of its graph node.
    pub open spec fn save_reports_of(self, e: Entity) -> Seq<Diagnostic> {
        follow_save_reports(self.follows.get(e), e, self.markers) + graph_node_save_reports(
            self.graph_nodes.get(e),
            e,
            self.markers,
        )
    }

    /// The reports of saving on the entities in the slots below `bound`.
    pub open spec fn save_reports_below(self, bound: nat) -> Seq<Diagnostic>
        decreases bound,
    {
        if bound == 0 {
            Seq::empty()
        } else {
            let before = self.save_reports_below((bound - 1) as nat);
            match self.saved_at(bound - 1) {
                Some(e) => before + self.save_reports_of(e),
                None => before,
            }
        }
    }

    /// The reports of saving: one per reference of a marked entity whose
    /// target carries no marker, entity by entity in slot order.
    pub open spec fn save_reports(self) -> Seq<Diagnostic> {
        self.save_reports_below(self.entities.generations.len())
    }

    /// Making references ready for saving keeps the database well formed.
    pub proof fn lemma_externalized_below(self, bound: int)
        requires
            self.wf(),
        ensures
            self.externalized_below(bound).wf(),
            self.externalized_below(0) == self,
    {
        assert(self.externalized_below(0).follows =~= self.follows);
        assert(self.externalized_below(0).graph_nodes =~= self.graph_nodes);
    }
}

/// Appends the report on a reference of `holder` whose target was dropped.
fn report_dangling(diagnostics: &mut Vec<Diagnostic>, holder: Entity, dropped: Option<Entity>)
    ensures
        final(diagnostics)@ == old(diagnostics)@ + dangling_report(holder, dropped),
{
    if let Some(target) = dropped {
        diagnostics.push(Diagnostic::DanglingReferenceOnSave { holder, target });
        assert(diagnostics@ =~= old(diagnostics)@ + dangling_report(holder, dropped));
    } else {
        assert(diagnostics@ =~= old(diagnostics)@ + dangling_report(holder, dropped));
    }
}

/// Appends the report on a reference of `holder` whose identifier was
/// dropped.
fn report_unresolved(diagnostics: &mut Vec<Diagnostic>, holder: Entity, dropped: Option<PersistentId>)
    ensures
        final(diagnostics)@ == old(diagnostics)@ + unresolved_report(holder, dropped),
{
    if let Some(id) = dropped {
        diagnostics.push(Diagnostic::UnresolvedReferenceOnLoad { holder, id });
        assert(diagnostics@ =~= old(diagnostics)@ + unresolved_report(holder, dropped));
    } else {
        assert(diagnostics@ =~= old(diagnostics)@ + unresolved_report(holder, dropped));
    }
}

impl ComponentDatabase {
    /// Makes the references of `e` ready for saving and reports those that
    /// had to be emptied.
    fn externalize_entity(&mut self, e: Entity, diagnostics: &mut Vec<Diagnostic>)
        requires
            old(self).wf(),
            old(self)@.entities.is_live(e),
        ensures
            final(self).wf(),
            final(self)@ == (DatabaseState {
                follows: if old(self)@.follows.contains_key(e) {
                    old(self)@.follows.insert(e, old(self)@.follows[e].externalized(old(self)@.markers))
                } else {
                    old(self)@.follows
                },
                graph_nodes: if old(self)@.graph_nodes.contains_key(e) {
                    old(self)@.graph_nodes.insert(
                        e,
                        old(self)@.graph_nodes[e].externalized(old(self)@.markers),
                    )
                } else {
                    old(self)@.graph_nodes
                },
                ..old(self)@
            }),
            final(diagnostics)@ == old(diagnostics)@ + old(self)@.save_reports_of(e),
    {
        let ghost start = diagnostics@;
        let follow = match self.follows().get(&e) {
            Some(follow) => Some(*follow),
            None => None,
        };
        if let Some(mut follow) = follow {
            let dropped = follow.target.entity_id_to_serialized_refs(self.serialization_markers());
            report_dangling(diagnostics, e, dropped);
            self.insert_follow(e, follow);
        }
        assert(diagnostics@ =~= start + follow_save_reports(old(self)@.follows.get(e), e, old(self)@.markers));
        let node = match self.graph_nodes().get(&e) {
            Some(node) => Some(*node),
            None => None,
        };
        if let Some(mut node) = node {
            let dropped = node.previous.entity_id_to_serialized_refs(self.serialization_markers());
            report_dangling(diagnostics, e, dropped);
            let dropped = node.next.entity_id_to_serialized_refs(self.serialization_markers());
            report_dangling(diagnostics, e, dropped);
            self.insert_graph_node(e, node);
        }
        assert(diagnostics@ =~= start + old(self)@.save_reports_of(e));
    }

    /// The first phase of saving: makes the references of every marked
    /// entity ready for saving. Returns the reports on the references that
    /// had to be emptied because their target carries no marker.
    pub fn externalize_references(&mut self) -> (diagnostics: Vec<Diagnostic>)
        requires
            old(self).wf(),
        ensures
            final(self).wf(),
            final(self)@ == old(self)@.externalized(),
            diagnostics@ == old(self)@.save_reports(),
    {
        let mut diagnostics: Vec<Diagnostic> = Vec::new();
        let count = self.slot_count();
        let mut i: usize = 0;
        proof {
            self@.lemma_externalized_below(0);
        }
        while i < count
            invariant
                old(self).wf(),
                self.wf(),
                count == old(self)@.entities.generations.len(),
                i <= count,
                self@ == old(self)@.externalized_below(i as int),
                diagnostics@ == old(self)@.save_reports_below(i as nat),
            decreases count - i,
        {
            let ghost before = self@;
            let ghost origin = old(self)@;
            let marked = match self.live_at(i) {
                Some(e) => if self.serialization_markers().contains(&e) {
                    Some(e)
                } else {
                    None
                },
                None => None,
            };
            assert(marked == origin.saved_at(i as int));
            if let Some(e) = marked {
                self.externalize_entity(e, &mut diagnostics);
                assert(before.follows.contains_key(e) ==> before.follows[e] == origin.follows[e]);
                assert(before.graph_nodes.contains_key(e) ==> before.graph_nodes[e] == origin.graph_nodes[e]);
                assert(before.save_reports_of(e) == origin.save_reports_of(e));
            }
            proof {
                let after = origin.externalized_below(i + 1);
                assert forall|h: Entity| origin.externalizes(h, i + 1) && (origin.follows.contains_key(h)
                    || origin.graph_nodes.contains_key(h)) implies origin.externalizes(h, i as int) || Some(h)
                    == marked by {
                    assert(origin.entities.is_live(h));
                }
                assert(self@.follows =~= after.follows);
                assert(self@.graph_nodes =~= after.graph_nodes);
            }
            i += 1;
        }
        diagnostics
    }

    /// Writes the record of the marked entity `e`, whose references are
    /// ready for saving.
    fn write_record(&self, e: Entity, persistent_id: PersistentId) -> (record: EntityRecord)
        requires
            self.wf(),
            self@.markers.contains_key(e),
            self@.markers[e].id == persistent_id,
        ensures
            record == (EntityRecord {
                persistent_id: self@.markers[e].id,
                name: self@.names.get(e),
                grid_object: self@.grid_objects.get(e),
                follow: match self@.follows.get(e) {
                    Some(follow) => Some(follow.as_record()),
                    None => None,
                },
                graph_node: match self@.graph_nodes.get(e) {
                    Some(node) => Some(node.as_record()),
                    None => None,
                },
            }),
    {
        let name = match self.names().get(&e) {
            Some(name) => Some(name.duplicate()),
            None => None,
        };
        let grid_object = match self.grid_objects().get(&e) {
            Some(grid_object) => Some(*grid_object),
            None => None,
        };
        let follow = match self.follows().get(&e) {
            Some(follow) => Some(follow.to_record()),
            None => None,
        };
        let graph_node = match self.graph_nodes().get(&e) {
            Some(node) => Some(node.to_record()),
            None => None,
        };
        EntityRecord { persistent_id, name, grid_object, follow, graph_node }
    }

    /// Saves the database: first makes the references of every marked
    /// entity ready for saving, then writes one record per marked entity, in
    /// slot order. Entities without a marker are left out, and a reference
    /// to one is emptied and reported.
    pub fn save(&mut self) -> (output: SaveOutput)
        requires
            old(self).wf(),
        ensures
            final(self).wf(),
            final(self)@ == old(self)@.externalized(),
            output.records@ == old(self)@.saved_records(),
            output.diagnostics@ == old(self)@.save_reports(),
    {
        let diagnostics = self.externalize_references();
        let mut records: Vec<EntityRecord> = Vec::new();
        let count = self.slot_count();
        let mut i: usize = 0;
        while i < count
            invariant
                old(self).wf(),
                self.wf(),
                self@ == old(self)@.externalized(),
                count == old(self)@.entities.generations.len(),
                i <= count,
                records@ == old(self)@.records_below(i as nat),
            decreases count - i,
        {
            let ghost origin = old(self)@;
            let marked = match self.live_at(i) {
                Some(e) => match self.serialization_markers().get(&e) {
                    Some(marker) => Some((e, marker.id)),
                    None => None,
                },
                None => None,
            };
            if let Some((e, persistent_id)) = marked {
                assert(origin.saved_at(i as int) == Some(e));
                let record = self.write_record(e, persistent_id);
                assert(record == origin.record_of(e));
                records.push(record);
            } else {
                assert(origin.saved_at(i as int) is None);
            }
            i += 1;
        }
        SaveOutput { records, diagnostics }
    }
}

/// The entity that loading creates for the record at `position`.
pub open spec fn loaded_entity(position: int) -> Entity {
    Entity { index: position as u32, generation: 1 }
}

/// `e` is the entity that loading creates for one of the records.
pub open spec fn is_loaded_entity(records: Seq<EntityRecord>, e: Entity) -> bool {
    e.generation == 1 && e.index < records.len()
}

/// The identifier of the record at `position` occurs in an earlier record.
pub open spec fn occurs_before(records: Seq<EntityRecord>, position: int) -> bool {
    exists|i: int|
        0 <= i < position && (#[trigger] records[i]).persistent_id == records[position].persistent_id
}

/// Two of the records carry the same identifier.
pub open spec fn has_duplicate_ids(records: Seq<EntityRecord>) -> bool {
    exists|j: int| 0 <= j < records.len() && #[trigger] occurs_before(records, j)
}

/// The record at `position` is the first that repeats an identifier.
pub open spec fn is_first_duplicate(records: Seq<EntityRecord>, position: int) -> bool {
    &&& 0 <= position < records.len()
    &&& occurs_before(records, position)
    &&& forall|k: int| 0 <= k < position ==> !#[trigger] occurs_before(records, k)
}

/// The state after the first phase of loading: one entity per record, in
/// the order of the records, each with the components and the marker of its
/// record. The references name their targets by persistent identifier only.
pub open spec fn instantiated(records: Seq<EntityRecord>) -> DatabaseState {
    DatabaseState {
        entities: AllocatorState {
            generations: Seq::new(records.len(), |i: int| 1u32),
            free: Seq::empty(),
        },
        names: Map::new(
            |e: Entity| is_loaded_entity(records, e) && records[e.index as int].name is Some,
            |e: Entity| records[e.index as int].name.unwrap(),
        ),
        grid_objects: Map::new(
            |e: Entity| is_loaded_entity(records, e) && records[e.index as int].grid_object is Some,
            |e: Entity| records[e.index as int].grid_object.unwrap(),
        ),
        follows: Map::new(
            |e: Entity| is_loaded_entity(records, e) && records[e.index as int].follow is Some,
            |e: Entity| Follow::of_record(records[e.index as int].follow.unwrap()),
        ),
        graph_nodes: Map::new(
            |e: Entity| is_loaded_entity(records, e) && records[e.index as int].graph_node is Some,
            |e: Entity| GraphNode::of_record(records[e.index as int].graph_node.unwrap()),
        ),
        markers: Map::new(
            |e: Entity| is_loaded_entity(records, e),
            |e: Entity| SerializationMarker { id: records[e.index as int].persistent_id },
        ),
        hidden: Set::empty(),
    }
}

/// The state that loading `records` yields: the entities of the first
/// phase with every reference resolved against all of their markers.
pub open spec fn loaded(records: Seq<EntityRecord>) -> DatabaseState {
    instantiated(records).internalized()
}

impl DatabaseState {
    /// The state in which the references of the entities in the slots below
    /// `bound` are resolved.
    pub open spec fn internalized_below(self, bound: int) -> DatabaseState {
        DatabaseState {
            follows: Map::new(
                |e: Entity| self.follows.contains_key(e),
                |e: Entity|
                    if e.index < bound {
                        self.follows[e].internalized(self.markers)
                    } else {
                        self.follows[e]
                    },
            ),
            graph_nodes: Map::new(
                |e: Entity| self.graph_nodes.contains_key(e),
                |e: Entity|
                    if e.index < bound {
                        self.graph_nodes[e].internalized(self.markers)
                    } else {
                        self.graph_nodes[e]
                    },
            ),
            ..self
        }
    }

    /// The state after the last phase of loading: every reference points at
    /// the entity that carries its persistent identifier, or is empty where
    /// no entity does.
    pub open spec fn internalized(self) -> DatabaseState {
        self.internalized_below(self.entities.generations.len() as int)
    }

    /// The reports on the references of `e` that loading empties: those of
    /// its follower, then those of its graph node.
    pub open spec fn load_reports_of(self, e: Entity) -> Seq<Diagnostic> {
        follow_load_reports(self.follows.get(e), e, self.markers) + graph_node_load_reports(
            self.graph_nodes.get(e),
            e,
            self.markers,
        )
    }

    /// The reports of loading on the entities in the slots below `bound`.
    pub open spec fn load_reports_below(self, bound: nat) -> Seq<Diagnostic>
        decreases bound,
    {
        if bound == 0 {
            Seq::empty()
        } else {
            let before = self.load_reports_below((bound - 1) as nat);
            match self.entities.live_at(bound - 1) {
                Some(e) => before + self.load_reports_of(e),
                None => before,
            }
        }
    }

    /// The reports of loading: one per reference whose persistent
    /// identifier no entity carries, entity by entity in slot order.
    pub open spec fn load_reports(self) -> Seq<Diagnostic> {
        self.load_reports_below(self.entities.generations.len())
    }

    /// Resolving references keeps the database well formed.
    pub proof fn lemma_internalized_below(self, bound: int)
        requires
            self.wf(),
        ensures
            self.internalized_below(bound).wf(),
            self.internalized_below(0) == self,
    {
        assert(self.internalized_below(0).follows =~= self.follows);
        assert(self.internalized_below(0).graph_nodes =~= self.graph_nodes);
    }
}

/// The first phase of loading yields a well-formed database exactly where
/// no two records share an identifier.
pub proof fn lemma_instantiated_wf(records: Seq<EntityRecord>)
    requires
        records.len() <= MAX_SLOTS,
        !has_duplicate_ids(records),
    ensures
        instantiated(records).wf(),
        !instantiated(records).entities.has_capacity() ==> records.len() == MAX_SLOTS,
{
    let state = instantiated(records);
    assert forall|a: Entity, b: Entity|
        #[trigger] state.markers.contains_key(a) && #[trigger] state.markers.contains_key(b)
            && state.markers[a].id == state.markers[b].id implies a == b by {
        if a.index < b.index {
            assert(records[a.index as int].persistent_id == records[b.index as int].persistent_id);
            assert(occurs_before(records, b.index as int));
        } else if b.index < a.index {
            assert(records[b.index as int].persistent_id == records[a.index as int].persistent_id);
            assert(occurs_before(records, a.index as int));
        }
    }
}

impl ComponentDatabase {
    /// Creates the entity of `record` and attaches the components and the
    /// marker that the record holds.
    fn instantiate_record(&mut self, record: &EntityRecord) -> (e: Entity)
        requires
            old(self).wf(),
            old(self)@.entities.has_capacity(),
            !id_in_use(old(self)@.markers, record.persistent_id),
        ensures
            final(self).wf(),
            e == old(self)@.entities.next_entity(),
            final(self)@ == (DatabaseState {
                entities: old(self)@.entities.create(),
                names: match record.name {
                    Some(name) => old(self)@.names.insert(e, name),
                    None => old(self)@.names,
                },
                grid_objects: match record.grid_object {
                    Some(grid_object) => old(self)@.grid_objects.insert(e, grid_object),
                    None => old(self)@.grid_objects,
                },
                follows: match record.follow {
                    Some(follow) => old(self)@.follows.insert(e, Follow::of_record(follow)),
                    None => old(self)@.follows,
                },
                graph_nodes: match record.graph_node {
                    Some(node) => old(self)@.graph_nodes.insert(e, GraphNode::of_record(node)),
                    None => old(self)@.graph_nodes,
                },
                markers: old(self)@.markers.insert(e, SerializationMarker { id: record.persistent_id }),
                hidden: old(self)@.hidden,
            }),
    {
        let e = self.create_entity();
        if let Some(name) = &record.name {
            self.insert_name(e, name.duplicate());
        }
        if let Some(grid_object) = &record.grid_object {
            self.insert_grid_object(e, *grid_object);
        }
        if let Some(follow) = &record.follow {
            self.insert_follow(e, Follow::from_record(follow));
        }
        if let Some(node) = &record.graph_node {
            self.insert_graph_node(e, GraphNode::from_record(node));
        }
        proof {
            let markers = self@.markers;
            let id = record.persistent_id;
            if id_used_by_other(markers, e, id) {
                let o = choose|o: Entity| #[trigger] markers.contains_key(o) && o != e && markers[o].id == id;
                assert(markers.contains_key(o) && markers[o].id == id);
            }
        }
        let _ = self.insert_serialization_marker(e, record.persistent_id);
        e
    }

    /// The first phase of loading: creates one entity per record, in the
    /// order of the records, with the components and the marker of its
    /// record. Refuses the records where two of them share an identifier.
    pub fn instantiate(records: &Vec<EntityRecord>) -> (outcome: Result<ComponentDatabase, LoadError>)
        requires
            records.len() <= MAX_SLOTS,
        ensures
            match outcome {
                Ok(database) => !has_duplicate_ids(records@) && database.wf() && database@ == instantiated(
                    records@,
                ),
                Err(error) => exists|j: int| #[trigger]
                    is_first_duplicate(records@, j) && error == (LoadError::DuplicatePersistentId {
                        id: records@[j].persistent_id,
                    }),
            },
    {
        let mut database = ComponentDatabase::new();
        let mut i: usize = 0;
        proof {
            let start = instantiated(records@.take(0));
            assert(database@.entities.generations =~= start.entities.generations);
            assert(database@.names =~= start.names);
            assert(database@.grid_objects =~= start.grid_objects);
            assert(database@.follows =~= start.follows);
            assert(database@.graph_nodes =~= start.graph_nodes);
            assert(database@.markers =~= start.markers);
        }
        while i < records.len()
            invariant
                records.len() <= MAX_SLOTS,
                i <= records.len(),
                database.wf(),
                database@ == instantiated(records@.take(i as int)),
                forall|k: int| 0 <= k < i ==> !#[trigger] occurs_before(records@, k),
            decreases records.len() - i,
        {
            let ghost before = database@;
            let ghost prefix = records@.take(i as int);
            let id = records[i].persistent_id;
            let holder = find_entity_with_id(database.serialization_markers(), id);
            if let Some(o) = holder {
                proof {
                    assert(before.markers.contains_key(o));
                    assert(prefix[o.index as int] == records@[o.index as int]);
                    assert(records@[o.index as int].persistent_id == records@[i as int].persistent_id);
                    assert(occurs_before(records@, i as int));
                    assert(is_first_duplicate(records@, i as int));
                }
                return Err(LoadError::DuplicatePersistentId { id });
            }
            proof {
                if occurs_before(records@, i as int) {
                    let k = choose|k: int|
                        0 <= k < i && (#[trigger] records@[k]).persistent_id == records@[i as int].persistent_id;
                    assert(prefix[k] == records@[k]);
                    assert(before.markers.contains_key(loaded_entity(k)));
                    assert(before.markers[loaded_entity(k)].id == id);
                }
            }
            let e = database.instantiate_record(&records[i]);
            proof {
                let longer = records@.take(i + 1);
                let after = instantiated(longer);
                assert(e == loaded_entity(i as int));
                assert(longer[i as int] == records@[i as int]);
                assert forall|k: int| 0 <= k < i implies #[trigger] longer[k] == prefix[k] by {}
                assert(database@.entities.generations =~= after.entities.generations);
                assert(database@.names =~= after.names);
                assert(database@.grid_objects =~= after.grid_objects);
                assert(database@.follows =~= after.follows);
                assert(database@.graph_nodes =~= after.graph_nodes);
                assert(database@.markers =~= after.markers);
            }
            i += 1;
        }
        proof {
            assert(records@.take(i as int) =~= records@);
            if has_duplicate_ids(records@) {
                let j = choose|j: int| 0 <= j < records@.len() && #[trigger] occurs_before(records@, j);
                assert(false);
            }
        }
        Ok(database)
    }

    /// Resolves the references of `e` and reports those that had to be
    /// emptied.
    fn internalize_entity(&mut self, e: Entity, diagnostics: &mut Vec<Diagnostic>)
        requires
            old(self).wf(),
            old(self)@.entities.is_live(e),
        ensures
            final(self).wf(),
            final(self)@ == (DatabaseState {
                follows: if old(self)@.follows.contains_key(e) {
                    old(self)@.follows.insert(e, old(self)@.follows[e].internalized(old(self)@.markers))
                } else {
                    old(self)@.follows
                },
                graph_nodes: if old(self)@.graph_nodes.contains_key(e) {
                    old(self)@.graph_nodes.insert(
                        e,
                        old(self)@.graph_nodes[e].internalized(old(self)@.markers),
                    )
                } else {
                    old(self)@.graph_nodes
                },
                ..old(self)@
            }),
            final(diagnostics)@ == old(diagnostics)@ + old(self)@.load_reports_of(e),
    {
        let ghost start = diagnostics@;
        let follow = match self.follows().get(&e) {
            Some(follow) => Some(*follow),
            None => None,
        };
        if let Some(mut follow) = follow {
            let dropped = follow.target.serialized_refs_to_entity_id(self.serialization_markers());
            report_unresolved(diagnostics, e, dropped);
            self.insert_follow(e, follow);
        }
        assert(diagnostics@ =~= start + follow_load_reports(old(self)@.follows.get(e), e, old(self)@.markers));
        let node = match self.graph_nodes().get(&e) {
            Some(node) => Some(*node),
            None => None,
        };
        if let Some(mut node) = node {
            let dropped = node.previous.serialized_refs_to_entity_id(self.serialization_markers());
            report_unresolved(diagnostics, e, dropped);
            let dropped = node.next.serialized_refs_to_entity_id(self.serialization_markers());
            report_unresolved(diagnostics, e, dropped);
            self.insert_graph_node(e, node);
        }
        assert(diagnostics@ =~= start + old(self)@.load_reports_of(e));
    }

    /// The last phase of loading: resolves every reference against the
    /// markers of the whole database. Returns the reports on the references
    /// that had to be emptied because no entity carries their identifier.
    pub fn internalize_references(&mut self) -> (diagnostics: Vec<Diagnostic>)
        requires
            old(self).wf(),
        ensures
            final(self).wf(),
            final(self)@ == old(self)@.internalized(),
            diagnostics@ == old(self)@.load_reports(),
    {
        let mut diagnostics: Vec<Diagnostic> = Vec::new();
        let count = self.slot_count();
        let mut i: usize = 0;
        proof {
            self@.lemma_internalized_below(0);
        }
        while i < count
            invariant
                old(self).wf(),
                self.wf(),
                count == old(self)@.entities.generations.len(),
                i <= count,
                self@ == old(self)@.internalized_below(i as int),
                diagnostics@ == old(self)@.load_reports_below(i as nat),
            decreases count - i,
        {
            let ghost before = self@;
            let ghost origin = old(self)@;
            let live = self.live_at(i);
            if let Some(e) = live {
                self.internalize_entity(e, &mut diagnostics);
                assert(before.follows.contains_key(e) ==> before.follows[e] == origin.follows[e]);
                assert(before.graph_nodes.contains_key(e) ==> before.graph_nodes[e] == origin.graph_nodes[e]);
                assert(before.load_reports_of(e) == origin.load_reports_of(e));
            }
            proof {
                let after = origin.internalized_below(i + 1);
                assert forall|h: Entity| h.index < i + 1 && (origin.follows.contains_key(h)
                    || origin.graph_nodes.contains_key(h)) implies h.index < i || Some(h) == live by {
                    assert(origin.entities.is_live(h));
                }
                assert(self@.follows =~= after.follows);
                assert(self@.graph_nodes =~= after.graph_nodes);
            }
            i += 1;
        }
        diagnostics
    }

    /// Loads records into a new database: creates one entity per record,
    /// then resolves every reference against the markers of all of them. A
    /// reference whose identifier no record carries is emptied and reported.
    /// Refuses the records where two of them share an identifier.
    pub fn load(records: &Vec<EntityRecord>) -> (outcome: Result<LoadOutput, LoadError>)
        requires
            records.len() <= MAX_SLOTS,
        ensures
            match outcome {
                Ok(output) => {
                    &&& !has_duplicate_ids(records@)
                    &&& output.database.wf()
                    &&& output.database@ == loaded(records@)
                    &&& output.diagnostics@ == instantiated(records@).load_reports()
                },
                Err(error) => exists|j: int| #[trigger]
                    is_first_duplicate(records@, j) && error == (LoadError::DuplicatePersistentId {
                        id: records@[j].persistent_id,
                    }),
            },
    {
        match ComponentDatabase::instantiate(records) {
            Ok(mut database) => {
                let diagnostics = database.internalize_references();
                Ok(LoadOutput { database, diagnostics })
            },
            Err(error) => Err(error),
        }
    }

    /// Replaces the database by the one that `records` describe. Where the
    /// records are refused, the database is left as it was.
    pub fn reload(&mut self, records: &Vec<EntityRecord>) -> (outcome: Result<Vec<Diagnostic>, LoadError>)
        requires
            records.len() <= MAX_SLOTS,
        ensures
            match outcome {
                Ok(diagnostics) => {
                    &&& !has_duplicate_ids(records@)
                    &&& final(self).wf()
                    &&& final(self)@ == loaded(records@)
                    &&& diagnostics@ == instantiated(records@).load_reports()
                },
                Err(error) => {
                    &&& *final(self) == *old(self)
                    &&& exists|j: int| #[trigger]
                        is_first_duplicate(records@, j) && error == (LoadError::DuplicatePersistentId {
                            id: records@[j].persistent_id,
                        })
                },
            },
    {
        match ComponentDatabase::load(records) {
            Ok(output) => {
                *self = output.database;
                Ok(output.diagnostics)
            },
            Err(error) => Err(error),
        }
    }
}

} // verus!
