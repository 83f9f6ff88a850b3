//! The database: one component list per component type, and the life of
//! the entities that the lists speak of.

use vstd::prelude::*;
use crate::component_list::{index_taken_by_other, ComponentList};
use crate::components::{Component, Follow, GraphNode, GridObject, Name};
use crate::entity::{AllocatorState, Entity, EntityAllocator, InvalidHandle};
use crate::persistent_id::{
    find_entity_with_id, id_in_use, ids_unique, is_random_uuid_value, PersistentId,
    SerializationMarker,
};

verus! {

/// Every entry of `m` belongs to a live entity.
pub open spec fn only_live<T>(entities: AllocatorState, m: Map<Entity, T>) -> bool {
    forall|e: Entity| #[trigger] m.contains_key(e) ==> entities.is_live(e)
}

/// `m` with the component of `from`, if it has one, given to `to` as well.
pub open spec fn copied<T>(m: Map<Entity, T>, from: Entity, to: Entity) -> Map<Entity, T> {
    if m.contains_key(from) {
        m.insert(to, m[from])
    } else {
        m
    }
}

/// Some entity other than `e` carries `id`.
pub open spec fn id_used_by_other(
    markers: Map<Entity, SerializationMarker>,
    e: Entity,
    id: PersistentId,
) -> bool {
    exists|o: Entity| #[trigger] markers.contains_key(o) && o != e && markers[o].id == id
}

/// The components of one entity, each present or absent.
pub struct Components {
    pub name: Option<Name>,
    pub grid_object: Option<GridObject>,
    pub follow: Option<Follow>,
    pub graph_node: Option<GraphNode>,
    pub marker: Option<SerializationMarker>,
}

impl Components {
    /// No component at all.
    pub open spec fn none() -> Components {
        Components { name: None, grid_object: None, follow: None, graph_node: None, marker: None }
    }
}

/// Why a marker could not be attached.
#[derive(Clone, Copy, Debug, PartialEq, Eq, Structural)]
pub enum MarkerError {
    /// The entity is not live.
    StaleHandle,
    /// Another entity carries the identifier already.
    DuplicatePersistentId,
}

/// The mathematical state of a database.
pub struct DatabaseState {
    pub entities: AllocatorState,
    pub names: Map<Entity, Name>,
    pub grid_objects: Map<Entity, GridObject>,
    pub follows: Map<Entity, Follow>,
    pub graph_nodes: Map<Entity, GraphNode>,
    pub markers: Map<Entity, SerializationMarker>,
    /// The entities that the inspector does not show.
    pub hidden: Set<Entity>,
}

impl DatabaseState {
    /// The state of a database without entities.
    pub open spec fn empty() -> DatabaseState {
        DatabaseState {
            entities: AllocatorState::empty(),
            names: Map::empty(),
            grid_objects: Map::empty(),
            follows: Map::empty(),
            graph_nodes: Map::empty(),
            markers: Map::empty(),
            hidden: Set::empty(),
        }
    }

    /// No list and no set speaks of a stale entity, and no two markers share
    /// an identifier.
    pub open spec fn wf(self) -> bool {
        &&& self.entities.wf()
        &&& only_live(self.entities, self.names)
        &&& only_live(self.entities, self.grid_objects)
        &&& only_live(self.entities, self.follows)
        &&& only_live(self.entities, self.graph_nodes)
        &&& only_live(self.entities, self.markers)
        &&& forall|e: Entity| #[trigger] self.hidden.contains(e) ==> self.entities.is_live(e)
        &&& ids_unique(self.markers)
    }

    /// `e` is a live entity of the database.
    pub open spec fn entity_exists(self, e: Entity) -> bool {
        self.entities.is_live(e)
    }

    /// The components that `e` has.
    pub open spec fn components(self, e: Entity) -> Components {
        Components {
            name: self.names.get(e),
            grid_object: self.grid_objects.get(e),
            follow: self.follows.get(e),
            graph_node: self.graph_nodes.get(e),
            marker: self.markers.get(e),
        }
    }

    /// The state after creating the next entity.
    pub open spec fn created(self) -> DatabaseState {
        DatabaseState { entities: self.entities.create(), ..self }
    }

    /// The state after destroying `e`: nothing is left of it. A stale `e`
    /// changes nothing.
    pub open spec fn destroyed(self, e: Entity) -> DatabaseState {
        if self.entities.is_live(e) {
            DatabaseState {
                entities: self.entities.destroy(e),
                names: self.names.remove(e),
                grid_objects: self.grid_objects.remove(e),
                follows: self.follows.remove(e),
                graph_nodes: self.graph_nodes.remove(e),
                markers: self.markers.remove(e),
                hidden: self.hidden.remove(e),
            }
        } else {
            self
        }
    }

    /// The state after cloning the live entity `source` into the next
    /// entity: every component but the marker is copied.
    pub open spec fn cloned(self, source: Entity) -> DatabaseState {
        let copy = self.entities.next_entity();
        DatabaseState {
            entities: self.entities.create(),
            names: copied(self.names, source, copy),
            grid_objects: copied(self.grid_objects, source, copy),
            follows: copied(self.follows, source, copy),
            graph_nodes: copied(self.graph_nodes, source, copy),
            markers: self.markers,
            hidden: self.hidden,
        }
    }

    /// Why `e` cannot take a marker with `id`, if it cannot.
    pub open spec fn marker_error(self, e: Entity, id: PersistentId) -> Option<MarkerError> {
        if !self.entities.is_live(e) {
            Some(MarkerError::StaleHandle)
        } else if id_used_by_other(self.markers, e, id) {
            Some(MarkerError::DuplicatePersistentId)
        } else {
            None
        }
    }

    /// The state after `e` took a marker with `id`, where it can.
    pub open spec fn marked(self, e: Entity, id: PersistentId) -> DatabaseState {
        if self.marker_error(e, id) is None {
            DatabaseState { markers: self.markers.insert(e, SerializationMarker { id }), ..self }
        } else {
            self
        }
    }

    /// `listed` names the live entities in slot order, each once.
    pub open spec fn lists_live_entities(self, listed: Seq<Entity>) -> bool {
        &&& forall|i: int, j: int|
            0 <= i < j < listed.len() ==> (#[trigger] listed[i]).index < (#[trigger] listed[j]).index
        &&& forall|i: int| 0 <= i < listed.len() ==> self.entities.is_live(#[trigger] listed[i])
        &&& forall|e: Entity| #[trigger] self.entities.is_live(e) ==> listed.contains(e)
    }

    /// A new entity exists, has no component, and disturbs nothing.
    pub proof fn lemma_created(self)
        requires
            self.wf(),
            self.entities.has_capacity(),
        ensures
            self.created().wf(),
            self.created().entity_exists(self.entities.next_entity()),
            self.created().components(self.entities.next_entity()) == Components::none(),
            forall|o: Entity| #[trigger] self.created().components(o) == self.components(o),
    {
        self.entities.lemma_create();
        assert forall|e: Entity| #[trigger] self.created().hidden.contains(e) implies self.created().entities.is_live(
            e,
        ) by {
            assert(self.entities.is_live(e));
        }
    }

    /// Destroying an entity leaves nothing behind: it does not exist any
    /// more, it has no component in any list, and the database stays well
    /// formed.
    pub proof fn lemma_destroyed(self, e: Entity)
        requires
            self.wf(),
        ensures
            self.destroyed(e).wf(),
            !self.destroyed(e).entity_exists(e),
            self.destroyed(e).components(e) == Components::none(),
            !self.destroyed(e).hidden.contains(e),
            forall|o: Entity|
                o != e ==> #[trigger] self.destroyed(e).components(o) == self.components(o)
                    && self.destroyed(e).entity_exists(o) == self.entity_exists(o),
    {
        if self.entities.is_live(e) {
            self.entities.lemma_destroy(e);
        }
    }

    /// A clone has the components of its source but the marker, and nothing
    /// else changes.
    pub proof fn lemma_cloned(self, source: Entity)
        requires
            self.wf(),
            self.entities.has_capacity(),
            self.entities.is_live(source),
        ensures
            self.cloned(source).wf(),
            self.entities.next_entity() != source,
            self.cloned(source).entity_exists(self.entities.next_entity()),
            self.cloned(source).components(self.entities.next_entity()) == (Components {
                marker: None,
                ..self.components(source)
            }),
            forall|o: Entity|
                o != self.entities.next_entity() ==> #[trigger] self.cloned(source).components(o)
                    == self.components(o),
    {
        self.entities.lemma_create();
        assert forall|e: Entity| #[trigger] self.cloned(source).hidden.contains(e) implies self.cloned(
            source,
        ).entities.is_live(e) by {
            assert(self.entities.is_live(e));
        }
    }

    /// A clone that takes a marker later is a persistent identity of its
    /// own: the marker is accepted only with an identifier that no other
    /// entity carries, that of the source included.
    pub proof fn lemma_marked_clone_is_distinct(self, source: Entity, id: PersistentId)
        requires
            self.wf(),
            self.entities.has_capacity(),
            self.entities.is_live(source),
            self.markers.contains_key(source),
        ensures
            !self.cloned(source).markers.contains_key(self.entities.next_entity()),
            self.cloned(source).marker_error(self.entities.next_entity(), id) is None <==> !id_in_use(
                self.markers,
                id,
            ),
            self.cloned(source).marker_error(self.entities.next_entity(), id) is None ==> {
                let after = self.cloned(source).marked(self.entities.next_entity(), id);
                &&& after.wf()
                &&& after.markers[self.entities.next_entity()].id == id
                &&& after.markers[source].id == self.markers[source].id
                &&& after.markers[source].id != id
            },
    {
        self.lemma_cloned(source);
        let copy = self.entities.next_entity();
        let during = self.cloned(source);
        if id_in_use(self.markers, id) {
            let o = choose|o: Entity| #[trigger] self.markers.contains_key(o) && self.markers[o].id == id;
            assert(during.markers.contains_key(o) && o != copy && during.markers[o].id == id);
        }
        if during.marker_error(copy, id) is None {
            during.lemma_marked(copy, id);
        }
    }

    /// Attaching a marker keeps the database well formed.
    pub proof fn lemma_marked(self, e: Entity, id: PersistentId)
        requires
            self.wf(),
        ensures
            self.marked(e, id).wf(),
    {
        if self.marker_error(e, id) is None {
            let after = self.marked(e, id);
            assert forall|a: Entity, b: Entity|
                #[trigger] after.markers.contains_key(a) && #[trigger] after.markers.contains_key(b)
                    && after.markers[a].id == after.markers[b].id implies a == b by {
                if a != b {
                    if a == e {
                        assert(self.markers.contains_key(b) && b != e && self.markers[b].id == id);
                    } else if b == e {
                        assert(self.markers.contains_key(a) && a != e && self.markers[a].id == id);
                    }
                }
            }
        }
    }
}

/// The entities that the inspector does not show.
#[derive(Debug)]
pub struct NonInspectableEntities {
    members: ComponentList<()>,
}

impl NonInspectableEntities {
    /// The members of the set.
    pub closed spec fn view(&self) -> Set<Entity> {
        self.members@.dom()
    }

    /// The set is well formed as a container.
    pub closed spec fn wf(&self) -> bool {
        self.members.wf()
    }

    /// The empty set.
    pub fn new() -> (set: Self)
        ensures
            set.wf(),
            set@ == Set::<Entity>::empty(),
    {
        let set = NonInspectableEntities { members: ComponentList::new() };
        assert(set@ =~= Set::<Entity>::empty());
        set
    }

    /// Whether `e` is in the set.
    pub fn contains(&self, e: &Entity) -> (member: bool)
        requires
            self.wf(),
        ensures
            member == self@.contains(*e),
    {
        self.members.contains(e)
    }

    /// Puts `e` into the set, unless another generation of its slot is in
    /// it.
    pub fn insert(&mut self, e: Entity)
        requires
            old(self).wf(),
        ensures
            final(self).wf(),
            final(self)@ == (if exists|o: Entity| #[trigger]
                old(self)@.contains(o) && o.index == e.index && o != e {
                old(self)@
            } else {
                old(self)@.insert(e)
            }),
    {
        let ghost before = self.members@;
        self.members.insert(e, ());
        proof {
            if index_taken_by_other(before, e) {
                let o = choose|o: Entity| #[trigger] before.contains_key(o) && o.index == e.index && o != e;
                assert(before.dom().contains(o));
            } else {
                if exists|o: Entity| #[trigger] before.dom().contains(o) && o.index == e.index && o != e {
                    let o = choose|o: Entity| #[trigger]
                        before.dom().contains(o) && o.index == e.index && o != e;
                    assert(before.contains_key(o));
                }
                assert(self@ =~= before.dom().insert(e));
            }
        }
    }

    /// Takes `e` out of the set.
    pub fn remove(&mut self, e: &Entity)
        requires
            old(self).wf(),
        ensures
            final(self).wf(),
            final(self)@ == old(self)@.remove(*e),
    {
        let ghost before = self.members@;
        self.members.remove(e);
        assert(self@ =~= before.dom().remove(*e));
    }
}

/// Owns the component lists and the entities they speak of.
#[derive(Debug)]
pub struct ComponentDatabase {
    entities: EntityAllocator,
    names: ComponentList<Name>,
    grid_objects: ComponentList<GridObject>,
    follows: ComponentList<Follow>,
    graph_nodes: ComponentList<GraphNode>,
    serialization_markers: ComponentList<SerializationMarker>,
    non_inspectable: NonInspectableEntities,
}

/// Gives `to` a copy of the component of `from`, if it has one.
fn copy_component<T: Component>(list: &mut ComponentList<T>, from: &Entity, to: Entity)
    requires
        old(list).wf(),
        !index_taken_by_other(old(list)@, to),
    ensures
        final(list).wf(),
        final(list)@ == copied(old(list)@, *from, to),
{
    let copy = match list.get(from) {
        Some(value) => Some(value.duplicate()),
        None => None,
    };
    if let Some(value) = copy {
        list.insert(to, value);
    }
}

impl ComponentDatabase {
    /// The mathematical state of the database.
    pub closed spec fn view(&self) -> DatabaseState {
        DatabaseState {
            entities: self.entities@,
            names: self.names@,
            grid_objects: self.grid_objects@,
            follows: self.follows@,
            graph_nodes: self.graph_nodes@,
            markers: self.serialization_markers@,
            hidden: self.non_inspectable@,
        }
    }

    /// The lists are well formed as containers.
    pub closed spec fn lists_wf(&self) -> bool {
        &&& self.names.wf()
        &&& self.grid_objects.wf()
        &&& self.follows.wf()
        &&& self.graph_nodes.wf()
        &&& self.serialization_markers.wf()
        &&& self.non_inspectable.wf()
    }

    /// The lists are well formed and speak of live entities only, and no
    /// two markers share an identifier.
    pub open spec fn wf(&self) -> bool {
        self.lists_wf() && self@.wf()
    }

    /// A live entity is the only one that can sit in its slot of a list.
    proof fn lemma_slot_is_ours<T>(entities: AllocatorState, m: Map<Entity, T>, e: Entity)
        requires
            only_live(entities, m),
            entities.is_live(e),
        ensures
            !index_taken_by_other(m, e),
    {
        if index_taken_by_other(m, e) {
            let o = choose|o: Entity| #[trigger] m.contains_key(o) && o.index == e.index && o != e;
            assert(entities.is_live(o));
        }
    }

    /// A database without entities.
    pub fn new() -> (database: Self)
        ensures
            database.wf(),
            database@ == DatabaseState::empty(),
    {
        ComponentDatabase {
            entities: EntityAllocator::new(),
            names: ComponentList::new(),
            grid_objects: ComponentList::new(),
            follows: ComponentList::new(),
            graph_nodes: ComponentList::new(),
            serialization_markers: ComponentList::new(),
            non_inspectable: NonInspectableEntities::new(),
        }
    }

    /// Whether `e` is a live entity of this database.
    pub fn entity_exists(&self, e: Entity) -> (exists: bool)
        ensures
            exists == self@.entity_exists(e),
    {
        self.entities.is_live(e)
    }

    /// Whether another entity can be created.
    pub fn has_capacity(&self) -> (room: bool)
        ensures
            room == self@.entities.has_capacity(),
    {
        self.entities.has_capacity()
    }

    /// The number of slots handed out so far, live or not.
    pub fn slot_count(&self) -> (count: usize)
        ensures
            count == self@.entities.generations.len(),
    {
        self.entities.slot_count()
    }

    /// The live entity in slot `index`, if there is one.
    pub fn live_at(&self, index: usize) -> (found: Option<Entity>)
        requires
            self.wf(),
        ensures
            found == self@.entities.live_at(index as int),
    {
        self.entities.live_at(index)
    }

    /// The live entities in slot order.
    pub fn entities(&self) -> (listed: Vec<Entity>)
        requires
            self.wf(),
        ensures
            self@.lists_live_entities(listed@),
    {
        let mut listed: Vec<Entity> = Vec::new();
        let count = self.entities.slot_count();
        let mut i: usize = 0;
        while i < count
            invariant
                self.wf(),
                count == self@.entities.generations.len(),
                i <= count,
                forall|a: int, b: int|
                    0 <= a < b < listed.len() ==> (#[trigger] listed[a]).index < (#[trigger] listed[b]).index,
                forall|a: int|
                    0 <= a < listed.len() ==> self@.entities.is_live(#[trigger] listed[a]) && listed[a].index
                        < i,
                forall|e: Entity| #[trigger]
                    self@.entities.is_live(e) && e.index < i ==> listed@.contains(e),
            decreases count - i,
        {
            let ghost prior = listed@;
            if let Some(e) = self.entities.live_at(i) {
                listed.push(e);
                assert(listed@[listed.len() - 1] == e);
                assert forall|h: Entity| #[trigger]
                    self@.entities.is_live(h) && h.index < i + 1 implies listed@.contains(h) by {
                    if h.index < i {
                        let k = choose|k: int| 0 <= k < prior.len() && prior[k] == h;
                        assert(listed@[k] == h);
                    } else {
                        assert(h == e);
                    }
                }
            }
            i += 1;
        }
        listed
    }

    /// Creates an entity without components.
    pub fn create_entity(&mut self) -> (e: Entity)
        requires
            old(self).wf(),
            old(self)@.entities.has_capacity(),
        ensures
            final(self).wf(),
            e == old(self)@.entities.next_entity(),
            final(self)@ == old(self)@.created(),
            !old(self)@.entities.was_issued(e),
            final(self)@.entity_exists(e),
            final(self)@.components(e) == Components::none(),
    {
        proof {
            self@.lemma_created();
        }
        self.entities.create()
    }

    /// Destroys `e`: removes its component from every list, takes it out
    /// of the hidden entities and makes the handle stale. Fails, and changes
    /// nothing, where `e` is stale already.
    pub fn destroy_entity(&mut self, e: Entity) -> (outcome: Result<(), InvalidHandle>)
        requires
            old(self).wf(),
        ensures
            final(self).wf(),
            outcome is Ok == old(self)@.entity_exists(e),
            outcome is Err ==> outcome == Err::<(), InvalidHandle>(InvalidHandle { entity: e }),
            final(self)@ == old(self)@.destroyed(e),
            !final(self)@.entity_exists(e),
            final(self)@.components(e) == Components::none(),
    {
        proof {
            self@.lemma_destroyed(e);
        }
        if !self.entities.is_live(e) {
            return Err(InvalidHandle { entity: e });
        }
        self.names.remove(&e);
        self.grid_objects.remove(&e);
        self.follows.remove(&e);
        self.graph_nodes.remove(&e);
        self.serialization_markers.remove(&e);
        self.non_inspectable.remove(&e);
        self.entities.destroy(e)
    }

    /// Clones `source` into a new entity, which gets a copy of every
    /// component of `source` but the marker. Returns the new entity, or
    /// nothing where `source` is stale.
    pub fn clone_entity(&mut self, source: Entity) -> (copy: Option<Entity>)
        requires
            old(self).wf(),
            old(self)@.entities.has_capacity(),
        ensures
            final(self).wf(),
            copy is Some == old(self)@.entity_exists(source),
            copy is None ==> final(self)@ == old(self)@,
            copy is Some ==> {
                &&& copy.unwrap() == old(self)@.entities.next_entity()
                &&& final(self)@ == old(self)@.cloned(source)
                &&& final(self)@.entity_exists(copy.unwrap())
                &&& final(self)@.components(copy.unwrap()) == (Components {
                    marker: None,
                    ..old(self)@.components(source)
                })
            },
    {
        if !self.entities.is_live(source) {
            return None;
        }
        proof {
            self@.lemma_cloned(source);
            self@.entities.lemma_create();
        }
        let ghost before = self@;
        let copy = self.entities.create();
        proof {
            Self::lemma_slot_is_ours(self@.entities, self@.names, copy);
            Self::lemma_slot_is_ours(self@.entities, self@.grid_objects, copy);
            Self::lemma_slot_is_ours(self@.entities, self@.follows, copy);
            Self::lemma_slot_is_ours(self@.entities, self@.graph_nodes, copy);
        }
        copy_component(&mut self.names, &source, copy);
        copy_component(&mut self.grid_objects, &source, copy);
        copy_component(&mut self.follows, &source, copy);
        copy_component(&mut self.graph_nodes, &source, copy);
        assert(self@ == before.cloned(source));
        Some(copy)
    }

    /// Whether the inspector leaves `e` out.
    pub fn is_hidden_from_inspector(&self, e: Entity) -> (hidden: bool)
        requires
            self.wf(),
        ensures
            hidden == self@.hidden.contains(e),
    {
        self.non_inspectable.contains(&e)
    }

    /// Makes the inspector leave `e` out. A stale `e` changes nothing.
    pub fn hide_from_inspector(&mut self, e: Entity)
        requires
            old(self).wf(),
        ensures
            final(self).wf(),
            final(self)@ == (if old(self)@.entity_exists(e) {
                DatabaseState { hidden: old(self)@.hidden.insert(e), ..old(self)@ }
            } else {
                old(self)@
            }),
    {
        if self.entities.is_live(e) {
            self.non_inspectable.insert(e);
        }
    }

    /// Makes the inspector show `e` again.
    pub fn show_in_inspector(&mut self, e: Entity)
        requires
            old(self).wf(),
        ensures
            final(self).wf(),
            final(self)@ == (DatabaseState { hidden: old(self)@.hidden.remove(e), ..old(self)@ }),
    {
        self.non_inspectable.remove(&e);
    }

    /// The names.
    pub fn names(&self) -> (list: &ComponentList<Name>)
        requires
            self.wf(),
        ensures
            list.wf(),
            list@ == self@.names,
    {
        &self.names
    }

    /// The grid objects.
    pub fn grid_objects(&self) -> (list: &ComponentList<GridObject>)
        requires
            self.wf(),
        ensures
            list.wf(),
            list@ == self@.grid_objects,
    {
        &self.grid_objects
    }

    /// The followers.
    pub fn follows(&self) -> (list: &ComponentList<Follow>)
        requires
            self.wf(),
        ensures
            list.wf(),
            list@ == self@.follows,
    {
        &self.follows
    }

    /// The graph nodes.
    pub fn graph_nodes(&self) -> (list: &ComponentList<GraphNode>)
        requires
            self.wf(),
        ensures
            list.wf(),
            list@ == self@.graph_nodes,
    {
        &self.graph_nodes
    }

    /// The serialization markers.
    pub fn serialization_markers(&self) -> (list: &ComponentList<SerializationMarker>)
        requires
            self.wf(),
        ensures
            list.wf(),
            list@ == self@.markers,
    {
        &self.serialization_markers
    }

    /// The name of `e` for writing, if it has one.
    pub fn name_mut(&mut self, e: Entity) -> (found: Option<&mut Name>)
        requires
            old(self).wf(),
        ensures
            found is Some == old(self)@.names.contains_key(e),
            found is Some ==> *found.unwrap() == old(self)@.names[e] && final(self)@ == (DatabaseState {
                names: old(self)@.names.insert(e, *final(found.unwrap())),
                ..old(self)@
            }),
            found is None ==> final(self)@ == old(self)@,
            final(self).wf(),
    {
        self.names.get_mut(&e)
    }

    /// The grid object of `e` for writing, if it has one.
    pub fn grid_object_mut(&mut self, e: Entity) -> (found: Option<&mut GridObject>)
        requires
            old(self).wf(),
        ensures
            found is Some == old(self)@.grid_objects.contains_key(e),
            found is Some ==> *found.unwrap() == old(self)@.grid_objects[e] && final(self)@ == (DatabaseState {
                grid_objects: old(self)@.grid_objects.insert(e, *final(found.unwrap())),
                ..old(self)@
            }),
            found is None ==> final(self)@ == old(self)@,
            final(self).wf(),
    {
        self.grid_objects.get_mut(&e)
    }

    /// The follower of `e` for writing, if it has one.
    pub fn follow_mut(&mut self, e: Entity) -> (found: Option<&mut Follow>)
        requires
            old(self).wf(),
        ensures
            found is Some == old(self)@.follows.contains_key(e),
            found is Some ==> *found.unwrap() == old(self)@.follows[e] && final(self)@ == (DatabaseState {
                follows: old(self)@.follows.insert(e, *final(found.unwrap())),
                ..old(self)@
            }),
            found is None ==> final(self)@ == old(self)@,
            final(self).wf(),
    {
        self.follows.get_mut(&e)
    }

    /// The graph node of `e` for writing, if it has one.
    pub fn graph_node_mut(&mut self, e: Entity) -> (found: Option<&mut GraphNode>)
        requires
            old(self).wf(),
        ensures
            found is Some == old(self)@.graph_nodes.contains_key(e),
            found is Some ==> *found.unwrap() == old(self)@.graph_nodes[e] && final(self)@ == (DatabaseState {
                graph_nodes: old(self)@.graph_nodes.insert(e, *final(found.unwrap())),
                ..old(self)@
            }),
            found is None ==> final(self)@ == old(self)@,
            final(self).wf(),
    {
        self.graph_nodes.get_mut(&e)
    }

    /// Gives the live entity `e` the name `value` and returns the name it
    /// had. A stale `e` changes nothing.
    pub fn insert_name(&mut self, e: Entity, value: Name) -> (previous: Option<Name>)
        requires
            old(self).wf(),
        ensures
            final(self).wf(),
            final(self)@ == (if old(self)@.entity_exists(e) {
                DatabaseState { names: old(self)@.names.insert(e, value), ..old(self)@ }
            } else {
                old(self)@
            }),
            previous == old(self)@.names.get(e),
    {
        if self.entities.is_live(e) {
            proof {
                Self::lemma_slot_is_ours(self@.entities, self@.names, e);
            }
            self.names.insert(e, value)
        } else {
            None
        }
    }

    /// Takes the name of `e` away and returns it.
    pub fn remove_name(&mut self, e: Entity) -> (removed: Option<Name>)
        requires
            old(self).wf(),
        ensures
            final(self).wf(),
            final(self)@ == (DatabaseState { names: old(self)@.names.remove(e), ..old(self)@ }),
            removed == old(self)@.names.get(e),
    {
        self.names.remove(&e)
    }

    /// Gives the live entity `e` the grid object `value` and returns the
    /// one it had. A stale `e` changes nothing.
    pub fn insert_grid_object(&mut self, e: Entity, value: GridObject) -> (previous: Option<GridObject>)
        requires
            old(self).wf(),
        ensures
            final(self).wf(),
            final(self)@ == (if old(self)@.entity_exists(e) {
                DatabaseState { grid_objects: old(self)@.grid_objects.insert(e, value), ..old(self)@ }
            } else {
                old(self)@
            }),
            previous == old(self)@.grid_objects.get(e),
    {
        if self.entities.is_live(e) {
            proof {
                Self::lemma_slot_is_ours(self@.entities, self@.grid_objects, e);
            }
            self.grid_objects.insert(e, value)
        } else {
            None
        }
    }

    /// Takes the grid object of `e` away and returns it.
    pub fn remove_grid_object(&mut self, e: Entity) -> (removed: Option<GridObject>)
        requires
            old(self).wf(),
        ensures
            final(self).wf(),
            final(self)@ == (DatabaseState {
                grid_objects: old(self)@.grid_objects.remove(e),
                ..old(self)@
            }),
            removed == old(self)@.grid_objects.get(e),
    {
        self.grid_objects.remove(&e)
    }

    /// Gives the live entity `e` the follower `value` and returns the one
    /// it had. A stale `e` changes nothing.
    pub fn insert_follow(&mut self, e: Entity, value: Follow) -> (previous: Option<Follow>)
        requires
            old(self).wf(),
        ensures
            final(self).wf(),
            final(self)@ == (if old(self)@.entity_exists(e) {
                DatabaseState { follows: old(self)@.follows.insert(e, value), ..old(self)@ }
            } else {
                old(self)@
            }),
            previous == old(self)@.follows.get(e),
    {
        if self.entities.is_live(e) {
            proof {
                Self::lemma_slot_is_ours(self@.entities, self@.follows, e);
            }
            self.follows.insert(e, value)
        } else {
            None
        }
    }

    /// Takes the follower of `e` away and returns it.
    pub fn remove_follow(&mut self, e: Entity) -> (removed: Option<Follow>)
        requires
            old(self).wf(),
        ensures
            final(self).wf(),
            final(self)@ == (DatabaseState { follows: old(self)@.follows.remove(e), ..old(self)@ }),
            removed == old(self)@.follows.get(e),
    {
        self.follows.remove(&e)
    }

    /// Gives the live entity `e` the graph node `value` and returns the one
    /// it had. A stale `e` changes nothing.
    pub fn insert_graph_node(&mut self, e: Entity, value: GraphNode) -> (previous: Option<GraphNode>)
        requires
            old(self).wf(),
        ensures
            final(self).wf(),
            final(self)@ == (if old(self)@.entity_exists(e) {
                DatabaseState { graph_nodes: old(self)@.graph_nodes.insert(e, value), ..old(self)@ }
            } else {
                old(self)@
            }),
            previous == old(self)@.graph_nodes.get(e),
    {
        if self.entities.is_live(e) {
            proof {
                Self::lemma_slot_is_ours(self@.entities, self@.graph_nodes, e);
            }
            self.graph_nodes.insert(e, value)
        } else {
            None
        }
    }

    /// Takes the graph node of `e` away and returns it.
    pub fn remove_graph_node(&mut self, e: Entity) -> (removed: Option<GraphNode>)
        requires
            old(self).wf(),
        ensures
            final(self).wf(),
            final(self)@ == (DatabaseState {
                graph_nodes: old(self)@.graph_nodes.remove(e),
                ..old(self)@
            }),
            removed == old(self)@.graph_nodes.get(e),
    {
        self.graph_nodes.remove(&e)
    }

    /// Gives the live entity `e` a marker with the identifier `id` and
    /// returns the marker it had. Refuses, and changes nothing, where `e` is
    /// stale or another entity carries `id`.
    pub fn insert_serialization_marker(&mut self, e: Entity, id: PersistentId) -> (outcome: Result<
        Option<SerializationMarker>,
        MarkerError,
    >)
        requires
            old(self).wf(),
        ensures
            final(self).wf(),
            final(self)@ == old(self)@.marked(e, id),
            match outcome {
                Ok(previous) => old(self)@.marker_error(e, id) is None && previous == old(
                    self,
                )@.markers.get(e),
                Err(error) => old(self)@.marker_error(e, id) == Some(error),
            },
    {
        proof {
            self@.lemma_marked(e, id);
        }
        if !self.entities.is_live(e) {
            return Err(MarkerError::StaleHandle);
        }
        let holder = find_entity_with_id(&self.serialization_markers, id);
        let taken = match holder {
            Some(o) => o.index != e.index || o.generation != e.generation,
            None => false,
        };
        proof {
            let markers = self@.markers;
            if !taken && id_used_by_other(markers, e, id) {
                let o = choose|o: Entity| #[trigger] markers.contains_key(o) && o != e && markers[o].id == id;
                assert(holder == Some(e));
            }
        }
        if taken {
            return Err(MarkerError::DuplicatePersistentId);
        }
        proof {
            Self::lemma_slot_is_ours(self@.entities, self@.markers, e);
        }
        Ok(self.serialization_markers.insert(e, SerializationMarker::with_id(id)))
    }

    /// Gives the live entity `e` a marker with a fresh random identifier
    /// and returns the identifier. Refuses, and changes nothing, where `e`
    /// is stale or where the identifier drawn is one that another entity
    /// carries already; the latter cannot happen while no other entity
    /// carries a marker.
    pub fn mark_for_serialization(&mut self, e: Entity) -> (outcome: Result<PersistentId, MarkerError>)
        requires
            old(self).wf(),
        ensures
            final(self).wf(),
            match outcome {
                Ok(id) => is_random_uuid_value(id.value) && old(self)@.marker_error(e, id) is None
                    && final(self)@ == old(self)@.marked(e, id),
                Err(error) => final(self)@ == old(self)@ && exists|id: PersistentId|
                    is_random_uuid_value(id.value) && #[trigger] old(self)@.marker_error(e, id) == Some(
                        error,
                    ),
            },
            !old(self)@.entity_exists(e) ==> outcome == Err::<PersistentId, MarkerError>(
                MarkerError::StaleHandle,
            ),
            old(self)@.entity_exists(e) && (forall|o: Entity| #[trigger]
                old(self)@.markers.contains_key(o) ==> o == e) ==> outcome is Ok,
    {
        let id = PersistentId::generate();
        match self.insert_serialization_marker(e, id) {
            Ok(_) => Ok(id),
            Err(error) => Err(error),
        }
    }

    /// Takes the marker of `e` away and returns it.
    pub fn remove_serialization_marker(&mut self, e: Entity) -> (removed: Option<SerializationMarker>)
        requires
            old(self).wf(),
        ensures
            final(self).wf(),
            final(self)@ == (DatabaseState { markers: old(self)@.markers.remove(e), ..old(self)@ }),
            removed == old(self)@.markers.get(e),
    {
        self.serialization_markers.remove(&e)
    }
}

} // verus!
