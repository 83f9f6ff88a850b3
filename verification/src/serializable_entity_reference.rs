//! References from one entity to another that survive a save and a load.

use vstd::prelude::*;
use crate::component_list::ComponentList;
use crate::entity::Entity;
use crate::persistent_id::{
    entity_with_id, find_entity_with_id, id_in_use, is_first_with_id, lemma_entity_with_id, PersistentId,
    SerializationMarker,
};

verus! {

/// A weak reference to another entity, in two forms: the handle, which
/// counts while the database is live, and the persistent identifier of the
/// target, which counts in a saved file.
#[derive(Clone, Copy, Debug, PartialEq, Eq, Structural, Hash)]
pub struct SerializableEntityReference {
    pub target: Option<Entity>,
    pub target_serialized_id: Option<PersistentId>,
}

/// The persistent identifier of `target`: that of its marker, where it is
/// an entity that carries one.
pub open spec fn persistent_id_of(
    markers: Map<Entity, SerializationMarker>,
    target: Option<Entity>,
) -> Option<PersistentId> {
    if target is Some && markers.contains_key(target.unwrap()) {
        Some(markers[target.unwrap()].id)
    } else {
        None
    }
}

impl SerializableEntityReference {
    /// The reference that points nowhere.
    pub open spec fn empty() -> SerializableEntityReference {
        SerializableEntityReference { target: None, target_serialized_id: None }
    }

    /// The reference made ready for saving: it keeps its target and takes
    /// the target's persistent identifier, or becomes empty where the target
    /// has none.
    pub open spec fn externalized(self, markers: Map<Entity, SerializationMarker>) -> SerializableEntityReference {
        if persistent_id_of(markers, self.target) is Some {
            SerializableEntityReference {
                target: self.target,
                target_serialized_id: persistent_id_of(markers, self.target),
            }
        } else {
            SerializableEntityReference::empty()
        }
    }

    /// The target that saving has to drop because it carries no marker.
    pub open spec fn dangling_target(self, markers: Map<Entity, SerializationMarker>) -> Option<Entity> {
        if self.target is Some && !markers.contains_key(self.target.unwrap()) {
            self.target
        } else {
            None
        }
    }

    /// The reference after loading: it keeps its persistent identifier and
    /// points at the entity that the identifier names, or becomes empty
    /// where the identifier names none.
    pub open spec fn internalized(self, markers: Map<Entity, SerializationMarker>) -> SerializableEntityReference {
        if self.target_serialized_id is Some && entity_with_id(
            markers,
            self.target_serialized_id.unwrap(),
        ) is Some {
            SerializableEntityReference {
                target: entity_with_id(markers, self.target_serialized_id.unwrap()),
                target_serialized_id: self.target_serialized_id,
            }
        } else {
            SerializableEntityReference::empty()
        }
    }

    /// The persistent identifier that loading has to drop because no entity
    /// carries it.
    pub open spec fn unresolved_id(self, markers: Map<Entity, SerializationMarker>) -> Option<PersistentId> {
        if self.target_serialized_id is Some && entity_with_id(
            markers,
            self.target_serialized_id.unwrap(),
        ) is None {
            self.target_serialized_id
        } else {
            None
        }
    }

    /// The outcome of an edit in which the selection widget handed back
    /// `selection`: a pick becomes the target, the empty pick included, and
    /// the persistent identifier stays as it is; no pick changes nothing.
    pub open spec fn selected(self, selection: Option<Option<Entity>>) -> SerializableEntityReference {
        match selection {
            Some(pick) => SerializableEntityReference { target: pick, ..self },
            None => self,
        }
    }

    /// A reference that is ready for saving carries a persistent identifier
    /// exactly where it has a target and the target carries a marker; then
    /// the identifier is that of the marker and the target is kept. In every
    /// other case the reference is empty. Making it ready twice changes
    /// nothing more.
    pub proof fn lemma_externalized(self, markers: Map<Entity, SerializationMarker>)
        ensures
            self.externalized(markers).target_serialized_id is Some <==> self.target is Some
                && markers.contains_key(self.target.unwrap()),
            self.externalized(markers).target_serialized_id is Some ==> self.externalized(markers)
                == (SerializableEntityReference {
                target: self.target,
                target_serialized_id: Some(markers[self.target.unwrap()].id),
            }),
            self.externalized(markers).target_serialized_id is None ==> self.externalized(markers)
                == SerializableEntityReference::empty(),
            self.externalized(markers).externalized(markers) == self.externalized(markers),
            self.externalized(markers).dangling_target(markers) is None,
    {
    }

    /// A reference that was resolved has a target exactly where it had a
    /// persistent identifier and an entity carries it; then the target is
    /// the first such entity in slot order and the identifier is kept. In
    /// every other case the reference is empty.
    pub proof fn lemma_internalized(self, markers: Map<Entity, SerializationMarker>)
        ensures
            self.internalized(markers).target is Some <==> self.target_serialized_id is Some && id_in_use(
                markers,
                self.target_serialized_id.unwrap(),
            ),
            self.internalized(markers).target is Some ==> is_first_with_id(
                markers,
                self.target_serialized_id.unwrap(),
                self.internalized(markers).target.unwrap(),
            ) && self.internalized(markers).target_serialized_id == self.target_serialized_id,
            self.internalized(markers).target is None ==> self.internalized(markers)
                == SerializableEntityReference::empty(),
            self.internalized(markers).unresolved_id(markers) is None,
    {
        if self.target_serialized_id is Some {
            lemma_entity_with_id(markers, self.target_serialized_id.unwrap());
        }
    }

    /// A reference to `entity_id` that has not been made ready for saving.
    pub fn new(entity_id: Entity) -> (reference: Self)
        ensures
            reference == (SerializableEntityReference { target: Some(entity_id), target_serialized_id: None }),
    {
        Self { target: Some(entity_id), target_serialized_id: None }
    }

    /// The reference that points nowhere.
    pub fn blank() -> (reference: Self)
        ensures
            reference == SerializableEntityReference::empty(),
    {
        SerializableEntityReference { target: None, target_serialized_id: None }
    }

    /// A reference as it comes out of a file: it names its target by
    /// persistent identifier only.
    pub fn from_serialized_id(id: Option<PersistentId>) -> (reference: Self)
        ensures
            reference == (SerializableEntityReference { target: None, target_serialized_id: id }),
    {
        SerializableEntityReference { target: None, target_serialized_id: id }
    }

    /// A reference to `maybe_entity` together with the persistent identifier
    /// that the entity has in `serialized_data`, if any.
    pub fn from_entity_id(
        maybe_entity: Option<Entity>,
        serialized_data: &ComponentList<SerializationMarker>,
    ) -> (reference: Self)
        requires
            serialized_data.wf(),
        ensures
            reference.target == maybe_entity,
            reference.target_serialized_id == persistent_id_of(serialized_data@, maybe_entity),
    {
        if let Some(entity) = maybe_entity {
            let id = match serialized_data.get(&entity) {
                Some(marker) => Some(marker.id),
                None => None,
            };
            SerializableEntityReference { target_serialized_id: id, target: Some(entity) }
        } else {
            SerializableEntityReference { target: None, target_serialized_id: None }
        }
    }

    /// The persistent identifier of the target, as last computed.
    pub fn target_serialized_id(&self) -> (id: Option<PersistentId>)
        ensures
            id == self.target_serialized_id,
    {
        self.target_serialized_id
    }

    /// Makes the reference ready for saving: computes the persistent
    /// identifier from the target. Where the target carries no marker the
    /// reference becomes empty and the dropped target is returned, so that
    /// the caller can report it.
    pub fn entity_id_to_serialized_refs(
        &mut self,
        serialized_list: &ComponentList<SerializationMarker>,
    ) -> (dropped: Option<Entity>)
        requires
            serialized_list.wf(),
        ensures
            *final(self) == old(self).externalized(serialized_list@),
            dropped == old(self).dangling_target(serialized_list@),
    {
        match self.target {
            Some(target) => {
                match serialized_list.get(&target) {
                    Some(marker) => {
                        self.target_serialized_id = Some(marker.id);
                        None
                    },
                    None => {
                        self.target = None;
                        self.target_serialized_id = None;
                        Some(target)
                    },
                }
            },
            None => {
                self.target_serialized_id = None;
                None
            },
        }
    }

    /// Resolves the persistent identifier to the entity that carries it in
    /// `serialization_marker`. Where no entity does, the reference becomes
    /// empty and the dropped identifier is returned, so that the caller can
    /// report it.
    pub fn serialized_refs_to_entity_id(
        &mut self,
        serialization_marker: &ComponentList<SerializationMarker>,
    ) -> (dropped: Option<PersistentId>)
        requires
            serialization_marker.wf(),
        ensures
            *final(self) == old(self).internalized(serialization_marker@),
            dropped == old(self).unresolved_id(serialization_marker@),
    {
        match self.target_serialized_id {
            Some(id) => {
                self.target = find_entity_with_id(serialization_marker, id);
                if self.target.is_none() {
                    self.target_serialized_id = None;
                    Some(id)
                } else {
                    None
                }
            },
            None => {
                self.target = None;
                None
            },
        }
    }

    /// Writes the target that the user picked in an editor. `selection` is
    /// what the selection widget handed back: nothing where the user picked
    /// nothing, else the new target, which may be none. Returns whether the
    /// target was written.
    pub fn inspect(&mut self, selection: Option<Option<Entity>>) -> (written: bool)
        ensures
            *final(self) == old(self).selected(selection),
            written == selection is Some,
    {
        match selection {
            Some(pick) => {
                self.target = pick;
                true
            },
            None => false,
        }
    }
}

impl Default for SerializableEntityReference {
    fn default() -> (reference: Self)
        ensures
            reference == SerializableEntityReference::empty(),
    {
        SerializableEntityReference { target: None, target_serialized_id: None }
    }
}

} // verus!
