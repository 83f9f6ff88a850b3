//! The component types that a database stores.

use vstd::prelude::*;
use crate::persistent_id::PersistentId;
use crate::serializable_entity_reference::SerializableEntityReference;
use crate::vec2int::Vec2Int;

verus! {

/// What every component type offers to the database.
pub trait Component: Sized {
    /// A deep copy of the component.
    fn duplicate(&self) -> (copy: Self)
        ensures
            copy == *self,
    ;
}

/// The name under which an entity is listed.
#[derive(Clone, Debug, PartialEq, Eq, Hash)]
pub struct Name {
    pub name: String,
}

impl Name {
    /// The name component that holds `name`.
    pub fn new(name: String) -> (component: Name)
        ensures
            component.name == name,
    {
        Name { name }
    }
}

impl Component for Name {
    fn duplicate(&self) -> (copy: Name) {
        Name { name: self.name.clone() }
    }
}

/// The cell that an entity occupies on the grid.
#[derive(Clone, Copy, Debug, PartialEq, Eq, Structural, Hash)]
pub struct GridObject {
    pub position: Vec2Int,
}

impl Component for GridObject {
    fn duplicate(&self) -> (copy: GridObject) {
        *self
    }
}

/// Makes an entity follow another one at an offset.
#[derive(Clone, Copy, Debug, PartialEq, Eq, Structural, Hash)]
pub struct Follow {
    pub target: SerializableEntityReference,
    pub offset: Vec2Int,
}

impl Component for Follow {
    fn duplicate(&self) -> (copy: Follow) {
        *self
    }
}

/// A node of a path: the entities before and after this one.
#[derive(Clone, Copy, Debug, PartialEq, Eq, Structural, Hash)]
pub struct GraphNode {
    pub previous: SerializableEntityReference,
    pub next: SerializableEntityReference,
}

impl Component for GraphNode {
    fn duplicate(&self) -> (copy: GraphNode) {
        *self
    }
}

/// A `Follow` component as a file holds it: the target is named by its
/// persistent identifier.
#[derive(Clone, Copy, Debug, PartialEq, Eq, Structural, Hash)]
pub struct FollowRecord {
    pub target: Option<PersistentId>,
    pub offset: Vec2Int,
}

/// A `GraphNode` component as a file holds it.
#[derive(Clone, Copy, Debug, PartialEq, Eq, Structural, Hash)]
pub struct GraphNodeRecord {
    pub previous: Option<PersistentId>,
    pub next: Option<PersistentId>,
}

/// One saved entity: its persistent identifier and the components it had.
#[derive(Clone, Debug, PartialEq, Eq)]
pub struct EntityRecord {
    pub persistent_id: PersistentId,
    pub name: Option<Name>,
    pub grid_object: Option<GridObject>,
    pub follow: Option<FollowRecord>,
    pub graph_node: Option<GraphNodeRecord>,
}

impl Follow {
    /// The component as it is in memory right after reading `record`: the
    /// reference names its target by persistent identifier only.
    pub open spec fn of_record(record: FollowRecord) -> Follow {
        Follow {
            target: SerializableEntityReference { target: None, target_serialized_id: record.target },
            offset: record.offset,
        }
    }

    /// Builds the component from what a file holds.
    pub fn from_record(record: &FollowRecord) -> (component: Follow)
        ensures
            component == Follow::of_record(*record),
    {
        Follow {
            target: SerializableEntityReference::from_serialized_id(record.target),
            offset: record.offset,
        }
    }

    /// What a file holds of the component: the persistent identifier of the
    /// reference as last computed.
    pub open spec fn as_record(self) -> FollowRecord {
        FollowRecord { target: self.target.target_serialized_id, offset: self.offset }
    }

    /// Writes the component down for a file.
    pub fn to_record(&self) -> (record: FollowRecord)
        ensures
            record == self.as_record(),
    {
        FollowRecord { target: self.target.target_serialized_id(), offset: self.offset }
    }
}

impl GraphNode {
    /// The component as it is in memory right after reading `record`.
    pub open spec fn of_record(record: GraphNodeRecord) -> GraphNode {
        GraphNode {
            previous: SerializableEntityReference { target: None, target_serialized_id: record.previous },
            next: SerializableEntityReference { target: None, target_serialized_id: record.next },
        }
    }

    /// Builds the component from what a file holds.
    pub fn from_record(record: &GraphNodeRecord) -> (component: GraphNode)
        ensures
            component == GraphNode::of_record(*record),
    {
        GraphNode {
            previous: SerializableEntityReference::from_serialized_id(record.previous),
            next: SerializableEntityReference::from_serialized_id(record.next),
        }
    }

    /// What a file holds of the component.
    pub open spec fn as_record(self) -> GraphNodeRecord {
        GraphNodeRecord {
            previous: self.previous.target_serialized_id,
            next: self.next.target_serialized_id,
        }
    }

    /// Writes the component down for a file.
    pub fn to_record(&self) -> (record: GraphNodeRecord)
        ensures
            record == self.as_record(),
    {
        GraphNodeRecord {
            previous: self.previous.target_serialized_id(),
            next: self.next.target_serialized_id(),
        }
    }
}

} // verus!
