//! Entity-component storage with references that survive a save and a load.
//!
//! - [`entity`]: entity handles (slot index and generation) and the
//!   allocator that tells live handles from stale ones.
//! - [`component_list`]: the sparse store of the components of one type.
//! - [`components`]: the component types, and the records that a scene file
//!   holds of them.
//! - [`database`]: one list per component type and the life of the entities:
//!   create, destroy, clone.
//! - [`persistent_id`]: persistent identifiers and the marker component.
//! - [`serializable_entity_reference`]: references between entities, by
//!   handle while live and by persistent identifier when saved.
//! - [`serialization`]: saving a database to records and loading records.
//! - [`round_trip`]: what saving and loading preserve.
//! - [`vec2int`], [`camera`]: integer vectors and the camera modes.

pub mod camera;
pub mod component_list;
pub mod components;
pub mod database;
pub mod entity;
pub mod persistent_id;
pub mod round_trip;
pub mod serializable_entity_reference;
pub mod serialization;
pub mod vec2int;

pub use camera::CameraMode;
pub use component_list::ComponentList;
pub use components::{Component, EntityRecord, Follow, FollowRecord, GraphNode, GraphNodeRecord, GridObject, Name};
pub use database::{ComponentDatabase, MarkerError, NonInspectableEntities};
pub use entity::{Entity, EntityAllocator, InvalidHandle};
pub use persistent_id::{PersistentId, SerializationMarker};
pub use serializable_entity_reference::SerializableEntityReference;
pub use serialization::{Diagnostic, LoadError, LoadOutput, SaveOutput};
pub use vec2int::{Axis, Vec2Int};
