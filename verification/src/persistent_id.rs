//! Persistent identifiers and the marker component that carries one.

use vstd::prelude::*;
use crate::component_list::{ComponentList, in_slot_order, one_per_index};
use crate::entity::Entity;

verus! {

/// An identifier that names an entity across runs. It holds the 128 bits of
/// a UUID.
#[derive(Clone, Copy, Debug, PartialEq, Eq, Structural, Hash)]
pub struct PersistentId {
    pub value: u128,
}

/// The bits that tell the version and the variant of a UUID.
pub const VERSION_AND_VARIANT_MASK: u128 = 0x0000_0000_0000_f000_c000_0000_0000_0000;

/// Version 4 (random) in the layout of RFC 9562.
pub const RANDOM_VERSION_AND_VARIANT: u128 = 0x0000_0000_0000_4000_8000_0000_0000_0000;

/// `value` is laid out as a random (version 4) UUID.
pub open spec fn is_random_uuid_value(value: u128) -> bool {
    value & VERSION_AND_VARIANT_MASK == RANDOM_VERSION_AND_VARIANT
}

/// Draws a random UUID with `uuid::Uuid::new_v4` and returns its 128 bits as
/// `uuid::Uuid::as_u128` packs them.
///
/// Trusted: the crate sets the version bits to 4 and the variant bits to
/// binary 10 in every value it returns; nothing else is claimed of the
/// result. The call aborts if the operating system cannot supply random bytes.
#[verifier::external_body]
fn random_uuid_value() -> (value: u128)
    ensures
        is_random_uuid_value(value),
{
    uuid::Uuid::new_v4().as_u128()
}

impl PersistentId {
    /// The identifier with the given 128 bits.
    pub fn from_value(value: u128) -> (id: PersistentId)
        ensures
            id == (PersistentId { value }),
    {
        PersistentId { value }
    }

    /// The 128 bits of the identifier.
    pub fn value(&self) -> (value: u128)
        ensures
            value == self.value,
    {
        self.value
    }

    /// A fresh random identifier.
    pub fn generate() -> (id: PersistentId)
        ensures
            is_random_uuid_value(id.value),
    {
        PersistentId { value: random_uuid_value() }
    }
}

/// The component that gives an entity its persistent identity. Only
/// entities that carry one are saved.
#[derive(Clone, Copy, Debug, PartialEq, Eq, Structural, Hash)]
pub struct SerializationMarker {
    pub id: PersistentId,
}

impl SerializationMarker {
    /// A marker with a fresh random identifier.
    pub fn new() -> (marker: SerializationMarker)
        ensures
            is_random_uuid_value(marker.id.value),
    {
        SerializationMarker { id: PersistentId::generate() }
    }

    /// A marker with the given identifier.
    pub fn with_id(id: PersistentId) -> (marker: SerializationMarker)
        ensures
            marker == (SerializationMarker { id }),
    {
        SerializationMarker { id }
    }
}

/// Some entry of `markers` carries `id`.
pub open spec fn id_in_use(markers: Map<Entity, SerializationMarker>, id: PersistentId) -> bool {
    exists|e: Entity| #[trigger] markers.contains_key(e) && markers[e].id == id
}

/// `e` is the first entity in slot order whose marker carries `id`.
pub open spec fn is_first_with_id(
    markers: Map<Entity, SerializationMarker>,
    id: PersistentId,
    e: Entity,
) -> bool {
    &&& markers.contains_key(e)
    &&& markers[e].id == id
    &&& forall|o: Entity| #[trigger] markers.contains_key(o) && markers[o].id == id ==> e.index <= o.index
}

/// The entity that `id` names: the first in slot order whose marker carries
/// it, or nothing where no marker does.
pub open spec fn entity_with_id(markers: Map<Entity, SerializationMarker>, id: PersistentId) -> Option<
    Entity,
> {
    if id_in_use(markers, id) {
        Some(choose|e: Entity| is_first_with_id(markers, id, e))
    } else {
        None
    }
}

/// Among the entities that carry `id` there is a first one in slot order.
proof fn lemma_first_with_id_exists(
    markers: Map<Entity, SerializationMarker>,
    id: PersistentId,
    witness: Entity,
)
    requires
        markers.contains_key(witness),
        markers[witness].id == id,
    ensures
        exists|first: Entity| is_first_with_id(markers, id, first),
    decreases witness.index,
{
    if exists|p: Entity| #[trigger] markers.contains_key(p) && markers[p].id == id && p.index < witness.index {
        let p = choose|p: Entity| #[trigger]
            markers.contains_key(p) && markers[p].id == id && p.index < witness.index;
        lemma_first_with_id_exists(markers, id, p);
    } else {
        assert(is_first_with_id(markers, id, witness));
    }
}

/// What `entity_with_id` finds is the first entity with the identifier,
/// and it finds nothing only where no entity carries it.
pub proof fn lemma_entity_with_id(markers: Map<Entity, SerializationMarker>, id: PersistentId)
    ensures
        match entity_with_id(markers, id) {
            Some(e) => is_first_with_id(markers, id, e),
            None => !id_in_use(markers, id),
        },
{
    if id_in_use(markers, id) {
        let witness = choose|e: Entity| #[trigger] markers.contains_key(e) && markers[e].id == id;
        lemma_first_with_id_exists(markers, id, witness);
    }
}

/// No two entries of `markers` carry the same identifier.
pub open spec fn ids_unique(markers: Map<Entity, SerializationMarker>) -> bool {
    forall|a: Entity, b: Entity|
        #[trigger] markers.contains_key(a) && #[trigger] markers.contains_key(b) && markers[a].id
            == markers[b].id ==> a == b
}

/// Where at most one entry sits in each slot, the first entity with an
/// identifier is determined.
pub proof fn lemma_first_with_id_unique(
    markers: Map<Entity, SerializationMarker>,
    id: PersistentId,
    e: Entity,
)
    requires
        one_per_index(markers),
        is_first_with_id(markers, id, e),
    ensures
        entity_with_id(markers, id) == Some(e),
{
    let c = choose|c: Entity| is_first_with_id(markers, id, c);
    assert(is_first_with_id(markers, id, c));
    assert(c.index == e.index);
}

/// Where identifiers are unique, the entity that carries one is the entity
/// that the identifier names.
pub proof fn lemma_unique_id_names_its_entity(markers: Map<Entity, SerializationMarker>, e: Entity)
    requires
        ids_unique(markers),
        markers.contains_key(e),
    ensures
        entity_with_id(markers, markers[e].id) == Some(e),
{
    let id = markers[e].id;
    assert(is_first_with_id(markers, id, e));
    let c = choose|c: Entity| is_first_with_id(markers, id, c);
    assert(is_first_with_id(markers, id, c));
}

/// Looks up the entity that `id` names among the markers of a list.
pub fn find_entity_with_id(markers: &ComponentList<SerializationMarker>, id: PersistentId) -> (found:
    Option<Entity>)
    requires
        markers.wf(),
    ensures
        found == entity_with_id(markers@, id),
        match found {
            Some(e) => is_first_with_id(markers@, id, e),
            None => !id_in_use(markers@, id),
        },
{
    proof {
        lemma_entity_with_id(markers@, id);
    }
    let entries = markers.iter();
    let ghost mapped = entries@.map_values(|p: (Entity, &SerializationMarker)| (p.0, *p.1));
    let mut i: usize = 0;
    while i < entries.len()
        invariant
            i <= entries.len(),
            mapped == entries@.map_values(|p: (Entity, &SerializationMarker)| (p.0, *p.1)),
            in_slot_order(mapped, markers@),
            forall|k: int| 0 <= k < i ==> (#[trigger] mapped[k]).1.id != id,
        decreases entries.len() - i,
    {
        assert(mapped[i as int].1 == *entries[i as int].1);
        if entries[i].1.id.value == id.value {
            let e = entries[i].0;
            proof {
                assert(mapped[i as int].0 == e);
                assert forall|o: Entity| #[trigger]
                    markers@.contains_key(o) && markers@[o].id == id implies e.index <= o.index by {
                    let k = choose|k: int| 0 <= k < mapped.len() && (#[trigger] mapped[k]).0 == o;
                    assert(mapped[k].1.id == id);
                    if k > i {
                        assert(mapped[i as int].0.index < mapped[k].0.index);
                    }
                }
                markers.lemma_one_per_index();
                lemma_first_with_id_unique(markers@, id, e);
            }
            return Some(e);
        }
        i += 1;
    }
    proof {
        if id_in_use(markers@, id) {
            let o = choose|o: Entity| #[trigger] markers@.contains_key(o) && markers@[o].id == id;
            let k = choose|k: int| 0 <= k < mapped.len() && (#[trigger] mapped[k]).0 == o;
            assert(mapped[k].1.id == id);
        }
    }
    None
}

} // verus!
