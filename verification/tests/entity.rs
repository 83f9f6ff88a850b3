use component_db::camera::CameraMode;
use component_db::entity::{Entity, EntityAllocator, InvalidHandle};

#[test]
fn entities_are_equal_when_both_parts_match() {
    assert_eq!(Entity::new(3, 5), Entity::new(3, 5));
    assert_ne!(Entity::new(3, 5), Entity::new(3, 7));
    assert_ne!(Entity::new(3, 5), Entity::new(4, 5));
}

#[test]
fn create_issues_fresh_slots_in_order() {
    let mut allocator = EntityAllocator::new();
    assert!(allocator.has_capacity());
    let a = allocator.create();
    let b = allocator.create();
    assert_eq!(a, Entity::new(0, 1));
    assert_eq!(b, Entity::new(1, 1));
    assert!(allocator.is_live(a));
    assert!(allocator.is_live(b));
    assert_eq!(allocator.slot_count(), 2);
    assert_eq!(allocator.live_at(0), Some(a));
    assert_eq!(allocator.live_at(1), Some(b));
    assert_eq!(allocator.live_at(2), None);
}

#[test]
fn destroy_makes_the_handle_stale() {
    let mut allocator = EntityAllocator::new();
    let a = allocator.create();
    assert_eq!(allocator.destroy(a), Ok(()));
    assert!(!allocator.is_live(a));
    assert_eq!(allocator.live_at(0), None);
}

#[test]
fn destroy_of_a_stale_handle_fails() {
    let mut allocator = EntityAllocator::new();
    let a = allocator.create();
    assert_eq!(allocator.destroy(a), Ok(()));
    assert_eq!(allocator.destroy(a), Err(InvalidHandle { entity: a }));
    let never_issued = Entity::new(40, 1);
    assert_eq!(allocator.destroy(never_issued), Err(InvalidHandle { entity: never_issued }));
}

#[test]
fn is_live_is_false_for_handles_out_of_range() {
    let mut allocator = EntityAllocator::new();
    let a = allocator.create();
    assert!(!allocator.is_live(Entity::new(1, 1)));
    assert!(!allocator.is_live(Entity::new(u32::MAX, u32::MAX)));
    assert!(!allocator.is_live(Entity::new(a.index, a.generation + 2)));
    assert!(!allocator.is_live(Entity::new(a.index, 0)));
}

#[test]
fn a_reused_slot_gets_a_greater_generation() {
    let mut allocator = EntityAllocator::new();
    let a = allocator.create();
    let b = allocator.create();
    assert_eq!(allocator.destroy(a), Ok(()));
    let c = allocator.create();
    assert_eq!(c.index, a.index);
    assert!(c.generation > a.generation);
    assert_eq!(c, Entity::new(0, 3));
    assert_ne!(c, a);
    assert!(!allocator.is_live(a));
    assert!(allocator.is_live(b));
    assert!(allocator.is_live(c));
}

#[test]
fn the_slot_freed_last_is_reused_first() {
    let mut allocator = EntityAllocator::new();
    let a = allocator.create();
    let b = allocator.create();
    let c = allocator.create();
    assert_eq!(allocator.destroy(a), Ok(()));
    assert_eq!(allocator.destroy(c), Ok(()));
    assert_eq!(allocator.create(), Entity::new(2, 3));
    assert_eq!(allocator.create(), Entity::new(0, 3));
    assert_eq!(allocator.create(), Entity::new(3, 1));
    assert!(allocator.is_live(b));
}

#[test]
fn old_handles_never_come_back_over_many_cycles() {
    let mut allocator = EntityAllocator::new();
    let mut issued: Vec<Entity> = Vec::new();
    for _ in 0..50 {
        let e = allocator.create();
        assert!(!issued.contains(&e));
        issued.push(e);
        assert_eq!(allocator.destroy(e), Ok(()));
    }
    for e in issued {
        assert!(!allocator.is_live(e));
    }
}

#[test]
fn camera_mode_defaults_to_standard() {
    assert_eq!(CameraMode::default(), CameraMode::Standard);
    assert_ne!(CameraMode::default(), CameraMode::Debug);
}
