use pageprotect::address::{bytes_to_pages_up, ObjectReference, Region, BYTES_IN_PAGE};
use pageprotect::side_metadata::{SanityError, SideMetadataSanity, SideMetadataSpec};
use pageprotect::space::{
    AllocationError, LargeObjectSpace, MapFailure, ObjectState, PlanCreateSpaceArgs, ProtectionChange, VMRequest,
};

fn space_with(request: VMRequest, protect: bool) -> LargeObjectSpace {
    LargeObjectSpace::new(
        PlanCreateSpaceArgs {
            name: "test",
            zeroed: false,
            vmrequest: request,
            global_side_metadata_specs: Vec::new(),
            local_side_metadata_specs: Vec::new(),
        },
        protect,
    )
}

fn protecting_space() -> LargeObjectSpace {
    space_with(VMRequest::discontiguous(), true)
}

fn object(address: usize) -> ObjectReference {
    ObjectReference { address }
}

fn run(start: usize, pages: usize) -> Region {
    Region { start, pages }
}

#[test]
fn sizes_round_up_to_whole_pages() {
    assert_eq!(BYTES_IN_PAGE, 4096);
    assert_eq!(bytes_to_pages_up(0), 1);
    assert_eq!(bytes_to_pages_up(1), 1);
    assert_eq!(bytes_to_pages_up(4095), 1);
    assert_eq!(bytes_to_pages_up(4096), 1);
    assert_eq!(bytes_to_pages_up(4097), 2);
    assert_eq!(bytes_to_pages_up(8192), 2);
    assert_eq!(bytes_to_pages_up(8193), 3);
    assert_eq!(bytes_to_pages_up(usize::MAX), usize::MAX / 4096 + 1);
}

#[test]
fn regions_overlap_when_they_share_a_page() {
    let r = run(10, 2);
    assert!(r.intersects(&run(10, 2)));
    assert!(r.intersects(&run(11, 1)));
    assert!(r.intersects(&run(9, 2)));
    assert!(r.intersects(&run(0, 100)));
    assert!(!r.intersects(&run(12, 1)));
    assert!(!r.intersects(&run(8, 2)));
    assert!(!r.intersects(&run(10, 0)));
    assert!(run(usize::MAX, 1).intersects(&run(usize::MAX, usize::MAX)));
}

#[test]
fn regions_are_well_formed_when_not_empty_and_in_range() {
    assert!(run(0, 1).is_well_formed());
    assert!(run(usize::MAX - 1, 1).is_well_formed());
    assert!(run(0, usize::MAX).is_well_formed());
    assert!(!run(5, 0).is_well_formed());
    assert!(!run(usize::MAX, 1).is_well_formed());
    assert!(!run(1, usize::MAX).is_well_formed());
}

#[test]
fn new_space_is_empty() {
    let space = protecting_space();
    assert_eq!(space.name(), "test");
    assert!(!space.is_zeroed());
    assert!(space.protects_memory_on_release());
    assert_eq!(space.reserved_pages(), 0);
    assert_eq!(space.object_count(), 0);
    assert!(!space.in_space(object(0)));
    assert!(!space.is_live(object(0)));
    assert!(!space.is_page_protected(0));
    assert_eq!(space.object_state(object(0)), None);
}

#[test]
fn allocation_records_an_open_unmarked_object() {
    let mut space = protecting_space();
    assert_eq!(space.allocate(3 * 4096, Ok(run(40, 3))), Ok(object(40)));
    assert_eq!(space.reserved_pages(), 3);
    assert_eq!(space.object_count(), 1);
    assert!(space.in_space(object(40)));
    assert!(!space.in_space(object(41)));
    assert_eq!(
        space.object_state(object(40)),
        Some(ObjectState { region: run(40, 3), marked: false, protected: false })
    );
    assert_eq!(space.object_state(object(41)), None);
    assert!(space.is_live(object(40)));
}

#[test]
fn empty_object_takes_one_page() {
    let mut space = protecting_space();
    assert_eq!(space.allocate(0, Ok(run(40, 1))), Ok(object(40)));
    assert_eq!(space.reserved_pages(), 1);
}

#[test]
fn failed_allocation_changes_nothing() {
    let mut space = protecting_space();
    space.allocate(4096, Ok(run(40, 1))).unwrap();
    assert_eq!(space.allocate(4096, Err(MapFailure::MappingLimit)), Err(AllocationError::MappingLimitExceeded));
    assert_eq!(space.allocate(4096, Err(MapFailure::InvalidArgument)), Err(AllocationError::InvalidArgument));
    assert_eq!(space.allocate(4096, Ok(run(40, 1))), Err(AllocationError::UnusableRegion));
    assert_eq!(space.allocate(4097, Ok(run(50, 1))), Err(AllocationError::UnusableRegion));
    assert_eq!(space.allocate(4096, Ok(run(50, 0))), Err(AllocationError::UnusableRegion));
    assert_eq!(space.allocate(4096, Ok(run(usize::MAX, 1))), Err(AllocationError::UnusableRegion));
    assert_eq!(space.reserved_pages(), 1);
    assert_eq!(space.object_count(), 1);
}

#[test]
fn huge_objects_are_counted_in_full() {
    let mut space = protecting_space();
    let huge = usize::MAX - 4095;
    assert_eq!(bytes_to_pages_up(huge), usize::MAX / 4096);
    space.allocate(huge, Ok(run(0, usize::MAX / 4096))).unwrap();
    assert_eq!(space.reserved_pages(), usize::MAX / 4096);
    space.allocate(4096, Ok(run(usize::MAX - 10, 1))).unwrap();
    assert_eq!(space.reserved_pages(), usize::MAX / 4096 + 1);
}

#[test]
fn fixed_request_keeps_objects_in_its_range() {
    let mut space = space_with(VMRequest::Fixed { start: 100, pages: 10 }, true);
    assert_eq!(space.allocate(4096, Ok(run(99, 1))), Err(AllocationError::UnusableRegion));
    assert_eq!(space.allocate(4096, Ok(run(110, 1))), Err(AllocationError::UnusableRegion));
    assert_eq!(space.allocate(2 * 4096, Ok(run(109, 2))), Err(AllocationError::UnusableRegion));
    assert_eq!(space.allocate(4096, Ok(run(100, 1))), Ok(object(100)));
    assert_eq!(space.allocate(2 * 4096, Ok(run(108, 2))), Ok(object(108)));
    assert!(VMRequest::Fixed { start: 100, pages: 10 }.allows(&run(100, 10)));
    assert!(!VMRequest::Fixed { start: 100, pages: 10 }.allows(&run(100, 11)));
    assert!(VMRequest::Fixed { start: usize::MAX - 1, pages: usize::MAX }.allows(&run(usize::MAX - 1, 1)));
    assert!(VMRequest::Discontiguous.allows(&run(0, 1)));
    assert_eq!(VMRequest::discontiguous(), VMRequest::Discontiguous);
}

#[test]
fn prepare_forgets_marks_and_opens_pages() {
    let mut space = protecting_space();
    let a = space.allocate(4096, Ok(run(10, 1))).unwrap();
    let b = space.allocate(2 * 4096, Ok(run(20, 2))).unwrap();
    let c = space.allocate(4096, Ok(run(30, 1))).unwrap();
    assert_eq!(space.prepare(true), vec![]);
    let mut queue = Vec::new();
    space.trace_object(&mut queue, a);
    let closed = space.release(true);
    assert_eq!(
        closed,
        vec![
            ProtectionChange { region: run(20, 2), protect: true },
            ProtectionChange { region: run(30, 1), protect: true },
        ]
    );
    assert!(space.object_state(a).unwrap().marked);

    let opened = space.prepare(false);
    assert_eq!(
        opened,
        vec![
            ProtectionChange { region: run(20, 2), protect: false },
            ProtectionChange { region: run(30, 1), protect: false },
        ]
    );
    for reference in [a, b, c] {
        let state = space.object_state(reference).unwrap();
        assert!(!state.marked);
        assert!(!state.protected);
        assert!(!space.is_live(reference));
    }
    assert_eq!(space.reserved_pages(), 4);
}

#[test]
fn full_heap_flag_makes_no_difference() {
    let mut with_flag = protecting_space();
    let mut without_flag = protecting_space();
    for space in [&mut with_flag, &mut without_flag] {
        space.allocate(4096, Ok(run(10, 1))).unwrap();
        space.allocate(4096, Ok(run(20, 1))).unwrap();
    }
    assert_eq!(with_flag.prepare(true), without_flag.prepare(false));
    let mut queue = Vec::new();
    with_flag.trace_object(&mut queue, object(10));
    without_flag.trace_object(&mut queue, object(10));
    assert_eq!(with_flag.release(true), without_flag.release(false));
    assert_eq!(with_flag.object_state(object(20)), without_flag.object_state(object(20)));
    assert!(without_flag.object_state(object(20)).unwrap().protected);
}

#[test]
fn release_without_prepare_spares_young_objects() {
    let mut space = protecting_space();
    let a = space.allocate(4096, Ok(run(10, 1))).unwrap();
    assert_eq!(space.release(true), vec![]);
    assert!(!space.object_state(a).unwrap().protected);
    assert!(space.is_live(a));
}

#[test]
fn release_opens_a_closed_object_that_was_reached() {
    let mut space = protecting_space();
    let a = space.allocate(4096, Ok(run(10, 1))).unwrap();
    space.prepare(true);
    assert_eq!(space.release(true), vec![ProtectionChange { region: run(10, 1), protect: true }]);
    assert!(space.is_page_protected(10));
    // A stale reference leads tracing to the closed object.
    let mut queue = Vec::new();
    space.trace_object(&mut queue, a);
    assert_eq!(space.release(true), vec![ProtectionChange { region: run(10, 1), protect: false }]);
    assert!(!space.is_page_protected(10));
    assert_eq!(space.release(true), vec![]);
}

#[test]
fn trace_object_marks_once_and_returns_the_reference() {
    let mut space = protecting_space();
    let a = space.allocate(4096, Ok(run(10, 1))).unwrap();
    space.prepare(true);
    let mut queue = vec![object(77)];
    assert_eq!(space.trace_object(&mut queue, a), a);
    assert_eq!(queue, vec![object(77), a]);
    assert!(space.object_state(a).unwrap().marked);
    assert!(space.is_live(a));
    assert_eq!(space.trace_object(&mut queue, a), a);
    assert_eq!(queue, vec![object(77), a]);
    // A reference into the middle of an object, or to nothing, is not traced.
    assert_eq!(space.trace_object(&mut queue, object(11)), object(11));
    assert_eq!(queue, vec![object(77), a]);
    assert_eq!(space.object_state(a).unwrap().region, run(10, 1));
}

#[test]
fn space_without_protection_closes_nothing() {
    let mut space = space_with(VMRequest::discontiguous(), false);
    let a = space.allocate(4096, Ok(run(10, 1))).unwrap();
    assert_eq!(space.prepare(true), vec![]);
    assert_eq!(space.release(true), vec![]);
    assert!(!space.is_live(a));
    assert_eq!(space.object_state(a), Some(ObjectState { region: run(10, 1), marked: false, protected: false }));
    assert!(!space.is_page_protected(10));
    assert_eq!(space.reserved_pages(), 1);
}

#[test]
fn holds_page_of_finds_shared_pages() {
    let mut space = protecting_space();
    space.allocate(2 * 4096, Ok(run(10, 2))).unwrap();
    assert!(space.holds_page_of(&run(11, 5)));
    assert!(space.holds_page_of(&run(0, 11)));
    assert!(!space.holds_page_of(&run(12, 5)));
    assert!(!space.holds_page_of(&run(0, 10)));
}

#[test]
fn space_hands_its_metadata_to_the_checker() {
    let marks = SideMetadataSpec { id: 1, offset: 0, bytes: 16 };
    let protection = SideMetadataSpec { id: 2, offset: 16, bytes: 16 };
    let space = LargeObjectSpace::new(
        PlanCreateSpaceArgs {
            name: "test",
            zeroed: true,
            vmrequest: VMRequest::discontiguous(),
            global_side_metadata_specs: vec![marks],
            local_side_metadata_specs: vec![protection],
        },
        true,
    );
    let mut checker = SideMetadataSanity::new();
    assert_eq!(space.verify_side_metadata_sanity(&mut checker), Ok(()));
    assert!(checker.is_registered(&marks));
    assert!(checker.is_registered(&protection));
    assert_eq!(space.verify_side_metadata_sanity(&mut checker), Ok(()));

    let clash = LargeObjectSpace::new(
        PlanCreateSpaceArgs {
            name: "clash",
            zeroed: true,
            vmrequest: VMRequest::discontiguous(),
            global_side_metadata_specs: vec![marks],
            local_side_metadata_specs: vec![SideMetadataSpec { id: 3, offset: 31, bytes: 1 }],
        },
        true,
    );
    assert_eq!(clash.verify_side_metadata_sanity(&mut checker), Err(SanityError::Overlap));
    assert!(!checker.is_registered(&SideMetadataSpec { id: 3, offset: 31, bytes: 1 }));
}
