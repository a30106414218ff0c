use pageprotect::address::{ObjectReference, Region};
use pageprotect::gc_work::{do_work, Edge};
use pageprotect::global::{page_protect_constraints, PageProtect};
use pageprotect::plan::{
    BasePlan, CommonPlan, CreateGeneralPlanArgs, CreateSpecificPlanArgs, GcStatus, PlanConstraints, PlanSelector,
    VMWorkerThread,
};
use pageprotect::scheduler::{GCWorkContext, GCWorkScheduler, WorkBucketStage};
use pageprotect::side_metadata::{SanityError, SideMetadataSanity, SideMetadataSpec};
use pageprotect::space::{ProtectionChange, VMRequest};

fn spec(id: u32, offset: usize, bytes: usize) -> SideMetadataSpec {
    SideMetadataSpec { id, offset, bytes }
}

fn specific(global: Vec<SideMetadataSpec>, local: Vec<SideMetadataSpec>) -> CreateSpecificPlanArgs {
    CreateSpecificPlanArgs {
        global_args: CreateGeneralPlanArgs {
            heap_pages: 8,
            global_side_metadata_specs: Vec::new(),
            local_side_metadata_specs: local,
        },
        constraints: page_protect_constraints(),
        global_side_metadata_specs: global,
    }
}

#[test]
fn base_plan_starts_outside_a_collection() {
    let base = BasePlan::new(&specific(Vec::new(), Vec::new()));
    assert_eq!(base.gc_status(), GcStatus::NotCollecting);
    assert_eq!(base.collection_kind(), None);
    assert_eq!(base.heap_pages(), 8);
    assert_eq!(*base.constraints(), PlanConstraints { moves_objects: false, needs_write_barrier: false });
    assert!(!base.is_collecting());
}

#[test]
fn base_plan_keeps_the_constraints_it_was_made_with() {
    let mut args = specific(Vec::new(), Vec::new());
    args.constraints = PlanConstraints { moves_objects: true, needs_write_barrier: true };
    let mut base = BasePlan::new(&args);
    base.set_collection_kind(PlanSelector::SemiSpace);
    base.set_gc_status(GcStatus::GcPrepare);
    assert_eq!(*base.constraints(), PlanConstraints { moves_objects: true, needs_write_barrier: true });
    assert_eq!(base.collection_kind(), Some(PlanSelector::SemiSpace));
    assert_eq!(base.heap_pages(), 8);
}

#[test]
fn collection_state_moves_on_step_by_step() {
    let mut base = BasePlan::new(&specific(Vec::new(), Vec::new()));
    base.set_gc_status(GcStatus::GcPrepare);
    assert_eq!(base.gc_status(), GcStatus::GcPrepare);
    assert!(base.is_collecting());
    base.set_gc_status(GcStatus::GcProper);
    assert_eq!(base.gc_status(), GcStatus::GcProper);
    base.set_gc_status(GcStatus::GcRelease);
    assert_eq!(base.gc_status(), GcStatus::GcRelease);
    assert!(base.is_collecting());
    base.set_gc_status(GcStatus::NotCollecting);
    assert_eq!(base.gc_status(), GcStatus::NotCollecting);
    assert!(!base.is_collecting());
}

#[test]
fn collection_state_advances_to_any_state() {
    let all = [GcStatus::NotCollecting, GcStatus::GcPrepare, GcStatus::GcProper, GcStatus::GcRelease];
    for from in all {
        for to in all {
            let mut base = BasePlan::new(&specific(Vec::new(), Vec::new()));
            base.advance_to(from);
            assert_eq!(base.gc_status(), from);
            base.advance_to(to);
            assert_eq!(base.gc_status(), to);
            assert_eq!(base.heap_pages(), 8);
        }
    }
}

#[test]
fn collection_is_due_over_the_heap_size() {
    let base = BasePlan::new(&specific(Vec::new(), Vec::new()));
    assert!(!base.collection_required(0, false));
    assert!(!base.collection_required(8, false));
    assert!(base.collection_required(9, false));
    assert!(base.collection_required(0, true));
    assert!(base.collection_required(usize::MAX, true));
}

#[test]
fn space_args_carry_the_metadata_of_the_plan() {
    let args = specific(vec![spec(1, 0, 8)], vec![spec(2, 8, 8)]);
    let space_args = args.get_space_args("nursery", false, VMRequest::Fixed { start: 4, pages: 2 });
    assert_eq!(space_args.name, "nursery");
    assert!(!space_args.zeroed);
    assert_eq!(space_args.vmrequest, VMRequest::Fixed { start: 4, pages: 2 });
    assert_eq!(space_args.global_side_metadata_specs, vec![spec(1, 0, 8)]);
    assert_eq!(space_args.local_side_metadata_specs, vec![spec(2, 8, 8)]);
}

#[test]
fn common_plan_has_two_open_spaces() {
    let common = CommonPlan::new(specific(Vec::new(), Vec::new()));
    let names: Vec<&str> = common.get_spaces().iter().map(|space| space.name()).collect();
    assert_eq!(names, vec!["immortal", "los"]);
    for space in common.get_spaces() {
        assert!(!space.protects_memory_on_release());
        assert!(space.is_zeroed());
        assert_eq!(space.object_count(), 0);
    }
    assert_eq!(common.get_used_pages(), 0);
    assert_eq!(common.base.gc_status(), GcStatus::NotCollecting);
}

#[test]
fn common_plan_prepares_and_releases_without_closing_pages() {
    let mut common = CommonPlan::new(specific(Vec::new(), Vec::new()));
    let a = common.immortal.allocate(4096, Ok(Region { start: 1, pages: 1 })).unwrap();
    let b = common.los.allocate(2 * 4096, Ok(Region { start: 5, pages: 2 })).unwrap();
    assert_eq!(common.get_used_pages(), 3);
    assert_eq!(common.prepare(VMWorkerThread(0), true), vec![]);
    assert!(!common.immortal.is_live(a));
    assert!(!common.los.is_live(b));
    let no_changes: Vec<ProtectionChange> = Vec::new();
    assert_eq!(common.release(VMWorkerThread(0), true), no_changes);
    assert!(!common.immortal.object_state(a).unwrap().protected);
    assert!(!common.los.object_state(b).unwrap().protected);
    assert_eq!(common.get_used_pages(), 3);
}

#[test]
fn common_plan_hands_its_metadata_to_the_checker() {
    let common = CommonPlan::new(specific(vec![spec(1, 0, 8)], vec![spec(2, 8, 8)]));
    let mut checker = SideMetadataSanity::new();
    assert_eq!(common.verify_side_metadata_sanity(&mut checker), Ok(()));
    assert!(checker.is_registered(&spec(1, 0, 8)));
    assert!(checker.is_registered(&spec(2, 8, 8)));

    let clash = CommonPlan::new(specific(vec![spec(3, 4, 8)], Vec::new()));
    assert_eq!(clash.verify_side_metadata_sanity(&mut checker), Err(SanityError::Overlap));
    assert!(!checker.is_registered(&spec(3, 4, 8)));

    let malformed = CommonPlan::new(specific(vec![spec(4, 100, 0)], Vec::new()));
    assert_eq!(malformed.verify_side_metadata_sanity(&mut checker), Err(SanityError::Malformed));
}

#[test]
fn worker_without_a_packet_does_nothing() {
    let mut plan = PageProtect::new(CreateGeneralPlanArgs {
        heap_pages: 8,
        global_side_metadata_specs: Vec::new(),
        local_side_metadata_specs: Vec::new(),
    });
    let mut scheduler = GCWorkScheduler::new();
    let a = plan.space.allocate(4096, Ok(Region { start: 1, pages: 1 })).unwrap();
    let edges: Vec<Edge> = Vec::new();
    let roots: Vec<ObjectReference> = vec![a];
    assert!(do_work(&mut plan, &mut scheduler, VMWorkerThread(0), &edges, &roots).is_none());
    assert_eq!(plan.base().gc_status(), GcStatus::NotCollecting);

    // While another worker runs the preparing packet, nothing can be had.
    plan.schedule_collection(&mut scheduler);
    assert_eq!(scheduler.poll(), Some(WorkBucketStage::Prepare));
    assert!(do_work(&mut plan, &mut scheduler, VMWorkerThread(1), &edges, &roots).is_none());
    assert_eq!(plan.base().gc_status(), GcStatus::GcPrepare);
    assert!(!plan.space.object_state(a).unwrap().marked);
    assert_eq!(
        scheduler.context(),
        Some(GCWorkContext { plan: PlanSelector::PageProtect, moves_objects: false })
    );
}

#[test]
fn extra_tracing_packets_run_before_the_release() {
    let mut plan = PageProtect::new(CreateGeneralPlanArgs {
        heap_pages: 8,
        global_side_metadata_specs: Vec::new(),
        local_side_metadata_specs: Vec::new(),
    });
    let mut scheduler = GCWorkScheduler::new();
    let a = plan.space.allocate(4096, Ok(Region { start: 1, pages: 1 })).unwrap();
    let b = plan.space.allocate(4096, Ok(Region { start: 2, pages: 1 })).unwrap();
    let c = plan.space.allocate(4096, Ok(Region { start: 3, pages: 1 })).unwrap();
    let edges = vec![Edge { source: b, target: c }];
    plan.schedule_collection(&mut scheduler);
    assert!(scheduler.add_work(WorkBucketStage::Closure));
    let tls = VMWorkerThread(0);
    let mut stages = Vec::new();
    stages.push(do_work(&mut plan, &mut scheduler, tls, &edges, &Vec::new()).unwrap().stage);
    stages.push(do_work(&mut plan, &mut scheduler, tls, &edges, &vec![a]).unwrap().stage);
    assert_eq!(plan.base().gc_status(), GcStatus::GcProper);
    stages.push(do_work(&mut plan, &mut scheduler, tls, &edges, &vec![b]).unwrap().stage);
    assert_eq!(plan.base().gc_status(), GcStatus::GcRelease);
    let last = do_work(&mut plan, &mut scheduler, tls, &edges, &Vec::new()).unwrap();
    stages.push(last.stage);
    assert_eq!(
        stages,
        vec![
            WorkBucketStage::Prepare,
            WorkBucketStage::Closure,
            WorkBucketStage::Closure,
            WorkBucketStage::Release
        ]
    );
    assert!(last.collection_done);
    assert_eq!(last.changes, vec![]);
    for object in [a, b, c] {
        assert!(plan.space.is_live(object));
        assert!(!plan.space.object_state(object).unwrap().protected);
    }
}
