use pageprotect::plan::{GcStatus, PlanConstraints, PlanSelector};
use pageprotect::scheduler::{BucketState, GCWorkContext, GCWorkScheduler, WorkBucketStage};

fn context() -> GCWorkContext {
    GCWorkContext { plan: PlanSelector::PageProtect, moves_objects: false }
}

fn counts(scheduler: &GCWorkScheduler) -> [(usize, usize); 3] {
    let of = |stage| {
        let bucket = scheduler.bucket(stage);
        (bucket.pending, bucket.running)
    };
    [of(WorkBucketStage::Prepare), of(WorkBucketStage::Closure), of(WorkBucketStage::Release)]
}

#[test]
fn new_scheduler_is_idle() {
    let mut scheduler = GCWorkScheduler::new();
    assert!(scheduler.is_idle());
    assert_eq!(scheduler.open_stage(), None);
    assert_eq!(scheduler.context(), None);
    assert_eq!(scheduler.gc_status(), GcStatus::NotCollecting);
    assert_eq!(counts(&scheduler), [(0, 0), (0, 0), (0, 0)]);
    assert_eq!(scheduler.poll(), None);
    assert!(!scheduler.add_work(WorkBucketStage::Prepare));
    assert!(!scheduler.add_work(WorkBucketStage::Release));
    assert_eq!(counts(&scheduler), [(0, 0), (0, 0), (0, 0)]);
}

#[test]
fn context_takes_the_constraints_of_the_plan() {
    let moving = PlanConstraints { moves_objects: true, needs_write_barrier: false };
    assert_eq!(
        GCWorkContext::for_plan(PlanSelector::SemiSpace, &moving),
        GCWorkContext { plan: PlanSelector::SemiSpace, moves_objects: true }
    );
    assert_eq!(GCWorkContext::for_plan(PlanSelector::PageProtect, &PlanConstraints::default()), context());
}

#[test]
fn stages_have_their_collection_state() {
    assert_eq!(WorkBucketStage::Prepare.gc_status(), GcStatus::GcPrepare);
    assert_eq!(WorkBucketStage::Closure.gc_status(), GcStatus::GcProper);
    assert_eq!(WorkBucketStage::Release.gc_status(), GcStatus::GcRelease);
}

#[test]
fn collection_states_follow_each_other_in_a_ring() {
    assert_eq!(GcStatus::NotCollecting.successor(), GcStatus::GcPrepare);
    assert_eq!(GcStatus::GcPrepare.successor(), GcStatus::GcProper);
    assert_eq!(GcStatus::GcProper.successor(), GcStatus::GcRelease);
    assert_eq!(GcStatus::GcRelease.successor(), GcStatus::NotCollecting);
    assert!(!GcStatus::NotCollecting.blocks_allocation());
    assert!(GcStatus::GcPrepare.blocks_allocation());
    assert!(GcStatus::GcProper.blocks_allocation());
    assert!(GcStatus::GcRelease.blocks_allocation());
}

#[test]
fn buckets_open_one_after_the_other() {
    let mut scheduler = GCWorkScheduler::new();
    scheduler.schedule_common_work(context());
    assert_eq!(counts(&scheduler), [(1, 0), (1, 0), (1, 0)]);
    assert_eq!(scheduler.gc_status(), GcStatus::GcPrepare);

    assert_eq!(scheduler.poll(), Some(WorkBucketStage::Prepare));
    assert_eq!(counts(&scheduler), [(0, 1), (1, 0), (1, 0)]);
    // The tracing packet waits while a preparing packet runs.
    assert_eq!(scheduler.poll(), None);
    assert_eq!(counts(&scheduler), [(0, 1), (1, 0), (1, 0)]);
    assert!(!scheduler.finish(WorkBucketStage::Prepare));
    assert_eq!(scheduler.open_stage(), Some(WorkBucketStage::Closure));
    assert_eq!(scheduler.gc_status(), GcStatus::GcProper);

    assert_eq!(scheduler.poll(), Some(WorkBucketStage::Closure));
    assert_eq!(scheduler.poll(), None);
    assert!(!scheduler.finish(WorkBucketStage::Closure));
    assert_eq!(scheduler.open_stage(), Some(WorkBucketStage::Release));
    assert_eq!(scheduler.gc_status(), GcStatus::GcRelease);

    assert_eq!(scheduler.poll(), Some(WorkBucketStage::Release));
    assert_eq!(counts(&scheduler), [(0, 0), (0, 0), (0, 1)]);
    assert!(scheduler.finish(WorkBucketStage::Release));
    assert!(scheduler.is_idle());
    assert_eq!(scheduler.context(), None);
    assert_eq!(scheduler.gc_status(), GcStatus::NotCollecting);
    assert_eq!(counts(&scheduler), [(0, 0), (0, 0), (0, 0)]);
}

#[test]
fn work_for_a_finished_phase_is_refused() {
    let mut scheduler = GCWorkScheduler::new();
    scheduler.schedule_common_work(context());
    assert!(scheduler.add_work(WorkBucketStage::Prepare));
    assert!(scheduler.add_work(WorkBucketStage::Closure));
    assert!(scheduler.add_work(WorkBucketStage::Release));
    assert_eq!(counts(&scheduler), [(2, 0), (2, 0), (2, 0)]);
    assert_eq!(scheduler.poll(), Some(WorkBucketStage::Prepare));
    assert_eq!(scheduler.poll(), Some(WorkBucketStage::Prepare));
    assert!(!scheduler.finish(WorkBucketStage::Prepare));
    // One preparing packet still runs: the bucket stays open.
    assert_eq!(scheduler.open_stage(), Some(WorkBucketStage::Prepare));
    assert_eq!(scheduler.poll(), None);
    assert!(scheduler.add_work(WorkBucketStage::Prepare));
    assert_eq!(scheduler.poll(), Some(WorkBucketStage::Prepare));
    assert!(!scheduler.finish(WorkBucketStage::Prepare));
    assert!(!scheduler.finish(WorkBucketStage::Prepare));
    assert_eq!(scheduler.open_stage(), Some(WorkBucketStage::Closure));

    assert!(!scheduler.add_work(WorkBucketStage::Prepare));
    assert_eq!(counts(&scheduler), [(0, 0), (2, 0), (2, 0)]);
    assert!(scheduler.add_work(WorkBucketStage::Closure));
    assert_eq!(counts(&scheduler), [(0, 0), (3, 0), (2, 0)]);
}

#[test]
fn no_packet_starts_before_the_earlier_phases_are_done() {
    // Three workers take and complete packets in a fixed interleaving while
    // tracing finds more work. Every start and end is recorded.
    #[derive(Debug, PartialEq, Clone, Copy)]
    enum Event {
        Start(WorkBucketStage),
        End(WorkBucketStage),
    }
    let mut scheduler = GCWorkScheduler::new();
    scheduler.schedule_common_work(context());
    for _ in 0..3 {
        assert!(scheduler.add_work(WorkBucketStage::Prepare));
    }
    assert!(scheduler.add_work(WorkBucketStage::Release));
    let mut log = Vec::new();
    let mut running: Vec<WorkBucketStage> = Vec::new();
    let mut found = 5;
    let mut turn = 0;
    loop {
        turn += 1;
        // On two turns of three a worker asks for a packet; on the third,
        // and when no packet can be had, the oldest running one is completed.
        if turn % 3 != 0 || running.is_empty() {
            if let Some(stage) = scheduler.poll() {
                log.push(Event::Start(stage));
                running.push(stage);
                if stage == WorkBucketStage::Closure && found > 0 {
                    found -= 1;
                    assert!(scheduler.add_work(WorkBucketStage::Closure));
                }
                continue;
            }
        }
        if running.is_empty() {
            assert!(scheduler.is_idle());
            break;
        }
        let stage = running.remove(0);
        log.push(Event::End(stage));
        let done = scheduler.finish(stage);
        assert_eq!(done, scheduler.is_idle());
    }
    let order = |stage: WorkBucketStage| match stage {
        WorkBucketStage::Prepare => 0,
        WorkBucketStage::Closure => 1,
        WorkBucketStage::Release => 2,
    };
    let starts = |stage| log.iter().filter(|event| **event == Event::Start(stage)).count();
    let ends = |stage| log.iter().filter(|event| **event == Event::End(stage)).count();
    assert_eq!(starts(WorkBucketStage::Prepare), 4);
    assert_eq!(starts(WorkBucketStage::Closure), 6);
    assert_eq!(starts(WorkBucketStage::Release), 2);
    for stage in [WorkBucketStage::Prepare, WorkBucketStage::Closure, WorkBucketStage::Release] {
        assert_eq!(starts(stage), ends(stage));
    }
    for (at, event) in log.iter().enumerate() {
        if let Event::Start(stage) = event {
            for later in &log[at..] {
                let other = match later {
                    Event::Start(other) => other,
                    Event::End(other) => other,
                };
                assert!(order(*other) >= order(*stage), "{:?} after {:?}", later, event);
            }
        }
    }
}
