//! The pipeline of collection work. Work packets wait in three buckets, one
//! for each phase of a collection. Workers take packets from the one bucket
//! that is open, and a bucket opens only when every packet of the buckets
//! before it has been completed.

use crate::plan::{GcStatus, PlanConstraints, PlanSelector};
use vstd::prelude::*;

verus! {

/// The phases of a collection, in the order in which their buckets open.
#[derive(Clone, Copy, Debug, PartialEq, Eq, Structural)]
pub enum WorkBucketStage {
    Prepare,
    Closure,
    Release,
}

impl WorkBucketStage {
    /// The place of the phase in a collection.
    pub open spec fn rank(self) -> int {
        match self {
            WorkBucketStage::Prepare => 0,
            WorkBucketStage::Closure => 1,
            WorkBucketStage::Release => 2,
        }
    }

    /// The collection state in which the packets of this phase run.
    pub open spec fn status(self) -> GcStatus {
        match self {
            WorkBucketStage::Prepare => GcStatus::GcPrepare,
            WorkBucketStage::Closure => GcStatus::GcProper,
            WorkBucketStage::Release => GcStatus::GcRelease,
        }
    }

    pub fn gc_status(&self) -> (r: GcStatus)
        ensures
            r == self.status(),
    {
        match self {
            WorkBucketStage::Prepare => GcStatus::GcPrepare,
            WorkBucketStage::Closure => GcStatus::GcProper,
            WorkBucketStage::Release => GcStatus::GcRelease,
        }
    }
}

/// What a collection runs with: the strategy that drives it, and whether its
/// tracing may move objects.
#[derive(Clone, Copy, Debug, PartialEq, Eq, Structural)]
pub struct GCWorkContext {
    pub plan: PlanSelector,
    pub moves_objects: bool,
}

impl GCWorkContext {
    /// The context of a collection driven by `plan`.
    pub fn for_plan(plan: PlanSelector, constraints: &PlanConstraints) -> (r: GCWorkContext)
        ensures
            r == (GCWorkContext { plan, moves_objects: constraints.moves_objects }),
    {
        GCWorkContext { plan, moves_objects: constraints.moves_objects }
    }
}

/// The packets of one bucket.
#[derive(Clone, Copy, Debug, PartialEq, Eq, Structural)]
pub struct BucketState {
    /// Packets that no worker has taken yet.
    pub pending: usize,
    /// Packets that a worker has taken and not completed.
    pub running: usize,
}

impl BucketState {
    /// Every packet of the bucket has been completed.
    pub open spec fn drained(self) -> bool {
        self.pending == 0 && self.running == 0
    }
}

/// The state of the pipeline as contracts see it.
pub struct SchedulerView {
    /// What the collection in flight runs with, if one is in flight.
    pub context: Option<GCWorkContext>,
    /// The bucket that is open, if a collection is in flight.
    pub open: Option<WorkBucketStage>,
    pub prepare: BucketState,
    pub closure: BucketState,
    pub release: BucketState,
}

impl SchedulerView {
    pub open spec fn bucket(self, stage: WorkBucketStage) -> BucketState {
        match stage {
            WorkBucketStage::Prepare => self.prepare,
            WorkBucketStage::Closure => self.closure,
            WorkBucketStage::Release => self.release,
        }
    }

    pub open spec fn with_bucket(self, stage: WorkBucketStage, bucket: BucketState) -> SchedulerView {
        match stage {
            WorkBucketStage::Prepare => SchedulerView { prepare: bucket, ..self },
            WorkBucketStage::Closure => SchedulerView { closure: bucket, ..self },
            WorkBucketStage::Release => SchedulerView { release: bucket, ..self },
        }
    }

    /// No collection is in flight.
    pub open spec fn idle(self) -> bool {
        self.open is None
    }

    /// A packet waits in the open bucket.
    pub open spec fn has_work(self) -> bool {
        self.open is Some && self.bucket(self.open->0).pending > 0
    }

    /// The phase barrier: while a packet of a phase runs, or any has run,
    /// every packet of every earlier phase has been completed, and no packet
    /// of a later phase has been taken.
    pub open spec fn barrier_holds(self) -> bool {
        match self.open {
            None => self.prepare.drained() && self.closure.drained() && self.release.drained(),
            Some(open) => forall|stage: WorkBucketStage|
                {
                    &&& stage.rank() < open.rank() ==> (#[trigger] self.bucket(stage)).drained()
                    &&& stage.rank() > open.rank() ==> self.bucket(stage).running == 0
                },
        }
    }

    pub open spec fn wf(self) -> bool {
        &&& self.barrier_holds()
        &&& self.context is Some <==> self.open is Some
        &&& forall|stage: WorkBucketStage|
            (#[trigger] self.bucket(stage)).pending + self.bucket(stage).running <= usize::MAX
    }

    /// The collection state that goes with the open bucket.
    pub open spec fn status(self) -> GcStatus {
        match self.open {
            None => GcStatus::NotCollecting,
            Some(stage) => stage.status(),
        }
    }

    /// The state with no collection in flight and no packet anywhere.
    pub open spec fn at_rest() -> SchedulerView {
        SchedulerView {
            context: None,
            open: None,
            prepare: BucketState { pending: 0, running: 0 },
            closure: BucketState { pending: 0, running: 0 },
            release: BucketState { pending: 0, running: 0 },
        }
    }

    /// The state with one packet in each bucket and the first bucket open.
    pub open spec fn scheduled(context: GCWorkContext) -> SchedulerView {
        SchedulerView {
            context: Some(context),
            open: Some(WorkBucketStage::Prepare),
            prepare: BucketState { pending: 1, running: 0 },
            closure: BucketState { pending: 1, running: 0 },
            release: BucketState { pending: 1, running: 0 },
        }
    }

    /// Whether a packet for `stage` can still be added: a collection is in
    /// flight, the bucket of `stage` has not been left behind, and its count
    /// fits the machine.
    pub open spec fn admits(self, stage: WorkBucketStage) -> bool {
        &&& self.open is Some
        &&& stage.rank() >= self.open->0.rank()
        &&& self.bucket(stage).pending + self.bucket(stage).running < usize::MAX
    }

    /// The state with one more packet waiting in the bucket of `stage`.
    pub open spec fn added(self, stage: WorkBucketStage) -> SchedulerView {
        self.with_bucket(
            stage,
            BucketState { pending: (self.bucket(stage).pending + 1) as usize, ..self.bucket(stage) },
        )
    }

    /// The state after a worker has taken a packet from the bucket of `stage`.
    pub open spec fn taken(self, stage: WorkBucketStage) -> SchedulerView {
        self.with_bucket(
            stage,
            BucketState {
                pending: (self.bucket(stage).pending - 1) as usize,
                running: (self.bucket(stage).running + 1) as usize,
            },
        )
    }

    /// The first bucket from the open one on that is not drained, if any.
    pub open spec fn next_open(self) -> Option<WorkBucketStage> {
        match self.open {
            None => None,
            Some(open) => if open.rank() <= 0 && !self.prepare.drained() {
                Some(WorkBucketStage::Prepare)
            } else if open.rank() <= 1 && !self.closure.drained() {
                Some(WorkBucketStage::Closure)
            } else if !self.release.drained() {
                Some(WorkBucketStage::Release)
            } else {
                None
            },
        }
    }

    /// The state after a worker has completed a packet of `stage`: the bucket
    /// counts one running packet less, and if that drains the open bucket,
    /// the next bucket with packets opens. When no bucket has packets left
    /// the collection is over.
    pub open spec fn completed(self, stage: WorkBucketStage) -> SchedulerView {
        let counted = self.with_bucket(
            stage,
            BucketState { running: (self.bucket(stage).running - 1) as usize, ..self.bucket(stage) },
        );
        let open = counted.next_open();
        SchedulerView { open, context: if open is None { None } else { counted.context }, ..counted }
    }
}

/// The pipeline of collection work.
pub struct GCWorkScheduler {
    context: Option<GCWorkContext>,
    open: Option<WorkBucketStage>,
    prepare: BucketState,
    closure: BucketState,
    release: BucketState,
}

impl View for GCWorkScheduler {
    type V = SchedulerView;

    closed spec fn view(&self) -> SchedulerView {
        SchedulerView {
            context: self.context,
            open: self.open,
            prepare: self.prepare,
            closure: self.closure,
            release: self.release,
        }
    }
}

impl GCWorkScheduler {
    /// A pipeline with no collection in flight.
    pub fn new() -> (r: GCWorkScheduler)
        ensures
            r@.wf(),
            r@ == SchedulerView::at_rest(),
    {
        let empty = BucketState { pending: 0, running: 0 };
        GCWorkScheduler { context: None, open: None, prepare: empty, closure: empty, release: empty }
    }

    /// Whether no collection is in flight.
    pub fn is_idle(&self) -> (r: bool)
        ensures
            r == self@.idle(),
    {
        self.open.is_none()
    }

    /// The bucket that is open, if a collection is in flight.
    pub fn open_stage(&self) -> (r: Option<WorkBucketStage>)
        ensures
            r == self@.open,
    {
        self.open
    }

    /// What the collection in flight runs with.
    pub fn context(&self) -> (r: Option<GCWorkContext>)
        ensures
            r == self@.context,
    {
        self.context
    }

    /// The collection state that goes with the open bucket.
    pub fn gc_status(&self) -> (r: GcStatus)
        ensures
            r == self@.status(),
    {
        match self.open {
            None => GcStatus::NotCollecting,
            Some(stage) => stage.gc_status(),
        }
    }

    /// The packets of the bucket of `stage`.
    pub fn bucket(&self, stage: WorkBucketStage) -> (r: BucketState)
        ensures
            r == self@.bucket(stage),
    {
        match stage {
            WorkBucketStage::Prepare => self.prepare,
            WorkBucketStage::Closure => self.closure,
            WorkBucketStage::Release => self.release,
        }
    }

    fn set_bucket(&mut self, stage: WorkBucketStage, bucket: BucketState)
        ensures
            final(self)@ == old(self)@.with_bucket(stage, bucket),
    {
        match stage {
            WorkBucketStage::Prepare => {
                self.prepare = bucket;
            },
            WorkBucketStage::Closure => {
                self.closure = bucket;
            },
            WorkBucketStage::Release => {
                self.release = bucket;
            },
        }
    }

    /// Starts a collection that runs with `context`: one packet waits in each
    /// bucket, for preparing, for tracing from the roots and for releasing,
    /// and the first bucket is open.
    pub fn schedule_common_work(&mut self, context: GCWorkContext)
        requires
            old(self)@.wf(),
            old(self)@.idle(),
        ensures
            final(self)@.wf(),
            final(self)@ == SchedulerView::scheduled(context),
    {
        let one = BucketState { pending: 1, running: 0 };
        self.context = Some(context);
        self.open = Some(WorkBucketStage::Prepare);
        self.prepare = one;
        self.closure = one;
        self.release = one;
    }

    /// Adds a packet to the bucket of `stage`, as tracing does when it finds
    /// more work. Returns whether the packet was taken on; a packet for a
    /// phase that is over is refused, since no packet of it may run any more.
    pub fn add_work(&mut self, stage: WorkBucketStage) -> (accepted: bool)
        requires
            old(self)@.wf(),
        ensures
            final(self)@.wf(),
            accepted == old(self)@.admits(stage),
            accepted ==> final(self)@ == old(self)@.added(stage),
            !accepted ==> final(self)@ == old(self)@,
    {
        let open = match self.open {
            None => {
                return false;
            },
            Some(open) => open,
        };
        let bucket = self.bucket(stage);
        if rank_of(stage) < rank_of(open) || bucket.running >= usize::MAX - bucket.pending {
            return false;
        }
        self.set_bucket(stage, BucketState { pending: bucket.pending + 1, running: bucket.running });
        proof {
            lemma_with_bucket(old(self)@, stage, self@.bucket(stage));
        }
        true
    }

    /// A worker asks for a packet. It gets one of the open bucket if one
    /// waits there, and nothing otherwise: packets of later buckets are held
    /// back until the open bucket is drained.
    pub fn poll(&mut self) -> (r: Option<WorkBucketStage>)
        requires
            old(self)@.wf(),
        ensures
            final(self)@.wf(),
            match r {
                Some(stage) => {
                    &&& old(self)@.has_work()
                    &&& old(self)@.open == Some(stage)
                    &&& final(self)@ == old(self)@.taken(stage)
                    &&& forall|earlier: WorkBucketStage|
                        earlier.rank() < stage.rank() ==> (#[trigger] old(self)@.bucket(earlier)).drained()
                },
                None => {
                    &&& !old(self)@.has_work()
                    &&& final(self)@ == old(self)@
                },
            },
    {
        let stage = match self.open {
            None => {
                return None;
            },
            Some(stage) => stage,
        };
        let bucket = self.bucket(stage);
        if bucket.pending == 0 {
            return None;
        }
        self.set_bucket(stage, BucketState { pending: bucket.pending - 1, running: bucket.running + 1 });
        proof {
            lemma_with_bucket(old(self)@, stage, self@.bucket(stage));
        }
        Some(stage)
    }

    /// A worker reports that it has completed a packet of `stage`, which it
    /// took before. If that drains the open bucket, the next bucket that
    /// holds packets opens; if none does, the collection is over. Returns
    /// whether the collection is over.
    pub fn finish(&mut self, stage: WorkBucketStage) -> (done: bool)
        requires
            old(self)@.wf(),
            old(self)@.bucket(stage).running > 0,
        ensures
            final(self)@.wf(),
            final(self)@ == old(self)@.completed(stage),
            done == final(self)@.idle(),
    {
        let bucket = self.bucket(stage);
        self.set_bucket(stage, BucketState { pending: bucket.pending, running: bucket.running - 1 });
        proof {
            lemma_with_bucket(old(self)@, stage, self@.bucket(stage));
            lemma_running_stage_is_open(old(self)@, stage);
        }
        let open = match self.open {
            None => None,
            Some(open) => if rank_of(open) == 0 && !is_drained(&self.prepare) {
                Some(WorkBucketStage::Prepare)
            } else if rank_of(open) <= 1 && !is_drained(&self.closure) {
                Some(WorkBucketStage::Closure)
            } else if !is_drained(&self.release) {
                Some(WorkBucketStage::Release)
            } else {
                None
            },
        };
        self.open = open;
        if open.is_none() {
            self.context = None;
        }
        proof {
            let before = old(self)@;
            let now = self@;
            assert(before.bucket(WorkBucketStage::Prepare).pending + before.bucket(
                WorkBucketStage::Prepare,
            ).running <= usize::MAX);
            assert(before.bucket(WorkBucketStage::Closure).pending + before.bucket(
                WorkBucketStage::Closure,
            ).running <= usize::MAX);
            assert(before.bucket(WorkBucketStage::Release).pending + before.bucket(
                WorkBucketStage::Release,
            ).running <= usize::MAX);
            assert(now.barrier_holds());
            assert(now.context is Some <==> now.open is Some);
            assert forall|s: WorkBucketStage|
                (#[trigger] now.bucket(s)).pending + now.bucket(s).running <= usize::MAX by {
                assert(before.bucket(s).pending + before.bucket(s).running <= usize::MAX);
            }
        }
        open.is_none()
    }
}

/// The place of `stage` in a collection.
fn rank_of(stage: WorkBucketStage) -> (r: u8)
    ensures
        r == stage.rank(),
{
    match stage {
        WorkBucketStage::Prepare => 0,
        WorkBucketStage::Closure => 1,
        WorkBucketStage::Release => 2,
    }
}

fn is_drained(bucket: &BucketState) -> (r: bool)
    ensures
        r == bucket.drained(),
{
    bucket.pending == 0 && bucket.running == 0
}

/// Replacing one bucket leaves the others as they were.
proof fn lemma_with_bucket(view: SchedulerView, stage: WorkBucketStage, bucket: BucketState)
    ensures
        view.with_bucket(stage, bucket).bucket(stage) == bucket,
        forall|other: WorkBucketStage|
            other != stage ==> #[trigger] view.with_bucket(stage, bucket).bucket(other) == view.bucket(other),
        view.with_bucket(stage, bucket).open == view.open,
        view.with_bucket(stage, bucket).context == view.context,
{
}

/// The phase barrier, from the side of a running packet: a packet runs only
/// in the open bucket, so every packet of every earlier phase has been
/// completed and none of a later phase has been taken.
pub proof fn lemma_running_stage_is_open(view: SchedulerView, stage: WorkBucketStage)
    requires
        view.wf(),
        view.bucket(stage).running > 0,
    ensures
        view.open == Some(stage),
        forall|earlier: WorkBucketStage|
            earlier.rank() < stage.rank() ==> (#[trigger] view.bucket(earlier)).drained(),
        forall|later: WorkBucketStage|
            later.rank() > stage.rank() ==> (#[trigger] view.bucket(later)).running == 0,
{
    assert(view.open is Some);
    let open = view.open->0;
    assert(view.bucket(stage).running > 0);
    if stage.rank() < open.rank() {
        assert(view.bucket(stage).drained());
    }
    if stage.rank() > open.rank() {
        assert(view.bucket(stage).running == 0);
    }
    assert(stage.rank() == open.rank());
}

/// The open bucket never goes back: completing a packet leaves the open
/// bucket open, opens a later one or ends the collection, and no other
/// operation touches it. So once a phase is over none of its packets runs.
pub proof fn lemma_open_never_goes_back(view: SchedulerView, stage: WorkBucketStage)
    requires
        view.wf(),
        view.open is Some,
    ensures
        view.completed(stage).open is Some ==> view.completed(stage).open->0.rank() >= view.open->0.rank(),
        view.added(stage).open == view.open,
        view.taken(stage).open == view.open,
{
}

/// The phase barrier, as workers meet it: in a valid pipeline a packet can be
/// taken only from the open bucket, and then every packet of every earlier
/// phase has been completed, while a packet for an earlier phase is refused.
pub proof fn lemma_phase_barrier(view: SchedulerView, stage: WorkBucketStage, earlier: WorkBucketStage)
    requires
        view.wf(),
        view.open == Some(stage),
        earlier.rank() < stage.rank(),
    ensures
        view.bucket(earlier).drained(),
        !view.admits(earlier),
        view.taken(stage).bucket(earlier).drained(),
{
    assert(view.bucket(earlier).drained());
    assert(earlier != stage);
    lemma_with_bucket(
        view,
        stage,
        BucketState {
            pending: (view.bucket(stage).pending - 1) as usize,
            running: (view.bucket(stage).running + 1) as usize,
        },
    );
}

/// A packet that has been taken runs: the pipeline is valid, and the bucket
/// of the packet counts it as running.
pub proof fn lemma_taken_is_running(view: SchedulerView, stage: WorkBucketStage)
    requires
        view.wf(),
        view.open == Some(stage),
        view.bucket(stage).pending > 0,
    ensures
        view.taken(stage).bucket(stage).running > 0,
{
    lemma_with_bucket(
        view,
        stage,
        BucketState {
            pending: (view.bucket(stage).pending - 1) as usize,
            running: (view.bucket(stage).running + 1) as usize,
        },
    );
}

/// What can happen to the pipeline while a collection is in flight.
pub enum PipelineEvent {
    /// A packet for `stage` is offered, as by `add_work`.
    Offer { stage: WorkBucketStage },
    /// A worker asks for a packet, as by `poll`.
    Ask,
    /// A worker completes a packet of `stage`, as by `finish`.
    Complete { stage: WorkBucketStage },
}

/// Whether `event` can happen in the state `view`: a worker can only
/// complete a packet that runs.
pub open spec fn event_allowed(view: SchedulerView, event: PipelineEvent) -> bool {
    match event {
        PipelineEvent::Complete { stage } => view.bucket(stage).running > 0,
        _ => true,
    }
}

/// The state of the pipeline after `event`.
pub open spec fn after_event(view: SchedulerView, event: PipelineEvent) -> SchedulerView {
    match event {
        PipelineEvent::Offer { stage } => if view.admits(stage) {
            view.added(stage)
        } else {
            view
        },
        PipelineEvent::Ask => if view.has_work() {
            view.taken(view.open->0)
        } else {
            view
        },
        PipelineEvent::Complete { stage } => view.completed(stage),
    }
}

/// The state of the pipeline after `events`, taken in order.
pub open spec fn after_events(view: SchedulerView, events: Seq<PipelineEvent>) -> SchedulerView
    decreases events.len(),
{
    if events.len() == 0 {
        view
    } else {
        after_event(after_events(view, events.drop_last()), events.last())
    }
}

/// Whether each of `events` can happen in the state that the events before
/// it lead to.
pub open spec fn events_allowed(view: SchedulerView, events: Seq<PipelineEvent>) -> bool
    decreases events.len(),
{
    events.len() > 0 ==> events_allowed(view, events.drop_last()) && event_allowed(
        after_events(view, events.drop_last()),
        events.last(),
    )
}

/// One event keeps the pipeline valid, and does not take the open bucket
/// back: afterwards the bucket that was open or a later one is open, or the
/// collection is over.
pub proof fn lemma_event_keeps_order(view: SchedulerView, event: PipelineEvent)
    requires
        view.wf(),
        event_allowed(view, event),
    ensures
        after_event(view, event).wf(),
        view.open is None ==> after_event(view, event).open is None,
        after_event(view, event).open is Some ==> view.open is Some && after_event(view, event).open->0.rank()
            >= view.open->0.rank(),
{
    let after = after_event(view, event);
    assert(view.bucket(WorkBucketStage::Prepare).pending + view.bucket(WorkBucketStage::Prepare).running
        <= usize::MAX);
    assert(view.bucket(WorkBucketStage::Closure).pending + view.bucket(WorkBucketStage::Closure).running
        <= usize::MAX);
    assert(view.bucket(WorkBucketStage::Release).pending + view.bucket(WorkBucketStage::Release).running
        <= usize::MAX);
    match event {
        PipelineEvent::Complete { stage } => {
            lemma_running_stage_is_open(view, stage);
        },
        _ => {},
    }
    assert(after.barrier_holds());
    assert forall|s: WorkBucketStage| (#[trigger] after.bucket(s)).pending + after.bucket(s).running
        <= usize::MAX by {
        assert(view.bucket(s).pending + view.bucket(s).running <= usize::MAX);
    }
}

/// The phase barrier over time: once the bucket of a phase is open, then
/// whatever workers do from there on, no packet of an earlier phase waits or
/// runs ever again in this collection. So no packet of a phase starts before
/// every packet of every earlier phase has been completed.
pub proof fn lemma_earlier_phases_stay_done(
    view: SchedulerView,
    events: Seq<PipelineEvent>,
    earlier: WorkBucketStage,
)
    requires
        view.wf(),
        view.open is Some,
        earlier.rank() < view.open->0.rank(),
        events_allowed(view, events),
    ensures
        after_events(view, events).wf(),
        after_events(view, events).bucket(earlier).drained(),
        after_events(view, events).open is Some ==> after_events(view, events).open->0.rank()
            >= view.open->0.rank(),
    decreases events.len(),
{
    if events.len() == 0 {
        assert(view.bucket(earlier).drained());
    } else {
        let before = after_events(view, events.drop_last());
        lemma_earlier_phases_stay_done(view, events.drop_last(), earlier);
        lemma_event_keeps_order(before, events.last());
        let after = after_event(before, events.last());
        if after.open is Some {
            assert(after.bucket(earlier).drained());
        } else {
            assert(after.prepare.drained() && after.closure.drained() && after.release.drained());
        }
    }
}

} // verus!
