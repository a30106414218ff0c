//! What every collection plan is built from: the constraints of a strategy,
//! the collection state of the process, and the bookkeeping spaces that plans
//! share.

use crate::side_metadata::{
    all_well_formed, append_specs, conflict_free, SanityError, SideMetadataContext, SideMetadataSanity,
    SideMetadataSpec,
};
use crate::space::{
    lemma_total_pages_by_region, protection_changes, LargeObjectSpace, PlanCreateSpaceArgs, ProtectionChange,
    SpaceView, VMRequest,
};
use vstd::prelude::*;

verus! {

/// What is fixed about a collection strategy. The constraints are set when
/// the plan is made and never change.
#[derive(Clone, Copy, Debug, PartialEq, Eq, Structural)]
pub struct PlanConstraints {
    /// Whether a collection may move an object to another address.
    pub moves_objects: bool,
    /// Whether the mutators must run a barrier on every write of a reference.
    pub needs_write_barrier: bool,
}

impl Default for PlanConstraints {
    /// A strategy that leaves objects in place and needs no barrier.
    fn default() -> (r: PlanConstraints)
        ensures
            r == (PlanConstraints { moves_objects: false, needs_write_barrier: false }),
    {
        PlanConstraints { moves_objects: false, needs_write_barrier: false }
    }
}

/// The collection strategies that a heap can be run with.
#[derive(Clone, Copy, Debug, PartialEq, Eq, Structural)]
pub enum PlanSelector {
    NoGC,
    SemiSpace,
    MarkSweep,
    PageProtect,
}

/// The collection state of the process. One collection is in flight at a
/// time, and the states follow each other in this order, over and over.
#[derive(Clone, Copy, Debug, PartialEq, Eq, Structural)]
pub enum GcStatus {
    /// No collection is in flight: mutators may allocate.
    NotCollecting,
    /// Mutators are stopped and the spaces are being prepared.
    GcPrepare,
    /// Tracing runs.
    GcProper,
    /// The spaces are being released.
    GcRelease,
}

impl GcStatus {
    /// The state that follows this one.
    pub open spec fn next(self) -> GcStatus {
        match self {
            GcStatus::NotCollecting => GcStatus::GcPrepare,
            GcStatus::GcPrepare => GcStatus::GcProper,
            GcStatus::GcProper => GcStatus::GcRelease,
            GcStatus::GcRelease => GcStatus::NotCollecting,
        }
    }

    /// The state that follows this one.
    pub fn successor(&self) -> (r: GcStatus)
        ensures
            r == self.next(),
    {
        match self {
            GcStatus::NotCollecting => GcStatus::GcPrepare,
            GcStatus::GcPrepare => GcStatus::GcProper,
            GcStatus::GcProper => GcStatus::GcRelease,
            GcStatus::GcRelease => GcStatus::NotCollecting,
        }
    }

    /// Whether a thread that asks for memory in this state has to wait until
    /// the collection is over.
    pub fn blocks_allocation(&self) -> (r: bool)
        ensures
            r == (*self != GcStatus::NotCollecting),
    {
        match self {
            GcStatus::NotCollecting => false,
            _ => true,
        }
    }
}

/// The worker thread that runs a piece of collection work.
#[derive(Clone, Copy, Debug, PartialEq, Eq, Structural)]
pub struct VMWorkerThread(pub usize);

/// What a heap hands to the plan that it creates.
pub struct CreateGeneralPlanArgs {
    /// The heap size in pages. A collection is due once more is in use.
    pub heap_pages: usize,
    /// The metadata regions that serve the whole heap.
    pub global_side_metadata_specs: Vec<SideMetadataSpec>,
    /// The metadata regions that large-object spaces keep for their objects.
    pub local_side_metadata_specs: Vec<SideMetadataSpec>,
}

impl CreateGeneralPlanArgs {
    /// All metadata regions that a plan made from these arguments declares.
    pub open spec fn declared_specs(self) -> Seq<SideMetadataSpec> {
        self.global_side_metadata_specs@ + self.local_side_metadata_specs@
    }

    /// Every declared metadata region is well formed, and no two different
    /// ones share storage.
    pub open spec fn metadata_sane(self) -> bool {
        &&& all_well_formed(self.declared_specs())
        &&& conflict_free(Set::empty(), self.declared_specs())
    }

    /// Checks the declared metadata regions, as making a plan from these
    /// arguments demands.
    pub fn verify_side_metadata(&self) -> (r: Result<(), SanityError>)
        ensures
            r is Ok <==> self.metadata_sane(),
            r == Err::<(), SanityError>(SanityError::Malformed) <==> !all_well_formed(self.declared_specs()),
            r == Err::<(), SanityError>(SanityError::Overlap) <==> all_well_formed(self.declared_specs())
                && !conflict_free(Set::empty(), self.declared_specs()),
    {
        let mut global: Vec<SideMetadataSpec> = Vec::new();
        append_specs(&mut global, &self.global_side_metadata_specs);
        let mut local: Vec<SideMetadataSpec> = Vec::new();
        append_specs(&mut local, &self.local_side_metadata_specs);
        let context = SideMetadataContext { global, local };
        assert(context.specs() == self.declared_specs());
        let mut checker = SideMetadataSanity::new();
        checker.verify_metadata_context(&context)
    }
}

/// Arguments that declare two different metadata regions that share storage
/// are not sound, so no plan can be made from them.
pub proof fn lemma_overlapping_specs_are_refused(args: CreateGeneralPlanArgs, i: int, j: int)
    requires
        0 <= i < args.declared_specs().len(),
        0 <= j < args.declared_specs().len(),
        args.declared_specs()[i] != args.declared_specs()[j],
        args.declared_specs()[i].overlaps(args.declared_specs()[j]),
    ensures
        !args.metadata_sane(),
{
    assert(args.declared_specs()[i].conflicts_with(args.declared_specs()[j]));
}

/// What a plan adds to the heap's arguments before it creates its spaces.
pub struct CreateSpecificPlanArgs {
    pub global_args: CreateGeneralPlanArgs,
    pub constraints: PlanConstraints,
    /// The global metadata regions of the plan.
    pub global_side_metadata_specs: Vec<SideMetadataSpec>,
}

impl CreateSpecificPlanArgs {
    /// The arguments for a space of this plan.
    pub fn get_space_args(&self, name: &'static str, zeroed: bool, vmrequest: VMRequest) -> (r:
        PlanCreateSpaceArgs)
        ensures
            r.name == name,
            r.zeroed == zeroed,
            r.vmrequest == vmrequest,
            r.global_side_metadata_specs@ == self.global_side_metadata_specs@,
            r.local_side_metadata_specs@ == self.global_args.local_side_metadata_specs@,
    {
        let mut global: Vec<SideMetadataSpec> = Vec::new();
        append_specs(&mut global, &self.global_side_metadata_specs);
        let mut local: Vec<SideMetadataSpec> = Vec::new();
        append_specs(&mut local, &self.global_args.local_side_metadata_specs);
        PlanCreateSpaceArgs {
            name,
            zeroed,
            vmrequest,
            global_side_metadata_specs: global,
            local_side_metadata_specs: local,
        }
    }
}

/// The state that every plan has, as contracts see it.
pub struct BaseView {
    pub gc_status: GcStatus,
    /// The strategy that drives the collection in flight, or drove the last.
    pub collection_kind: Option<PlanSelector>,
    /// The heap size in pages.
    pub heap_pages: usize,
    pub constraints: PlanConstraints,
}

/// The state that every plan has: the collection state of the process, the
/// strategy that drives the collection in flight, the heap size, and the
/// constraints of the plan.
pub struct BasePlan {
    gc_status: GcStatus,
    collection_kind: Option<PlanSelector>,
    heap_pages: usize,
    constraints: PlanConstraints,
}

impl View for BasePlan {
    type V = BaseView;

    closed spec fn view(&self) -> BaseView {
        BaseView {
            gc_status: self.gc_status,
            collection_kind: self.collection_kind,
            heap_pages: self.heap_pages,
            constraints: self.constraints,
        }
    }
}

impl BasePlan {
    /// The state of a heap that has not run a collection yet.
    pub fn new(args: &CreateSpecificPlanArgs) -> (r: BasePlan)
        ensures
            r@ == (BaseView {
                gc_status: GcStatus::NotCollecting,
                collection_kind: None,
                heap_pages: args.global_args.heap_pages,
                constraints: args.constraints,
            }),
    {
        BasePlan {
            gc_status: GcStatus::NotCollecting,
            collection_kind: None,
            heap_pages: args.global_args.heap_pages,
            constraints: args.constraints,
        }
    }

    pub fn gc_status(&self) -> (r: GcStatus)
        ensures
            r == self@.gc_status,
    {
        self.gc_status
    }

    /// The strategy that drives the collection in flight, or drove the last.
    pub fn collection_kind(&self) -> (r: Option<PlanSelector>)
        ensures
            r == self@.collection_kind,
    {
        self.collection_kind
    }

    pub fn heap_pages(&self) -> (r: usize)
        ensures
            r == self@.heap_pages,
    {
        self.heap_pages
    }

    /// The constraints of the plan. Nothing changes them.
    pub fn constraints(&self) -> (r: &PlanConstraints)
        ensures
            *r == self@.constraints,
    {
        &self.constraints
    }

    /// Whether a collection is in flight, so that a thread that asks for
    /// memory has to wait until it is over.
    pub fn is_collecting(&self) -> (r: bool)
        ensures
            r == (self@.gc_status != GcStatus::NotCollecting),
    {
        self.gc_status.blocks_allocation()
    }

    /// Moves the collection state on to `status`, which must be the state
    /// that follows the current one.
    pub fn set_gc_status(&mut self, status: GcStatus)
        requires
            status == old(self)@.gc_status.next(),
        ensures
            final(self)@ == (BaseView { gc_status: status, ..old(self)@ }),
    {
        self.gc_status = status;
    }

    /// Moves the collection state on, state by state, until it is `status`.
    pub fn advance_to(&mut self, status: GcStatus)
        ensures
            final(self)@ == (BaseView { gc_status: status, ..old(self)@ }),
    {
        if self.gc_status != status {
            self.set_gc_status(self.gc_status.successor());
        }
        if self.gc_status != status {
            self.set_gc_status(self.gc_status.successor());
        }
        if self.gc_status != status {
            self.set_gc_status(self.gc_status.successor());
        }
    }

    /// Records which strategy drives the collection that is about to start.
    pub fn set_collection_kind(&mut self, plan: PlanSelector)
        ensures
            final(self)@ == (BaseView { collection_kind: Some(plan), ..old(self)@ }),
    {
        self.collection_kind = Some(plan);
    }

    /// Whether a collection is due: the space that was asked is full, or the
    /// plan uses more pages than the heap size.
    pub fn collection_required(&self, used_pages: usize, space_full: bool) -> (r: bool)
        ensures
            r == (space_full || used_pages > self@.heap_pages),
    {
        space_full || used_pages > self.heap_pages
    }
}

/// The spaces that plans share, and the state that every plan has.
pub struct CommonPlan {
    /// Objects that are never collected.
    pub immortal: LargeObjectSpace,
    /// Large objects of the shared part of the heap.
    pub los: LargeObjectSpace,
    pub base: BasePlan,
}

impl CommonPlan {
    /// The spaces are valid, they declare the same metadata regions, and
    /// their page counts can be added up.
    pub open spec fn wf(&self) -> bool {
        &&& self.immortal.wf()
        &&& self.los.wf()
        &&& self.los@.metadata == self.immortal@.metadata
        &&& self.spec_used_pages() <= usize::MAX
    }

    pub open spec fn spec_used_pages(&self) -> int {
        self.immortal@.reserved_pages() + self.los@.reserved_pages()
    }

    /// The shared spaces of a plan. They do not close the pages of dead
    /// objects.
    pub fn new(args: CreateSpecificPlanArgs) -> (r: CommonPlan)
        ensures
            r.wf(),
            r.immortal@ == (SpaceView {
                name: "immortal",
                zeroed: true,
                objects: Seq::empty(),
                nursery_start: 0,
                protect_memory_on_release: false,
                request: VMRequest::Discontiguous,
                metadata: args.global_side_metadata_specs@ + args.global_args.local_side_metadata_specs@,
            }),
            r.los@ == (SpaceView { name: "los", ..r.immortal@ }),
            r.base@ == (BaseView {
                gc_status: GcStatus::NotCollecting,
                collection_kind: None,
                heap_pages: args.global_args.heap_pages,
                constraints: args.constraints,
            }),
    {
        let immortal = LargeObjectSpace::new(
            args.get_space_args("immortal", true, VMRequest::discontiguous()),
            false,
        );
        let los = LargeObjectSpace::new(args.get_space_args("los", true, VMRequest::discontiguous()), false);
        let base = BasePlan::new(&args);
        CommonPlan { immortal, los, base }
    }

    /// The shared spaces, in the order in which they were made.
    pub fn get_spaces(&self) -> (r: Vec<&LargeObjectSpace>)
        ensures
            r@ == seq![&self.immortal, &self.los],
    {
        let mut ret: Vec<&LargeObjectSpace> = Vec::new();
        ret.push(&self.immortal);
        ret.push(&self.los);
        ret
    }

    /// The pages that the shared spaces hold.
    pub fn get_used_pages(&self) -> (pages: usize)
        requires
            self.wf(),
        ensures
            pages == self.spec_used_pages(),
    {
        self.immortal.reserved_pages() + self.los.reserved_pages()
    }

    /// Prepares the shared spaces for a collection. Returns the requests for
    /// opening pages, those of the immortal space first.
    pub fn prepare(&mut self, tls: VMWorkerThread, full_heap: bool) -> (changes: Vec<ProtectionChange>)
        requires
            old(self).wf(),
        ensures
            final(self).wf(),
            final(self).immortal@ == old(self).immortal@.prepared(),
            final(self).los@ == old(self).los@.prepared(),
            final(self).base == old(self).base,
            changes@ == protection_changes(old(self).immortal@.objects, final(self).immortal@.objects)
                + protection_changes(old(self).los@.objects, final(self).los@.objects),
    {
        let mut changes = self.immortal.prepare(full_heap);
        let mut more = self.los.prepare(full_heap);
        changes.append(&mut more);
        proof {
            lemma_total_pages_by_region(self.immortal@.objects, old(self).immortal@.objects);
            lemma_total_pages_by_region(self.los@.objects, old(self).los@.objects);
        }
        changes
    }

    /// Releases the shared spaces after a collection. Returns the requests
    /// for closing and opening pages, those of the immortal space first.
    pub fn release(&mut self, tls: VMWorkerThread, full_heap: bool) -> (changes: Vec<ProtectionChange>)
        requires
            old(self).wf(),
        ensures
            final(self).wf(),
            final(self).immortal@ == old(self).immortal@.released(),
            final(self).los@ == old(self).los@.released(),
            final(self).base == old(self).base,
            changes@ == protection_changes(old(self).immortal@.objects, final(self).immortal@.objects)
                + protection_changes(old(self).los@.objects, final(self).los@.objects),
    {
        let mut changes = self.immortal.release(full_heap);
        let mut more = self.los.release(full_heap);
        changes.append(&mut more);
        proof {
            lemma_total_pages_by_region(self.immortal@.objects, old(self).immortal@.objects);
            lemma_total_pages_by_region(self.los@.objects, old(self).los@.objects);
        }
        changes
    }

    /// Hands the metadata regions of the shared spaces to `checker`, those of
    /// the immortal space first. The first refusal ends the check.
    pub fn verify_side_metadata_sanity(&self, checker: &mut SideMetadataSanity) -> (r: Result<(), SanityError>)
        requires
            self.wf(),
            old(checker).wf(),
        ensures
            final(checker).wf(),
            r is Ok <==> all_well_formed(self.immortal@.metadata) && conflict_free(
                old(checker)@,
                self.immortal@.metadata,
            ),
            r == Err::<(), SanityError>(SanityError::Malformed) <==> !all_well_formed(self.immortal@.metadata),
            r == Err::<(), SanityError>(SanityError::Overlap) <==> all_well_formed(self.immortal@.metadata)
                && !conflict_free(old(checker)@, self.immortal@.metadata),
            r is Ok ==> final(checker)@ == old(checker)@.union(self.immortal@.metadata.to_set()),
            r is Err ==> final(checker)@ == old(checker)@,
    {
        match self.immortal.verify_side_metadata_sanity(checker) {
            Err(e) => Err(e),
            Ok(()) => {
                proof {
                    lemma_declared_twice(old(checker)@, self.immortal@.metadata);
                }
                let again = self.los.verify_side_metadata_sanity(checker);
                assert(checker@ =~= old(checker)@.union(self.immortal@.metadata.to_set()));
                again
            },
        }
    }
}

/// Declarations that were accepted are accepted again: none of them conflicts
/// with itself or with another accepted one.
pub proof fn lemma_declared_twice(registered: Set<SideMetadataSpec>, specs: Seq<SideMetadataSpec>)
    requires
        conflict_free(registered, specs),
    ensures
        conflict_free(registered.union(specs.to_set()), specs),
{
    assert forall|i: int, r: SideMetadataSpec|
        0 <= i < specs.len() && #[trigger] registered.union(specs.to_set()).contains(r) implies !r.conflicts_with(
        #[trigger] specs[i],
    ) by {
        if !registered.contains(r) {
            assert(specs.to_set().contains(r));
            let k = choose|k: int| 0 <= k < specs.len() && specs[k] == r;
            assert(!specs[k].conflicts_with(specs[i]));
        }
    }
}

} // verus!
