//! The page-protecting plan. It keeps every object in a large-object space of
//! its own, never moves or frees one, and after each collection closes the
//! pages of the objects that the collection did not reach. A later use of
//! such an object faults at once.
//!
//! The plan holds on to all memory it ever handed out: what it reserves only
//! grows. It also asks the operating system for a mapping per object, so a
//! process may run into the system's limit on mappings.

use crate::address::{bytes_to_pages_up, pages_spanned, ObjectReference, Region};
use crate::gc_work::{trace, traced, Edge};
use crate::mutator::{
    create_allocator_mapping, lemma_mapping_is_constant, AllocationSemantics, AllocatorMapping, AllocatorSelector,
};
use crate::plan::{
    lemma_declared_twice, BasePlan, BaseView, CommonPlan, CreateGeneralPlanArgs, CreateSpecificPlanArgs, GcStatus,
    PlanConstraints, PlanSelector, VMWorkerThread,
};
use crate::scheduler::{GCWorkContext, GCWorkScheduler, SchedulerView};
use crate::side_metadata::{
    all_well_formed, conflict_free, SanityError, SideMetadataContext, SideMetadataSanity, SideMetadataSpec,
};
use crate::space::{
    lemma_total_pages_by_region, lemma_total_pages_nonnegative, lemma_total_pages_push, protection_changes,
    AllocationError, LargeObjectSpace, MapFailure, ObjectState, ProtectionChange, SpaceView, VMRequest,
};
use vstd::prelude::*;

verus! {

/// The constraints of the page-protecting plan. Objects never move: closing
/// the pages of a dead object tells of a later use only if the object is
/// still where it was.
pub open spec fn spec_constraints() -> PlanConstraints {
    PlanConstraints { moves_objects: false, needs_write_barrier: false }
}

/// The constraints of the page-protecting plan.
pub fn page_protect_constraints() -> (r: PlanConstraints)
    ensures
        r == spec_constraints(),
{
    PlanConstraints { moves_objects: false, ..PlanConstraints::default() }
}

pub struct PageProtect {
    /// The space that holds every object of the mutators.
    pub space: LargeObjectSpace,
    pub common: CommonPlan,
    /// The allocator for each allocation semantic.
    pub allocator_mapping: AllocatorMapping,
}

impl PageProtect {
    /// The pages that the plan holds, over all its spaces.
    pub open spec fn spec_used_pages(&self) -> int {
        self.space@.reserved_pages() + self.common.spec_used_pages()
    }

    /// The invariant of the plan: its spaces are valid, no page belongs to
    /// two of them, the space of the plan closes the pages of dead objects,
    /// the page counts can be added up, and every allocation goes to the
    /// large-object allocator.
    pub open spec fn wf(&self) -> bool {
        &&& self.space.wf()
        &&& self.common.wf()
        &&& self.space@.protect_memory_on_release
        &&& self.spec_used_pages() <= usize::MAX
        &&& self.space@.disjoint_from(self.common.immortal@)
        &&& self.space@.disjoint_from(self.common.los@)
        &&& self.common.immortal@.disjoint_from(self.common.los@)
        &&& self.allocator_mapping.routes_all_to_large_objects()
        &&& self.common.base@.constraints == spec_constraints()
    }

    /// Whether the plan can take `region` for a new object of `pages` pages:
    /// its space can, no shared space holds a page of the run, and the page
    /// count of the plan still fits the machine.
    pub open spec fn accepts(&self, region: Region, pages: int) -> bool {
        &&& self.space@.accepts(region, pages)
        &&& !self.common.immortal@.overlaps_object(region)
        &&& !self.common.los@.overlaps_object(region)
        &&& self.spec_used_pages() + pages <= usize::MAX
    }

    /// Whether the plan is as `new` makes it from `args`: three spaces
    /// without objects that declare the metadata regions of `args`, no
    /// collection in flight, and the heap size of `args`.
    pub open spec fn is_new_from(&self, args: CreateGeneralPlanArgs) -> bool {
        &&& self.space@ == (SpaceView {
            name: "pageprotect",
            zeroed: true,
            objects: Seq::empty(),
            nursery_start: 0,
            protect_memory_on_release: true,
            request: VMRequest::Discontiguous,
            metadata: args.declared_specs(),
        })
        &&& self.common.immortal@ == (SpaceView {
            name: "immortal",
            protect_memory_on_release: false,
            ..self.space@
        })
        &&& self.common.los@ == (SpaceView { name: "los", ..self.common.immortal@ })
        &&& self.common.base@ == (BaseView {
            gc_status: GcStatus::NotCollecting,
            collection_kind: None,
            heap_pages: args.heap_pages,
            constraints: spec_constraints(),
        })
    }

    /// Makes the plan for a heap. The metadata regions that the arguments
    /// declare must be sound: a plan whose protection bits share storage with
    /// other metadata cannot tell dead objects from live ones.
    pub fn new(args: CreateGeneralPlanArgs) -> (plan: PageProtect)
        requires
            args.metadata_sane(),
        ensures
            plan.wf(),
            plan.is_new_from(args),
    {
        let ghost declared = args.declared_specs();
        let no_specs: Vec<SideMetadataSpec> = Vec::new();
        let global_specs = SideMetadataContext::new_global_specs(&args.global_side_metadata_specs, &no_specs);
        assert(global_specs@ == args.global_side_metadata_specs@);
        let plan_args = CreateSpecificPlanArgs {
            global_args: args,
            constraints: page_protect_constraints(),
            global_side_metadata_specs: global_specs,
        };

        let ret = PageProtect {
            space: LargeObjectSpace::new(
                plan_args.get_space_args("pageprotect", true, VMRequest::discontiguous()),
                true,
            ),
            common: CommonPlan::new(plan_args),
            allocator_mapping: create_allocator_mapping(),
        };

        // Every metadata region of every space goes through the sanity
        // checker. The arguments are sound, so none is refused.
        let mut side_metadata_sanity_checker = SideMetadataSanity::new();
        let common_checked = ret.common.verify_side_metadata_sanity(&mut side_metadata_sanity_checker);
        proof {
            lemma_declared_twice(Set::empty(), declared);
            assert(side_metadata_sanity_checker@ =~= Set::<SideMetadataSpec>::empty().union(declared.to_set()));
        }
        let space_checked = ret.space.verify_side_metadata_sanity(&mut side_metadata_sanity_checker);
        assert(common_checked is Ok && space_checked is Ok);

        ret
    }

    /// Checks the metadata regions that the arguments declare and makes the
    /// plan if they are sound. Unsound arguments are refused before the plan
    /// or any of its spaces exists, so before anything can be allocated.
    pub fn try_new(args: CreateGeneralPlanArgs) -> (r: Result<PageProtect, SanityError>)
        ensures
            r is Ok <==> args.metadata_sane(),
            r is Err && r->Err_0 == SanityError::Malformed <==> !all_well_formed(args.declared_specs()),
            r is Err && r->Err_0 == SanityError::Overlap <==> all_well_formed(args.declared_specs())
                && !conflict_free(Set::empty(), args.declared_specs()),
            r is Ok ==> r->Ok_0.wf() && r->Ok_0.is_new_from(args),
    {
        match args.verify_side_metadata() {
            Err(e) => Err(e),
            Ok(()) => Ok(PageProtect::new(args)),
        }
    }

    /// The constraints of the plan, as they were fixed when it was made:
    /// objects never move.
    pub fn constraints(&self) -> (r: &PlanConstraints)
        ensures
            *r == self.common.base@.constraints,
            self.wf() ==> *r == spec_constraints() && !r.moves_objects,
    {
        self.common.base.constraints()
    }

    /// Every space of the plan: the shared ones in the order in which they
    /// were made, then the space of the plan.
    pub fn get_spaces(&self) -> (r: Vec<&LargeObjectSpace>)
        ensures
            r@ == seq![&self.common.immortal, &self.common.los, &self.space],
    {
        let mut ret = self.common.get_spaces();
        ret.push(&self.space);
        ret
    }

    /// Starts a collection: records that this plan drives it, moves the
    /// collection state to `GcPrepare`, and hands the pipeline the work of a
    /// collection that traces as this plan does. No collection may be in
    /// flight.
    pub fn schedule_collection(&mut self, scheduler: &mut GCWorkScheduler)
        requires
            old(self).common.base@.gc_status == GcStatus::NotCollecting,
            old(scheduler)@.wf(),
            old(scheduler)@.idle(),
        ensures
            final(self).common.base@ == (BaseView {
                gc_status: GcStatus::GcPrepare,
                collection_kind: Some(PlanSelector::PageProtect),
                ..old(self).common.base@
            }),
            final(self).space == old(self).space,
            final(self).common.immortal == old(self).common.immortal,
            final(self).common.los == old(self).common.los,
            final(self).allocator_mapping == old(self).allocator_mapping,
            old(self).wf() ==> final(self).wf(),
            final(scheduler)@.wf(),
            final(scheduler)@ == SchedulerView::scheduled(
                GCWorkContext { plan: PlanSelector::PageProtect, moves_objects: false },
            ),
    {
        self.common.base.set_collection_kind(PlanSelector::PageProtect);
        self.common.base.set_gc_status(GcStatus::GcPrepare);
        let constraints = page_protect_constraints();
        scheduler.schedule_common_work(GCWorkContext::for_plan(PlanSelector::PageProtect, &constraints));
    }

    /// The allocator for each allocation semantic. All semantics have the
    /// same one.
    pub fn get_allocator_mapping(&self) -> (r: &AllocatorMapping)
        ensures
            *r == self.allocator_mapping,
    {
        &self.allocator_mapping
    }

    /// Prepares all spaces for tracing: the marks of the last collection are
    /// forgotten and every closed page is opened, so that tracing can touch
    /// every object. Returns the requests for opening pages.
    pub fn prepare(&mut self, tls: VMWorkerThread) -> (changes: Vec<ProtectionChange>)
        requires
            old(self).wf(),
        ensures
            final(self).wf(),
            final(self).space@ == old(self).space@.prepared(),
            final(self).common.immortal@ == old(self).common.immortal@.prepared(),
            final(self).common.los@ == old(self).common.los@.prepared(),
            final(self).common.base == old(self).common.base,
            final(self).allocator_mapping == old(self).allocator_mapping,
            changes@ == protection_changes(old(self).common.immortal@.objects, final(self).common.immortal@.objects)
                + protection_changes(old(self).common.los@.objects, final(self).common.los@.objects)
                + protection_changes(old(self).space@.objects, final(self).space@.objects),
    {
        let mut changes = self.common.prepare(tls, true);
        let mut more = self.space.prepare(true);
        changes.append(&mut more);
        proof {
            lemma_total_pages_by_region(self.space@.objects, old(self).space@.objects);
            lemma_total_pages_by_region(
                self.common.immortal@.objects,
                old(self).common.immortal@.objects,
            );
            lemma_total_pages_by_region(self.common.los@.objects, old(self).common.los@.objects);
        }
        changes
    }

    /// Releases all spaces after tracing: in the space of the plan the pages
    /// of every object that the collection did not reach are closed, unless
    /// the object is younger than the collection. Returns the requests for
    /// closing and opening pages.
    pub fn release(&mut self, tls: VMWorkerThread) -> (changes: Vec<ProtectionChange>)
        requires
            old(self).wf(),
        ensures
            final(self).wf(),
            final(self).space@ == old(self).space@.released(),
            final(self).common.immortal@ == old(self).common.immortal@.released(),
            final(self).common.los@ == old(self).common.los@.released(),
            final(self).common.base == old(self).common.base,
            final(self).allocator_mapping == old(self).allocator_mapping,
            changes@ == protection_changes(old(self).common.immortal@.objects, final(self).common.immortal@.objects)
                + protection_changes(old(self).common.los@.objects, final(self).common.los@.objects)
                + protection_changes(old(self).space@.objects, final(self).space@.objects),
    {
        let mut changes = self.common.release(tls, true);
        let mut more = self.space.release(true);
        changes.append(&mut more);
        proof {
            lemma_total_pages_by_region(self.space@.objects, old(self).space@.objects);
            lemma_total_pages_by_region(
                self.common.immortal@.objects,
                old(self).common.immortal@.objects,
            );
            lemma_total_pages_by_region(self.common.los@.objects, old(self).common.los@.objects);
        }
        changes
    }

    /// Whether a collection is due when a space could not serve a request:
    /// the space is full, or the plan uses more pages than the heap size.
    pub fn collection_required(&self, space_full: bool, space: Option<&LargeObjectSpace>) -> (r: bool)
        requires
            self.wf(),
        ensures
            r == (space_full || self.spec_used_pages() > self.common.base@.heap_pages),
    {
        self.base().collection_required(self.get_used_pages(), space_full)
    }

    /// The pages that the plan holds, over all its spaces, as they are now.
    pub fn get_used_pages(&self) -> (pages: usize)
        requires
            self.wf(),
        ensures
            pages == self.spec_used_pages(),
    {
        self.space.reserved_pages() + self.common.get_used_pages()
    }

    pub fn base(&self) -> (r: &BasePlan)
        ensures
            *r == self.common.base,
    {
        &self.common.base
    }

    pub fn common(&self) -> (r: &CommonPlan)
        ensures
            *r == self.common,
    {
        &self.common
    }

    /// Whether tracing may move an object. It never does.
    pub fn may_move_objects(&self) -> (r: bool)
        ensures
            !r,
    {
        page_protect_constraints().moves_objects
    }

    /// Records a new object of `bytes` bytes for a request with `semantics`.
    /// `reserved` is the answer of the operating system to a request for the
    /// pages that the object spans. The object goes to the space that the
    /// allocator mapping names, which is the space of the plan for every
    /// semantic. A refusal by the operating system, and a run that the plan
    /// cannot own, fail the allocation and change nothing.
    pub fn allocate(
        &mut self,
        semantics: AllocationSemantics,
        bytes: usize,
        reserved: Result<Region, MapFailure>,
    ) -> (r: Result<ObjectReference, AllocationError>)
        requires
            old(self).wf(),
        ensures
            final(self).wf(),
            final(self).common == old(self).common,
            final(self).allocator_mapping == old(self).allocator_mapping,
            match reserved {
                Ok(region) => if old(self).accepts(region, pages_spanned(bytes as int)) {
                    &&& r == Ok::<ObjectReference, AllocationError>(ObjectReference { address: region.start })
                    &&& final(self).space@ == old(self).space@.extended(region)
                } else {
                    &&& r == Err::<ObjectReference, AllocationError>(AllocationError::UnusableRegion)
                    &&& final(self).space@ == old(self).space@
                },
                Err(MapFailure::MappingLimit) => {
                    &&& r == Err::<ObjectReference, AllocationError>(AllocationError::MappingLimitExceeded)
                    &&& final(self).space@ == old(self).space@
                },
                Err(MapFailure::InvalidArgument) => {
                    &&& r == Err::<ObjectReference, AllocationError>(AllocationError::InvalidArgument)
                    &&& final(self).space@ == old(self).space@
                },
            },
    {
        let selector = self.allocator_mapping.get(semantics);
        proof {
            lemma_mapping_is_constant(self.allocator_mapping, semantics);
            lemma_total_pages_nonnegative(self.common.immortal@.objects);
            lemma_total_pages_nonnegative(self.common.los@.objects);
        }
        match selector {
            AllocatorSelector::LargeObject(_) => {
                if let Ok(region) = reserved {
                    let pages: usize = bytes_to_pages_up(bytes);
                    if pages > usize::MAX - self.get_used_pages() || self.common.immortal.holds_page_of(&region)
                        || self.common.los.holds_page_of(&region) {
                        return Err(AllocationError::UnusableRegion);
                    }
                }
                let r = self.space.allocate(bytes, reserved);
                proof {
                    if r is Ok {
                        let region = reserved->Ok_0;
                        lemma_total_pages_push(
                            old(self).space@.objects,
                            ObjectState { region, marked: false, protected: false },
                        );
                    }
                }
                r
            },
            _ => Err(AllocationError::InvalidArgument),
        }
    }

    /// Reaches `object` during tracing. Only the space of the plan takes part
    /// in tracing: an object of it that the collection has not reached yet is
    /// marked and put on `queue`. The reference comes back unchanged, since
    /// no object moves.
    pub fn trace_object(&mut self, queue: &mut Vec<ObjectReference>, object: ObjectReference) -> (r:
        ObjectReference)
        requires
            old(self).wf(),
        ensures
            final(self).wf(),
            r == object,
            final(self).common == old(self).common,
            final(self).allocator_mapping == old(self).allocator_mapping,
            final(self).space@ == old(self).space@.reaching(object.address),
            final(queue)@ == if old(self).space@.is_unmarked_object(object.address) {
                old(queue)@.push(object)
            } else {
                old(queue)@
            },
    {
        let r = self.space.trace_object(queue, object);
        proof {
            lemma_total_pages_by_region(self.space@.objects, old(self).space@.objects);
        }
        r
    }

    /// Traces from `roots` over the references in `edges` and marks every
    /// object of the plan's space that is reached.
    pub fn trace(&mut self, edges: &Vec<Edge>, roots: &Vec<ObjectReference>)
        requires
            old(self).wf(),
        ensures
            final(self).wf(),
            final(self).space@ == traced(old(self).space@, edges@, roots@),
            final(self).common == old(self).common,
            final(self).allocator_mapping == old(self).allocator_mapping,
    {
        trace(&mut self.space, edges, roots);
        proof {
            lemma_total_pages_by_region(self.space@.objects, old(self).space@.objects);
        }
    }
}

} // verus!
