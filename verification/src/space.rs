//! The large-object space: a set of page runs reserved from the operating
//! system on demand, one for each object. Memory is never reclaimed or reused.
//! After a collection the pages of every dead object are closed to all access.

use crate::address::{bytes_to_pages_up, pages_spanned, ObjectReference, Region};
use crate::side_metadata::{
    all_well_formed, conflict_free, SanityError, SideMetadataContext, SideMetadataSanity, SideMetadataSpec,
};
use vstd::prelude::*;

verus! {

/// Where a space may take its memory from.
#[derive(Clone, Copy, Debug, PartialEq, Eq, Structural)]
pub enum VMRequest {
    /// Anywhere: the space grows by runs of pages that need not be adjacent.
    Discontiguous,
    /// Only within `pages` pages from page `start` on.
    Fixed { start: usize, pages: usize },
}

impl VMRequest {
    /// Whether a space with this request may own `region`.
    pub open spec fn admits(self, region: Region) -> bool {
        match self {
            VMRequest::Discontiguous => true,
            VMRequest::Fixed { start, pages } => start <= region.start && region.end() <= start + pages,
        }
    }

    pub fn discontiguous() -> (r: VMRequest)
        ensures
            r == VMRequest::Discontiguous,
    {
        VMRequest::Discontiguous
    }

    /// Whether a space with this request may own `region`.
    pub fn allows(&self, region: &Region) -> (r: bool)
        ensures
            r == self.admits(*region),
    {
        match self {
            VMRequest::Discontiguous => true,
            VMRequest::Fixed { start, pages } => {
                *start <= region.start && region.start - *start <= *pages && region.pages <= *pages - (
                region.start - *start)
            },
        }
    }
}

/// How the operating system refused a request for memory.
#[derive(Clone, Copy, Debug, PartialEq, Eq, Structural)]
pub enum MapFailure {
    /// The process may hold no more mappings.
    MappingLimit,
    /// The request itself was not acceptable.
    InvalidArgument,
}

/// Why an allocation failed. A failed allocation is not tried again.
#[derive(Clone, Copy, Debug, PartialEq, Eq, Structural)]
pub enum AllocationError {
    /// The operating system holds too many mappings for this process already.
    MappingLimitExceeded,
    /// The operating system refused the request as unacceptable.
    InvalidArgument,
    /// The operating system handed out pages that the space cannot own.
    UnusableRegion,
}

/// What a space records of one object.
#[derive(Clone, Copy, Debug, PartialEq, Eq, Structural)]
pub struct ObjectState {
    /// The pages that back the object. They never change.
    pub region: Region,
    /// Whether the current collection has reached the object.
    pub marked: bool,
    /// Whether the object's pages are closed to all access.
    pub protected: bool,
}

/// A request to the operating system to close a run of pages to all access,
/// or to open it again.
#[derive(Clone, Copy, Debug, PartialEq, Eq, Structural)]
pub struct ProtectionChange {
    pub region: Region,
    /// `true` to close the pages, `false` to open them.
    pub protect: bool,
}

/// The sum of the page counts of `objects`.
pub open spec fn total_pages(objects: Seq<ObjectState>) -> int
    decreases objects.len(),
{
    if objects.len() == 0 {
        0
    } else {
        total_pages(objects.drop_last()) + objects.last().region.pages
    }
}

/// The requests that lead from the protection of `before` to that of `after`:
/// one for each object whose protection differs, in the order of the objects,
/// over all pages of the object.
pub open spec fn protection_changes(before: Seq<ObjectState>, after: Seq<ObjectState>) -> Seq<
    ProtectionChange,
>
    decreases before.len(),
{
    if before.len() == 0 || after.len() != before.len() {
        Seq::empty()
    } else {
        let earlier = protection_changes(before.drop_last(), after.drop_last());
        if before.last().protected != after.last().protected {
            earlier.push(ProtectionChange { region: before.last().region, protect: after.last().protected })
        } else {
            earlier
        }
    }
}

/// The state of a space as contracts see it.
pub struct SpaceView {
    pub name: &'static str,
    /// Whether fresh memory is handed out zeroed.
    pub zeroed: bool,
    /// The objects in the order of their allocation.
    pub objects: Seq<ObjectState>,
    /// The generation marker: objects from this position on were allocated
    /// after the last collection was prepared.
    pub nursery_start: nat,
    /// Whether releasing closes the pages of dead objects.
    pub protect_memory_on_release: bool,
    pub request: VMRequest,
    /// The metadata regions that the space declares.
    pub metadata: Seq<SideMetadataSpec>,
}

impl SpaceView {
    /// Whether an object starts at `address`.
    pub open spec fn is_object(self, address: usize) -> bool {
        exists|i: int| 0 <= i < self.objects.len() && (#[trigger] self.objects[i]).region.start == address
    }

    /// The position of the object that starts at `address`.
    pub open spec fn index_of(self, address: usize) -> int {
        choose|i: int| 0 <= i < self.objects.len() && (#[trigger] self.objects[i]).region.start == address
    }

    /// Whether the object at position `i` was allocated after the last
    /// collection was prepared.
    pub open spec fn fresh(self, i: int) -> bool {
        i >= self.nursery_start
    }

    /// Whether the object at position `i` counts as live in the current
    /// cycle: the collection reached it, or it is too young to be judged.
    pub open spec fn live_this_cycle(self, i: int) -> bool {
        self.objects[i].marked || self.fresh(i)
    }

    /// Whether `page` belongs to an object whose pages are closed.
    pub open spec fn page_protected(self, page: int) -> bool {
        exists|i: int|
            0 <= i < self.objects.len() && (#[trigger] self.objects[i]).region.contains_page(page)
                && self.objects[i].protected
    }

    pub open spec fn reserved_pages(self) -> int {
        total_pages(self.objects)
    }

    /// Whether `region` shares a page with an object of the space.
    pub open spec fn overlaps_object(self, region: Region) -> bool {
        exists|i: int| 0 <= i < self.objects.len() && (#[trigger] self.objects[i]).region.overlaps(region)
    }

    /// Whether no object of this space shares a page with one of `other`.
    pub open spec fn disjoint_from(self, other: SpaceView) -> bool {
        forall|i: int, j: int|
            0 <= i < self.objects.len() && 0 <= j < other.objects.len() ==> !(
            #[trigger] self.objects[i]).region.overlaps((#[trigger] other.objects[j]).region)
    }

    /// Whether the space can take `region` for a new object of `pages` pages:
    /// the run has that many pages, lies where the space may grow, shares no
    /// page with an object, and the page count of the space still fits the
    /// machine.
    pub open spec fn accepts(self, region: Region, pages: int) -> bool {
        &&& region.pages == pages
        &&& region.well_formed()
        &&& self.request.admits(region)
        &&& !self.overlaps_object(region)
        &&& self.reserved_pages() + pages <= usize::MAX
    }

    /// No two objects share a page, the page count fits the machine, and only
    /// a protecting space holds closed pages.
    pub open spec fn wf(self) -> bool {
        &&& self.nursery_start <= self.objects.len()
        &&& self.reserved_pages() <= usize::MAX
        &&& forall|i: int|
            0 <= i < self.objects.len() ==> {
                &&& (#[trigger] self.objects[i]).region.well_formed()
                &&& self.request.admits(self.objects[i].region)
                &&& self.objects[i].protected ==> self.protect_memory_on_release
            }
        &&& forall|i: int, j: int|
            0 <= i < self.objects.len() && 0 <= j < self.objects.len() && i != j ==> !(
            #[trigger] self.objects[i]).region.overlaps((#[trigger] self.objects[j]).region)
    }

    /// The state after `prepare`.
    pub open spec fn prepared(self) -> SpaceView {
        SpaceView {
            objects: Seq::new(
                self.objects.len(),
                |i: int| ObjectState { region: self.objects[i].region, marked: false, protected: false },
            ),
            nursery_start: self.objects.len(),
            ..self
        }
    }

    /// The state after the object at position `i` has been reached.
    pub open spec fn marked_at(self, i: int) -> SpaceView {
        SpaceView { objects: self.objects.update(i, ObjectState { marked: true, ..self.objects[i] }), ..self }
    }

    /// Whether an object starts at `address` that the collection has not
    /// reached yet.
    pub open spec fn is_unmarked_object(self, address: usize) -> bool {
        self.is_object(address) && !self.objects[self.index_of(address)].marked
    }

    /// The state after tracing has come to `address`: an unmarked object that
    /// starts there is marked, and nothing else changes.
    pub open spec fn reaching(self, address: usize) -> SpaceView {
        if self.is_unmarked_object(address) {
            self.marked_at(self.index_of(address))
        } else {
            self
        }
    }

    /// The state after `release`.
    pub open spec fn released(self) -> SpaceView {
        SpaceView {
            objects: Seq::new(
                self.objects.len(),
                |i: int|
                    ObjectState {
                        protected: self.protect_memory_on_release && !self.live_this_cycle(i),
                        ..self.objects[i]
                    },
            ),
            ..self
        }
    }

    /// The state after a new object has taken `region`.
    pub open spec fn extended(self, region: Region) -> SpaceView {
        SpaceView {
            objects: self.objects.push(ObjectState { region, marked: false, protected: false }),
            ..self
        }
    }
}

/// The page count of a sequence grows by the page count of what is pushed.
pub proof fn lemma_total_pages_push(objects: Seq<ObjectState>, object: ObjectState)
    ensures
        total_pages(objects.push(object)) == total_pages(objects) + object.region.pages,
{
    assert(objects.push(object).drop_last() == objects);
}

/// The page count depends on the regions alone.
pub proof fn lemma_total_pages_by_region(a: Seq<ObjectState>, b: Seq<ObjectState>)
    requires
        a.len() == b.len(),
        forall|i: int| 0 <= i < a.len() ==> (#[trigger] a[i]).region == b[i].region,
    ensures
        total_pages(a) == total_pages(b),
    decreases a.len(),
{
    if a.len() > 0 {
        lemma_total_pages_by_region(a.drop_last(), b.drop_last());
    }
}

/// The page count is not negative.
pub proof fn lemma_total_pages_nonnegative(objects: Seq<ObjectState>)
    ensures
        total_pages(objects) >= 0,
    decreases objects.len(),
{
    if objects.len() > 0 {
        lemma_total_pages_nonnegative(objects.drop_last());
    }
}

/// What a plan hands to a space that it creates.
pub struct PlanCreateSpaceArgs {
    pub name: &'static str,
    /// Whether fresh memory is handed out zeroed.
    pub zeroed: bool,
    pub vmrequest: VMRequest,
    /// The metadata regions of the whole heap.
    pub global_side_metadata_specs: Vec<SideMetadataSpec>,
    /// The metadata regions of large-object spaces.
    pub local_side_metadata_specs: Vec<SideMetadataSpec>,
}

/// A space in which every object has page runs of its own.
pub struct LargeObjectSpace {
    name: &'static str,
    zeroed: bool,
    vmrequest: VMRequest,
    protect_memory_on_release: bool,
    metadata: SideMetadataContext,
    objects: Vec<ObjectState>,
    nursery_start: usize,
    reserved: usize,
}

impl View for LargeObjectSpace {
    type V = SpaceView;

    closed spec fn view(&self) -> SpaceView {
        SpaceView {
            name: self.name,
            zeroed: self.zeroed,
            objects: self.objects@,
            nursery_start: self.nursery_start as nat,
            protect_memory_on_release: self.protect_memory_on_release,
            request: self.vmrequest,
            metadata: self.metadata.specs(),
        }
    }
}

impl LargeObjectSpace {
    /// The invariant of the space: that of its view, and a page counter that
    /// says what the objects hold.
    pub closed spec fn wf(&self) -> bool {
        &&& self@.wf()
        &&& self.reserved == total_pages(self.objects@)
    }

    /// The view of a valid space is valid.
    pub proof fn lemma_wf_view(&self)
        requires
            self.wf(),
        ensures
            self@.wf(),
    {
    }

    /// A space without objects. With `protect_memory_on_release` set, a
    /// release closes the pages of dead objects.
    pub fn new(args: PlanCreateSpaceArgs, protect_memory_on_release: bool) -> (space: LargeObjectSpace)
        ensures
            space.wf(),
            space@ == (SpaceView {
                name: args.name,
                zeroed: args.zeroed,
                objects: Seq::empty(),
                nursery_start: 0,
                protect_memory_on_release,
                request: args.vmrequest,
                metadata: args.global_side_metadata_specs@ + args.local_side_metadata_specs@,
            }),
    {
        LargeObjectSpace {
            name: args.name,
            zeroed: args.zeroed,
            vmrequest: args.vmrequest,
            protect_memory_on_release,
            metadata: SideMetadataContext {
                global: args.global_side_metadata_specs,
                local: args.local_side_metadata_specs,
            },
            objects: Vec::new(),
            nursery_start: 0,
            reserved: 0,
        }
    }

    pub fn name(&self) -> (r: &'static str)
        ensures
            r == self@.name,
    {
        self.name
    }

    /// Whether the space hands out fresh memory zeroed.
    pub fn is_zeroed(&self) -> (r: bool)
        ensures
            r == self@.zeroed,
    {
        self.zeroed
    }

    /// Whether a release closes the pages of dead objects.
    pub fn protects_memory_on_release(&self) -> (r: bool)
        ensures
            r == self@.protect_memory_on_release,
    {
        self.protect_memory_on_release
    }

    /// The pages that the space holds. Releasing a collection does not lower
    /// the count.
    pub fn reserved_pages(&self) -> (pages: usize)
        requires
            self.wf(),
        ensures
            pages == self@.reserved_pages(),
    {
        self.reserved
    }

    /// How many objects the space holds.
    pub fn object_count(&self) -> (n: usize)
        ensures
            n == self@.objects.len(),
    {
        self.objects.len()
    }

    /// The position of the object that starts at `object`'s address.
    fn find(&self, object: ObjectReference) -> (r: Option<usize>)
        requires
            self.wf(),
        ensures
            r is Some <==> self@.is_object(object.address),
            r is Some ==> r->0 == self@.index_of(object.address) && r->0 < self@.objects.len()
                && self@.objects[r->0 as int].region.start == object.address,
    {
        let mut i: usize = 0;
        while i < self.objects.len()
            invariant
                i <= self.objects@.len(),
                self.wf(),
                forall|k: int| 0 <= k < i ==> (#[trigger] self.objects@[k]).region.start != object.address,
            decreases self.objects.len() - i,
        {
            if self.objects[i].region.start == object.address {
                proof {
                    lemma_start_is_unique(self@, i as int, self@.index_of(object.address));
                }
                return Some(i);
            }
            i += 1;
        }
        None
    }

    /// Whether `object` refers to an object of this space.
    pub fn in_space(&self, object: ObjectReference) -> (r: bool)
        requires
            self.wf(),
        ensures
            r == self@.is_object(object.address),
    {
        self.find(object).is_some()
    }

    /// The state of the object that `object` refers to, if the space holds it.
    pub fn object_state(&self, object: ObjectReference) -> (r: Option<ObjectState>)
        requires
            self.wf(),
        ensures
            r is Some <==> self@.is_object(object.address),
            r is Some ==> r->0 == self@.objects[self@.index_of(object.address)],
    {
        match self.find(object) {
            Some(i) => Some(self.objects[i]),
            None => None,
        }
    }

    /// Whether `object` is an object of this space that counts as live in the
    /// current cycle.
    pub fn is_live(&self, object: ObjectReference) -> (r: bool)
        requires
            self.wf(),
        ensures
            r == (self@.is_object(object.address) && self@.live_this_cycle(self@.index_of(object.address))),
    {
        match self.find(object) {
            Some(i) => self.objects[i].marked || i >= self.nursery_start,
            None => false,
        }
    }

    /// Whether `page` is closed to all access.
    pub fn is_page_protected(&self, page: usize) -> (r: bool)
        ensures
            r == self@.page_protected(page as int),
    {
        let mut i: usize = 0;
        while i < self.objects.len()
            invariant
                i <= self.objects@.len(),
                forall|k: int|
                    0 <= k < i ==> !((#[trigger] self.objects@[k]).region.contains_page(page as int)
                        && self.objects@[k].protected),
            decreases self.objects.len() - i,
        {
            let object = self.objects[i];
            if object.protected && object.region.start <= page && page - object.region.start
                < object.region.pages {
                assert(self@.objects[i as int].region.contains_page(page as int));
                assert(self@.objects[i as int].protected);
                return true;
            }
            i += 1;
        }
        false
    }

    /// Whether `region` shares a page with an object of the space.
    pub fn holds_page_of(&self, region: &Region) -> (r: bool)
        ensures
            r == self@.overlaps_object(*region),
    {
        let mut i: usize = 0;
        while i < self.objects.len()
            invariant
                i <= self.objects@.len(),
                forall|k: int| 0 <= k < i ==> !(#[trigger] self.objects@[k]).region.overlaps(*region),
            decreases self.objects.len() - i,
        {
            if self.objects[i].region.intersects(region) {
                assert(self@.objects[i as int].region.overlaps(*region));
                return true;
            }
            i += 1;
        }
        false
    }

    /// Whether the space can take `region` for a new object of `pages` pages.
    fn can_take(&self, region: &Region, pages: usize) -> (r: bool)
        requires
            self.wf(),
        ensures
            r == self@.accepts(*region, pages as int),
    {
        region.pages == pages && region.is_well_formed() && self.vmrequest.allows(region) && pages
            <= usize::MAX - self.reserved && !self.holds_page_of(region)
    }

    /// Records a new object of `bytes` bytes. `reserved` is the answer of the
    /// operating system to a request for the pages that the object spans: the
    /// run that it reserved, or its refusal. A refusal, and a run that the
    /// space cannot own, fail the allocation and change nothing. The new
    /// object is open to access and counts as live until the next collection
    /// is prepared.
    pub fn allocate(&mut self, bytes: usize, reserved: Result<Region, MapFailure>) -> (r: Result<
        ObjectReference,
        AllocationError,
    >)
        requires
            old(self).wf(),
        ensures
            final(self).wf(),
            match reserved {
                Ok(region) => if old(self)@.accepts(region, pages_spanned(bytes as int)) {
                    &&& r == Ok::<ObjectReference, AllocationError>(ObjectReference { address: region.start })
                    &&& final(self)@ == old(self)@.extended(region)
                } else {
                    &&& r == Err::<ObjectReference, AllocationError>(AllocationError::UnusableRegion)
                    &&& final(self)@ == old(self)@
                },
                Err(MapFailure::MappingLimit) => {
                    &&& r == Err::<ObjectReference, AllocationError>(AllocationError::MappingLimitExceeded)
                    &&& final(self)@ == old(self)@
                },
                Err(MapFailure::InvalidArgument) => {
                    &&& r == Err::<ObjectReference, AllocationError>(AllocationError::InvalidArgument)
                    &&& final(self)@ == old(self)@
                },
            },
    {
        match reserved {
            Err(MapFailure::MappingLimit) => Err(AllocationError::MappingLimitExceeded),
            Err(MapFailure::InvalidArgument) => Err(AllocationError::InvalidArgument),
            Ok(region) => {
                let pages: usize = bytes_to_pages_up(bytes);
                if !self.can_take(&region, pages) {
                    return Err(AllocationError::UnusableRegion);
                }
                let object = ObjectState { region, marked: false, protected: false };
                proof {
                    lemma_total_pages_push(self.objects@, object);
                }
                self.objects.push(object);
                self.reserved = self.reserved + pages;
                Ok(ObjectReference { address: region.start })
            },
        }
    }

    /// Starts a collection: forgets which objects the last one reached, moves
    /// the generation marker behind the youngest object, and opens all pages
    /// that the last release closed. Every collection looks at the whole
    /// space, whatever `full_heap` says. Returns the requests for opening the
    /// pages.
    pub fn prepare(&mut self, full_heap: bool) -> (changes: Vec<ProtectionChange>)
        requires
            old(self).wf(),
        ensures
            final(self).wf(),
            final(self)@ == old(self)@.prepared(),
            changes@ == protection_changes(old(self)@.objects, final(self)@.objects),
    {
        let mut changes: Vec<ProtectionChange> = Vec::new();
        let n: usize = self.objects.len();
        let mut i: usize = 0;
        while i < n
            invariant
                i <= n,
                n == self.objects@.len(),
                n == old(self).objects@.len(),
                old(self).wf(),
                self.name == old(self).name,
                self.zeroed == old(self).zeroed,
                self.vmrequest == old(self).vmrequest,
                self.protect_memory_on_release == old(self).protect_memory_on_release,
                self.metadata == old(self).metadata,
                self.nursery_start == old(self).nursery_start,
                self.reserved == old(self).reserved,
                forall|k: int| 0 <= k < i ==> #[trigger] self.objects@[k] == old(self)@.prepared().objects[k],
                forall|k: int| i <= k < n ==> #[trigger] self.objects@[k] == old(self).objects@[k],
                changes@ == protection_changes(
                    old(self).objects@.take(i as int),
                    self.objects@.take(i as int),
                ),
            decreases n - i,
        {
            let object = self.objects[i];
            let ghost earlier = self.objects@;
            if object.protected {
                changes.push(ProtectionChange { region: object.region, protect: false });
            }
            self.objects.set(i, ObjectState { region: object.region, marked: false, protected: false });
            proof {
                lemma_changes_step(old(self).objects@, self.objects@, i as int);
                assert(self.objects@.take(i as int) == earlier.take(i as int));
            }
            i += 1;
        }
        self.nursery_start = n;
        proof {
            assert(self.objects@.take(n as int) == self.objects@);
            assert(old(self).objects@.take(n as int) == old(self).objects@);
            assert(self@.objects == old(self)@.prepared().objects);
            lemma_total_pages_by_region(self.objects@, old(self).objects@);
        }
        changes
    }

    /// Reaches `object` during tracing. If it refers to an object of this
    /// space that the collection has not reached yet, the object is marked
    /// and put on `queue` to have its references followed. The object stays
    /// where it is: the reference comes back unchanged.
    pub fn trace_object(&mut self, queue: &mut Vec<ObjectReference>, object: ObjectReference) -> (r:
        ObjectReference)
        requires
            old(self).wf(),
        ensures
            final(self).wf(),
            r == object,
            final(self)@ == old(self)@.reaching(object.address),
            final(queue)@ == if old(self)@.is_unmarked_object(object.address) {
                old(queue)@.push(object)
            } else {
                old(queue)@
            },
    {
        match self.find(object) {
            Some(i) => {
                let state = self.objects[i];
                if !state.marked {
                    self.objects.set(
                        i,
                        ObjectState { region: state.region, marked: true, protected: state.protected },
                    );
                    queue.push(object);
                    proof {
                        lemma_total_pages_by_region(self.objects@, old(self).objects@);
                    }
                }
            },
            None => {},
        }
        object
    }

    /// Ends a collection. In a protecting space the pages of every object
    /// that does not count as live are closed, and the pages of every live
    /// object are open. No page is given back and no object moves. Every
    /// collection looks at the whole space, whatever `full_heap` says.
    /// Returns the requests for closing and opening pages.
    pub fn release(&mut self, full_heap: bool) -> (changes: Vec<ProtectionChange>)
        requires
            old(self).wf(),
        ensures
            final(self).wf(),
            final(self)@ == old(self)@.released(),
            changes@ == protection_changes(old(self)@.objects, final(self)@.objects),
    {
        let mut changes: Vec<ProtectionChange> = Vec::new();
        let n: usize = self.objects.len();
        let mut i: usize = 0;
        while i < n
            invariant
                i <= n,
                n == self.objects@.len(),
                n == old(self).objects@.len(),
                old(self).wf(),
                self.name == old(self).name,
                self.zeroed == old(self).zeroed,
                self.vmrequest == old(self).vmrequest,
                self.protect_memory_on_release == old(self).protect_memory_on_release,
                self.metadata == old(self).metadata,
                self.nursery_start == old(self).nursery_start,
                self.reserved == old(self).reserved,
                forall|k: int| 0 <= k < i ==> #[trigger] self.objects@[k] == old(self)@.released().objects[k],
                forall|k: int| i <= k < n ==> #[trigger] self.objects@[k] == old(self).objects@[k],
                changes@ == protection_changes(
                    old(self).objects@.take(i as int),
                    self.objects@.take(i as int),
                ),
            decreases n - i,
        {
            let object = self.objects[i];
            let ghost earlier = self.objects@;
            let live = object.marked || i >= self.nursery_start;
            let protect = self.protect_memory_on_release && !live;
            if object.protected != protect {
                changes.push(ProtectionChange { region: object.region, protect });
            }
            self.objects.set(i, ObjectState { region: object.region, marked: object.marked, protected: protect });
            proof {
                lemma_changes_step(old(self).objects@, self.objects@, i as int);
                assert(self.objects@.take(i as int) == earlier.take(i as int));
            }
            i += 1;
        }
        proof {
            assert(self.objects@.take(n as int) == self.objects@);
            assert(old(self).objects@.take(n as int) == old(self).objects@);
            assert(self@.objects == old(self)@.released().objects);
            lemma_total_pages_by_region(self.objects@, old(self).objects@);
        }
        changes
    }

    /// Hands the metadata regions of the space to `checker`.
    pub fn verify_side_metadata_sanity(&self, checker: &mut SideMetadataSanity) -> (r: Result<(), SanityError>)
        requires
            old(checker).wf(),
        ensures
            final(checker).wf(),
            r is Ok <==> all_well_formed(self@.metadata) && conflict_free(old(checker)@, self@.metadata),
            r == Err::<(), SanityError>(SanityError::Malformed) <==> !all_well_formed(self@.metadata),
            r == Err::<(), SanityError>(SanityError::Overlap) <==> all_well_formed(self@.metadata)
                && !conflict_free(old(checker)@, self@.metadata),
            r is Ok ==> final(checker)@ == old(checker)@.union(self@.metadata.to_set()),
            r is Err ==> final(checker)@ == old(checker)@,
    {
        checker.verify_metadata_context(&self.metadata)
    }
}

/// A page is closed if and only if the object that it belongs to is: the
/// protection of an object covers every page that the object spans.
pub proof fn lemma_protection_covers_every_page(space: SpaceView, i: int, page: int)
    requires
        space.wf(),
        0 <= i < space.objects.len(),
        space.objects[i].region.contains_page(page),
    ensures
        space.page_protected(page) == space.objects[i].protected,
{
    if space.page_protected(page) {
        let j = choose|j: int|
            0 <= j < space.objects.len() && (#[trigger] space.objects[j]).region.contains_page(page)
                && space.objects[j].protected;
        if i != j {
            assert(space.objects[i].region.overlaps(space.objects[j].region));
        }
    }
}

/// After a release in a protecting space, a page of an object is closed if
/// and only if the object does not count as live in this cycle, and this
/// holds of every page that the object spans.
pub proof fn lemma_release_closes_pages_of_the_dead(space: SpaceView, i: int, page: int)
    requires
        space.wf(),
        space.protect_memory_on_release,
        0 <= i < space.objects.len(),
        space.objects[i].region.contains_page(page),
    ensures
        space.released().objects[i].protected <==> !space.released().live_this_cycle(i),
        space.released().page_protected(page) <==> !space.live_this_cycle(i),
{
    let released = space.released();
    assert(released.wf()) by {
        lemma_total_pages_by_region(released.objects, space.objects);
    }
    lemma_protection_covers_every_page(released, i, page);
}

/// In a valid space no two objects start at the same address.
pub proof fn lemma_start_is_unique(space: SpaceView, i: int, j: int)
    requires
        space.wf(),
        0 <= i < space.objects.len(),
        0 <= j < space.objects.len(),
        space.objects[i].region.start == space.objects[j].region.start,
    ensures
        i == j,
{
    if i != j {
        assert(space.objects[i].region.overlaps(space.objects[j].region));
    }
}

/// The requests for the first `i + 1` objects are those for the first `i`,
/// followed by the request for object `i` if its protection differs.
proof fn lemma_changes_step(before: Seq<ObjectState>, after: Seq<ObjectState>, i: int)
    requires
        0 <= i < before.len(),
        before.len() == after.len(),
    ensures
        protection_changes(before.take(i + 1), after.take(i + 1)) == if before[i].protected
            != after[i].protected {
            protection_changes(before.take(i), after.take(i)).push(
                ProtectionChange { region: before[i].region, protect: after[i].protected },
            )
        } else {
            protection_changes(before.take(i), after.take(i))
        },
{
    assert(before.take(i + 1).drop_last() == before.take(i));
    assert(after.take(i + 1).drop_last() == after.take(i));
}

} // verus!
