//! What holds of a space over any run of collections and allocations.

use crate::address::{ObjectReference, Region};
use crate::gc_work::{
    is_path, is_trace_path, lemma_prepared_is_closed, lemma_trace_is_complete, reachable, reached, traced, Edge,
};
use crate::space::{lemma_total_pages_by_region, lemma_total_pages_push, ObjectState, SpaceView};
use vstd::prelude::*;

verus! {

/// One change to a space.
pub enum SpaceStep {
    /// A collection is prepared.
    Prepare,
    /// Tracing runs from `roots` over the references in `edges`.
    Trace { edges: Seq<Edge>, roots: Seq<ObjectReference> },
    /// A collection is released.
    Release,
    /// A new object takes `region`.
    Allocate { region: Region },
}

/// The state of `space` after `step`.
pub open spec fn after_step(space: SpaceView, step: SpaceStep) -> SpaceView {
    match step {
        SpaceStep::Prepare => space.prepared(),
        SpaceStep::Trace { edges, roots } => traced(space, edges, roots),
        SpaceStep::Release => space.released(),
        SpaceStep::Allocate { region } => space.extended(region),
    }
}

/// The state of `space` after `steps`, taken in order.
pub open spec fn after_steps(space: SpaceView, steps: Seq<SpaceStep>) -> SpaceView
    decreases steps.len(),
{
    if steps.len() == 0 {
        space
    } else {
        after_step(after_steps(space, steps.drop_last()), steps.last())
    }
}

/// The state of `space` after one whole collection that traces from `roots`
/// over the references in `edges`.
pub open spec fn collected(space: SpaceView, edges: Seq<Edge>, roots: Seq<ObjectReference>) -> SpaceView {
    traced(space.prepared(), edges, roots).released()
}

/// Objects never move: whatever happens to a space, in any number of
/// collections, every object keeps its pages, and so its address. Objects are
/// only ever added.
pub proof fn lemma_objects_stay_in_place(space: SpaceView, steps: Seq<SpaceStep>, i: int)
    requires
        0 <= i < space.objects.len(),
    ensures
        after_steps(space, steps).objects.len() >= space.objects.len(),
        after_steps(space, steps).objects[i].region == space.objects[i].region,
    decreases steps.len(),
{
    if steps.len() > 0 {
        lemma_objects_stay_in_place(space, steps.drop_last(), i);
    }
}

/// Whatever happens to a space, the pages that it holds never become fewer,
/// and anything but an allocation leaves their count as it is. No page is
/// ever given up for reuse.
pub proof fn lemma_reserved_pages_never_shrink(space: SpaceView, steps: Seq<SpaceStep>)
    ensures
        after_steps(space, steps).reserved_pages() >= space.reserved_pages(),
        steps.len() > 0 && !(steps.last() is Allocate) ==> after_steps(space, steps).reserved_pages()
            == after_steps(space, steps.drop_last()).reserved_pages(),
    decreases steps.len(),
{
    if steps.len() > 0 {
        let before = after_steps(space, steps.drop_last());
        let after = after_steps(space, steps);
        lemma_reserved_pages_never_shrink(space, steps.drop_last());
        match steps.last() {
            SpaceStep::Allocate { region } => {
                lemma_total_pages_push(before.objects, ObjectState { region, marked: false, protected: false });
            },
            _ => {
                lemma_total_pages_by_region(after.objects, before.objects);
            },
        }
    }
}

/// Whether a space closes the pages of dead objects is settled when it is
/// made.
pub proof fn lemma_protection_flag_stays(space: SpaceView, steps: Seq<SpaceStep>)
    ensures
        after_steps(space, steps).protect_memory_on_release == space.protect_memory_on_release,
    decreases steps.len(),
{
    if steps.len() > 0 {
        lemma_protection_flag_stays(space, steps.drop_last());
    }
}

/// Whenever a protecting space has just been released, whatever happened
/// before, the pages of an object are closed if and only if the object does
/// not count as live in that cycle: no live object is closed and no dead
/// object is left open.
pub proof fn lemma_released_space_protects_the_dead(space: SpaceView, steps: Seq<SpaceStep>, i: int)
    requires
        space.protect_memory_on_release,
        steps.len() > 0,
        steps.last() is Release,
        0 <= i < after_steps(space, steps).objects.len(),
    ensures
        after_steps(space, steps).objects[i].protected <==> !after_steps(space, steps).live_this_cycle(i),
{
    lemma_protection_flag_stays(space, steps.drop_last());
}

/// A new object is open to access, and stays so until a collection is
/// prepared after its allocation: a collection that is in flight when the
/// object is made does not close it, whether or not it reaches the object.
pub proof fn lemma_young_objects_stay_open(space: SpaceView, region: Region, steps: Seq<SpaceStep>)
    requires
        space.nursery_start <= space.objects.len(),
        forall|k: int| 0 <= k < steps.len() ==> !(#[trigger] steps[k] is Prepare),
    ensures
        ({
            let young = space.objects.len() as int;
            let later = after_steps(space.extended(region), steps);
            &&& young < later.objects.len()
            &&& later.nursery_start == space.nursery_start
            &&& later.objects[young].region == region
            &&& !later.objects[young].protected
            &&& later.live_this_cycle(young)
        }),
    decreases steps.len(),
{
    if steps.len() > 0 {
        assert forall|k: int| 0 <= k < steps.drop_last().len() implies !(#[trigger] steps.drop_last()[k]
            is Prepare) by {
            assert(steps.drop_last()[k] == steps[k]);
        }
        lemma_young_objects_stay_open(space, region, steps.drop_last());
        assert(!(steps[steps.len() - 1] is Prepare));
    }
}

/// One whole collection in a protecting space closes exactly the objects
/// that no walk from a root leads to, leaves every object where it is, and
/// holds as many pages after it as before.
pub proof fn lemma_collection_closes_the_unreachable(
    space: SpaceView,
    edges: Seq<Edge>,
    roots: Seq<ObjectReference>,
    i: int,
)
    requires
        space.protect_memory_on_release,
        0 <= i < space.objects.len(),
    ensures
        collected(space, edges, roots).objects.len() == space.objects.len(),
        collected(space, edges, roots).objects[i].protected <==> !reachable(space, edges, roots, i),
        collected(space, edges, roots).objects[i].region == space.objects[i].region,
        collected(space, edges, roots).reserved_pages() == space.reserved_pages(),
{
    let prepared = space.prepared();
    let after = collected(space, edges, roots);
    lemma_total_pages_by_region(after.objects, space.objects);
    if reachable(space, edges, roots, i) {
        let path = choose|path: Seq<int>| #[trigger] is_path(space, edges, roots, path) && path.last() == i;
        assert(is_path(prepared, edges, roots, path));
        lemma_prepared_is_closed(space, edges);
        lemma_trace_is_complete(prepared, edges, roots, path, path.len() - 1);
    }
    if reached(prepared, edges, roots, i) {
        let path = choose|path: Seq<int>| #[trigger]
            is_trace_path(prepared, edges, roots, path) && path.last() == i;
        assert(is_path(space, edges, roots, path));
    }
}

} // verus!
