//! The tracing work of a collection: from a set of roots, every object that
//! can be reached over the references between objects is marked. No object is
//! moved.

use crate::address::ObjectReference;
use crate::global::PageProtect;
use crate::plan::{BaseView, VMWorkerThread};
use crate::scheduler::{lemma_taken_is_running, GCWorkScheduler, WorkBucketStage};
use crate::space::{
    lemma_start_is_unique, protection_changes, LargeObjectSpace, ObjectState, ProtectionChange, SpaceView,
};
use vstd::prelude::*;

verus! {

/// A reference held by the object `source` to the object `target`.
#[derive(Clone, Copy, Debug, PartialEq, Eq, Structural)]
pub struct Edge {
    pub source: ObjectReference,
    pub target: ObjectReference,
}

/// Whether the object at `source` holds a reference to the one at `target`.
pub open spec fn has_edge(edges: Seq<Edge>, source: usize, target: usize) -> bool {
    exists|k: int|
        0 <= k < edges.len() && (#[trigger] edges[k]).source.address == source && edges[k].target.address
            == target
}

/// A walk over objects of the space, given by their positions: it starts at
/// an object that a root refers to, and each object on it holds a reference
/// to the next.
pub open spec fn is_path(space: SpaceView, edges: Seq<Edge>, roots: Seq<ObjectReference>, path: Seq<int>) -> bool {
    &&& path.len() > 0
    &&& forall|k: int| 0 <= k < path.len() ==> 0 <= #[trigger] path[k] < space.objects.len()
    &&& roots.contains(ObjectReference { address: space.objects[path[0]].region.start })
    &&& forall|k: int|
        0 <= k < path.len() - 1 ==> has_edge(
            edges,
            space.objects[#[trigger] path[k]].region.start,
            space.objects[path[k + 1]].region.start,
        )
}

/// A walk on which no object is marked yet. Tracing follows exactly these:
/// it does not look behind an object that was marked before.
pub open spec fn is_trace_path(
    space: SpaceView,
    edges: Seq<Edge>,
    roots: Seq<ObjectReference>,
    path: Seq<int>,
) -> bool {
    &&& is_path(space, edges, roots, path)
    &&& forall|k: int| 0 <= k < path.len() ==> !space.objects[#[trigger] path[k]].marked
}

/// Whether a walk leads from a root to the object at position `i`.
pub open spec fn reachable(space: SpaceView, edges: Seq<Edge>, roots: Seq<ObjectReference>, i: int) -> bool {
    exists|path: Seq<int>| #[trigger] is_path(space, edges, roots, path) && path.last() == i
}

/// Whether a walk over unmarked objects leads from a root to the object at
/// position `i`.
pub open spec fn reached(space: SpaceView, edges: Seq<Edge>, roots: Seq<ObjectReference>, i: int) -> bool {
    exists|path: Seq<int>| #[trigger] is_trace_path(space, edges, roots, path) && path.last() == i
}

/// The state after tracing from `roots`: the marks of before, and a mark on
/// every object that a walk over unmarked objects leads to.
pub open spec fn traced(space: SpaceView, edges: Seq<Edge>, roots: Seq<ObjectReference>) -> SpaceView {
    SpaceView {
        objects: Seq::new(
            space.objects.len(),
            |i: int|
                ObjectState {
                    marked: space.objects[i].marked || reached(space, edges, roots, i),
                    ..space.objects[i]
                },
        ),
        ..space
    }
}

/// How many objects are not marked.
pub open spec fn unmarked_count(objects: Seq<ObjectState>) -> nat
    decreases objects.len(),
{
    if objects.len() == 0 {
        0
    } else {
        unmarked_count(objects.drop_last()) + if objects.last().marked {
            0nat
        } else {
            1nat
        }
    }
}

proof fn lemma_mark_lowers_count(objects: Seq<ObjectState>, i: int)
    requires
        0 <= i < objects.len(),
        !objects[i].marked,
    ensures
        unmarked_count(objects.update(i, ObjectState { marked: true, ..objects[i] })) + 1 == unmarked_count(
            objects,
        ),
    decreases objects.len(),
{
    let marked = objects.update(i, ObjectState { marked: true, ..objects[i] });
    if i == objects.len() - 1 {
        assert(marked.drop_last() == objects.drop_last());
    } else {
        lemma_mark_lowers_count(objects.drop_last(), i);
        assert(marked.drop_last() == objects.drop_last().update(
            i,
            ObjectState { marked: true, ..objects[i] },
        ));
    }
}

/// An unmarked object that a root refers to is reached.
proof fn lemma_reached_root(space: SpaceView, edges: Seq<Edge>, roots: Seq<ObjectReference>, r: int, i: int)
    requires
        0 <= r < roots.len(),
        0 <= i < space.objects.len(),
        roots[r].address == space.objects[i].region.start,
        !space.objects[i].marked,
    ensures
        reached(space, edges, roots, i),
{
    let path = seq![i];
    assert(roots[r] == ObjectReference { address: space.objects[path[0]].region.start });
    assert(is_trace_path(space, edges, roots, path));
}

/// An unmarked object is reached if a reached object refers to it.
proof fn lemma_reached_step(
    space: SpaceView,
    edges: Seq<Edge>,
    roots: Seq<ObjectReference>,
    i: int,
    k: int,
    j: int,
)
    requires
        reached(space, edges, roots, i),
        0 <= k < edges.len(),
        0 <= i < space.objects.len(),
        0 <= j < space.objects.len(),
        edges[k].source.address == space.objects[i].region.start,
        edges[k].target.address == space.objects[j].region.start,
        !space.objects[j].marked,
    ensures
        reached(space, edges, roots, j),
{
    let path = choose|path: Seq<int>| #[trigger] is_trace_path(space, edges, roots, path) && path.last() == i;
    let longer = path.push(j);
    assert forall|n: int| 0 <= n < longer.len() - 1 implies has_edge(
        edges,
        space.objects[#[trigger] longer[n]].region.start,
        space.objects[longer[n + 1]].region.start,
    ) by {
        if n < path.len() - 1 {
            assert(longer[n] == path[n] && longer[n + 1] == path[n + 1]);
        } else {
            assert(longer[n] == i && longer[n + 1] == j);
        }
    }
    assert(longer[0] == path[0]);
    assert(is_trace_path(space, edges, roots, longer));
    assert(longer.last() == j);
}

/// Whether the marks are closed under references: what a marked object
/// refers to is marked. That holds when no object is marked, and tracing
/// keeps it.
pub open spec fn marks_closed(space: SpaceView, edges: Seq<Edge>) -> bool {
    forall|i: int, j: int|
        0 <= i < space.objects.len() && 0 <= j < space.objects.len() && (#[trigger] space.objects[i]).marked
            && has_edge(edges, space.objects[i].region.start, (#[trigger] space.objects[j]).region.start)
            ==> space.objects[j].marked
}

/// After a collection has been prepared no object is marked, so the marks
/// are closed under references.
pub proof fn lemma_prepared_is_closed(space: SpaceView, edges: Seq<Edge>)
    ensures
        marks_closed(space.prepared(), edges),
{
}

/// Tracing keeps the marks closed under references.
pub proof fn lemma_traced_is_closed(space: SpaceView, edges: Seq<Edge>, roots: Seq<ObjectReference>)
    requires
        marks_closed(space, edges),
    ensures
        marks_closed(traced(space, edges, roots), edges),
{
    let after = traced(space, edges, roots);
    assert forall|i: int, j: int|
        0 <= i < after.objects.len() && 0 <= j < after.objects.len() && (#[trigger] after.objects[i]).marked
            && has_edge(
            edges,
            after.objects[i].region.start,
            (#[trigger] after.objects[j]).region.start,
        ) implies after.objects[j].marked by {
        let source = space.objects[i].region.start;
        let target = space.objects[j].region.start;
        if space.objects[i].marked {
            assert(space.objects[j].marked);
        } else if !space.objects[j].marked {
            let k = choose|k: int|
                0 <= k < edges.len() && (#[trigger] edges[k]).source.address == source
                    && edges[k].target.address == target;
            lemma_reached_step(space, edges, roots, i, k, j);
        }
    }
}

/// Tracing is complete: when the marks are closed under references before
/// tracing, as they are from the preparing of a collection on, tracing marks
/// every object on every walk from a root, so each object that can be reached
/// counts as live.
pub proof fn lemma_trace_is_complete(
    space: SpaceView,
    edges: Seq<Edge>,
    roots: Seq<ObjectReference>,
    path: Seq<int>,
    n: int,
)
    requires
        marks_closed(space, edges),
        is_path(space, edges, roots, path),
        0 <= n < path.len(),
    ensures
        traced(space, edges, roots).objects[path[n]].marked,
        traced(space, edges, roots).live_this_cycle(path[n]),
    decreases n,
{
    let i = path[n];
    if !space.objects[i].marked {
        if n == 0 {
            let root = ObjectReference { address: space.objects[i].region.start };
            let r = choose|r: int| 0 <= r < roots.len() && roots[r] == root;
            lemma_reached_root(space, edges, roots, r, i);
        } else {
            lemma_trace_is_complete(space, edges, roots, path, n - 1);
            let before = path[n - 1];
            let source = space.objects[before].region.start;
            let target = space.objects[i].region.start;
            assert(has_edge(edges, source, target));
            if space.objects[before].marked {
                assert(space.objects[i].marked);
            } else {
                let k = choose|k: int|
                    0 <= k < edges.len() && (#[trigger] edges[k]).source.address == source
                        && edges[k].target.address == target;
                lemma_reached_step(space, edges, roots, before, k, i);
            }
        }
    }
}

/// Tracing marks nothing but what was marked before and what a walk from a
/// root leads to.
pub proof fn lemma_trace_is_sound(space: SpaceView, edges: Seq<Edge>, roots: Seq<ObjectReference>, i: int)
    requires
        0 <= i < space.objects.len(),
        traced(space, edges, roots).objects[i].marked,
        !space.objects[i].marked,
    ensures
        reachable(space, edges, roots, i),
{
    let path = choose|path: Seq<int>| #[trigger] is_trace_path(space, edges, roots, path) && path.last() == i;
    assert(is_path(space, edges, roots, path));
}

/// Between `start` and `now` marks were set and nothing else changed.
spec fn marks_grown(start: SpaceView, now: SpaceView) -> bool {
    &&& now.objects.len() == start.objects.len()
    &&& now.name == start.name
    &&& now.zeroed == start.zeroed
    &&& now.nursery_start == start.nursery_start
    &&& now.protect_memory_on_release == start.protect_memory_on_release
    &&& now.request == start.request
    &&& now.metadata == start.metadata
    &&& forall|i: int|
        0 <= i < start.objects.len() ==> {
            &&& (#[trigger] now.objects[i]).region == start.objects[i].region
            &&& now.objects[i].protected == start.objects[i].protected
            &&& start.objects[i].marked ==> now.objects[i].marked
        }
}

/// Every mark set since `start` stands on a reached object.
spec fn marks_sound(start: SpaceView, now: SpaceView, edges: Seq<Edge>, roots: Seq<ObjectReference>) -> bool {
    forall|i: int|
        0 <= i < start.objects.len() && (#[trigger] now.objects[i]).marked && !start.objects[i].marked
            ==> reached(start, edges, roots, i)
}

/// Every reference in the queue is to an object marked since `start`.
spec fn queue_marked(start: SpaceView, now: SpaceView, queue: Seq<ObjectReference>) -> bool {
    forall|q: int|
        0 <= q < queue.len() ==> exists|i: int|
            0 <= i < start.objects.len() && (#[trigger] start.objects[i]).region.start == (
            #[trigger] queue[q]).address && now.objects[i].marked && !start.objects[i].marked
}

/// The objects that the first `n` roots refer to are marked.
spec fn roots_marked(start: SpaceView, now: SpaceView, roots: Seq<ObjectReference>, n: int) -> bool {
    forall|r: int, i: int|
        0 <= r < n && 0 <= i < start.objects.len() && (#[trigger] roots[r]).address == (
        #[trigger] start.objects[i]).region.start ==> now.objects[i].marked
}

/// Whether the references of the object at `address` are still to be followed.
spec fn is_pending(queue: Seq<ObjectReference>, current: Option<ObjectReference>, address: usize) -> bool {
    queue.contains(ObjectReference { address }) || current == Some(ObjectReference { address })
}

/// The targets of the first `n` references are marked wherever the source was
/// marked since `start` and is not pending.
spec fn edges_followed(
    start: SpaceView,
    now: SpaceView,
    edges: Seq<Edge>,
    queue: Seq<ObjectReference>,
    current: Option<ObjectReference>,
    n: int,
) -> bool {
    forall|i: int, k: int, j: int|
        0 <= i < start.objects.len() && 0 <= j < start.objects.len() && 0 <= k < n && (
        #[trigger] now.objects[i]).marked && !start.objects[i].marked && (
        #[trigger] edges[k]).source.address == start.objects[i].region.start && edges[k].target.address == (
        #[trigger] start.objects[j]).region.start && !is_pending(
            queue,
            current,
            start.objects[i].region.start,
        ) ==> now.objects[j].marked
}

/// The targets of the first `n` references of the object at `address` are
/// marked.
spec fn current_followed(start: SpaceView, now: SpaceView, edges: Seq<Edge>, address: usize, n: int) -> bool {
    forall|k: int, j: int|
        0 <= j < start.objects.len() && 0 <= k < n && (#[trigger] edges[k]).source.address == address
            && edges[k].target.address == (#[trigger] start.objects[j]).region.start
            ==> now.objects[j].marked
}

/// Once every root and every reference has been followed, each object on a
/// walk over objects that were unmarked at `start` is marked.
proof fn lemma_walk_is_marked(
    start: SpaceView,
    now: SpaceView,
    edges: Seq<Edge>,
    roots: Seq<ObjectReference>,
    path: Seq<int>,
    n: int,
)
    requires
        marks_grown(start, now),
        roots_marked(start, now, roots, roots.len() as int),
        edges_followed(start, now, edges, Seq::empty(), None, edges.len() as int),
        is_trace_path(start, edges, roots, path),
        0 <= n < path.len(),
    ensures
        now.objects[path[n]].marked,
    decreases n,
{
    if n == 0 {
        let root = ObjectReference { address: start.objects[path[0]].region.start };
        let r = choose|r: int| 0 <= r < roots.len() && roots[r] == root;
        assert(roots[r].address == start.objects[path[0]].region.start);
    } else {
        lemma_walk_is_marked(start, now, edges, roots, path, n - 1);
        let i = path[n - 1];
        let j = path[n];
        let source = start.objects[i].region.start;
        let target = start.objects[j].region.start;
        assert(has_edge(edges, source, target));
        let k = choose|k: int|
            0 <= k < edges.len() && (#[trigger] edges[k]).source.address == source && edges[k].target.address
                == target;
        assert(!is_pending(Seq::<ObjectReference>::empty(), None, source));
        assert(now.objects[i].marked && edges[k].source.address == start.objects[i].region.start);
        assert(edges[k].target.address == start.objects[j].region.start);
    }
}

/// Marks what `target` refers to, and keeps what the tracing loops rely on.
fn visit(
    space: &mut LargeObjectSpace,
    queue: &mut Vec<ObjectReference>,
    target: ObjectReference,
    Ghost(start): Ghost<SpaceView>,
    Ghost(edges): Ghost<Seq<Edge>>,
    Ghost(roots): Ghost<Seq<ObjectReference>>,
    Ghost(current): Ghost<Option<ObjectReference>>,
    Ghost(followed): Ghost<int>,
)
    requires
        old(space).wf(),
        start.wf(),
        marks_grown(start, old(space)@),
        marks_sound(start, old(space)@, edges, roots),
        queue_marked(start, old(space)@, old(queue)@),
        edges_followed(start, old(space)@, edges, old(queue)@, current, followed),
        forall|j: int|
            0 <= j < start.objects.len() && start.objects[j].region.start == target.address
                && !start.objects[j].marked ==> reached(start, edges, roots, j),
    ensures
        final(space).wf(),
        marks_grown(start, final(space)@),
        marks_grown(old(space)@, final(space)@),
        marks_sound(start, final(space)@, edges, roots),
        queue_marked(start, final(space)@, final(queue)@),
        edges_followed(start, final(space)@, edges, final(queue)@, current, followed),
        forall|j: int|
            0 <= j < start.objects.len() && start.objects[j].region.start == target.address
                ==> final(space)@.objects[j].marked,
        forall|q: int| 0 <= q < old(queue)@.len() ==> final(queue)@[q] == old(queue)@[q],
        final(queue)@.len() >= old(queue)@.len(),
        2 * unmarked_count(final(space)@.objects) + final(queue)@.len() <= 2 * unmarked_count(
            old(space)@.objects,
        ) + old(queue)@.len(),
{
    let ghost before = space@;
    let ghost queue_before = queue@;
    proof {
        space.lemma_wf_view();
    }
    space.trace_object(queue, target);
    proof {
        if before.is_unmarked_object(target.address) {
            let t = before.index_of(target.address);
            assert(space@ == before.marked_at(t));
            lemma_mark_lowers_count(before.objects, t);
            assert(start.objects[t].region.start == target.address);
            assert forall|j: int|
                0 <= j < start.objects.len() && start.objects[j].region.start
                    == target.address implies space@.objects[j].marked by {
                lemma_start_is_unique(start, j, t);
            }
            assert forall|q: int| 0 <= q < queue@.len() implies exists|i: int|
                0 <= i < start.objects.len() && (#[trigger] start.objects[i]).region.start == (
                #[trigger] queue@[q]).address && space@.objects[i].marked && !start.objects[i].marked by {
                if q < queue_before.len() {
                    assert(queue@[q] == queue_before[q]);
                    let i = choose|i: int|
                        0 <= i < start.objects.len() && (#[trigger] start.objects[i]).region.start
                            == queue_before[q].address && before.objects[i].marked
                            && !start.objects[i].marked;
                    assert(space@.objects[i].marked);
                } else {
                    assert(queue@[q] == target);
                    assert(space@.objects[t].marked && !start.objects[t].marked);
                }
            }
            assert(queue@.contains(target)) by {
                assert(queue@[queue_before.len() as int] == target);
            }
            assert forall|a: usize| is_pending(queue_before, current, a) implies is_pending(
                queue@,
                current,
                a,
            ) by {
                if queue_before.contains(ObjectReference { address: a }) {
                    let q = choose|q: int|
                        0 <= q < queue_before.len() && queue_before[q] == (ObjectReference { address: a });
                    assert(queue@[q] == ObjectReference { address: a });
                }
            }
            assert(is_pending(queue@, current, target.address));
            assert forall|i: int, k: int, j: int|
                0 <= i < start.objects.len() && 0 <= j < start.objects.len() && 0 <= k < followed && (
                #[trigger] space@.objects[i]).marked && !start.objects[i].marked && (
                #[trigger] edges[k]).source.address == start.objects[i].region.start
                    && edges[k].target.address == (#[trigger] start.objects[j]).region.start && !is_pending(
                    queue@,
                    current,
                    start.objects[i].region.start,
                ) implies space@.objects[j].marked by {
                if i != t {
                    assert(before.objects[i].marked);
                    assert(!is_pending(queue_before, current, start.objects[i].region.start));
                    assert(before.objects[j].marked);
                }
            }
        } else {
            assert(space@ == before);
            assert forall|j: int|
                0 <= j < start.objects.len() && start.objects[j].region.start
                    == target.address implies space@.objects[j].marked by {
                assert(before.objects[j].region.start == target.address);
                assert(before.is_object(target.address));
                lemma_start_is_unique(before, j, before.index_of(target.address));
            }
        }
    }
}

/// Traces from `roots` over the references in `edges`: marks every object of
/// the space that a root refers to, and every object that an object marked
/// here refers to, and so on. An object that was marked before is left alone
/// and its references are not followed. References that lead out of the space
/// are ignored. No object moves and no page changes hands.
pub fn trace(space: &mut LargeObjectSpace, edges: &Vec<Edge>, roots: &Vec<ObjectReference>)
    requires
        old(space).wf(),
    ensures
        final(space).wf(),
        final(space)@ == traced(old(space)@, edges@, roots@),
{
    let ghost start = space@;
    proof {
        space.lemma_wf_view();
    }
    let mut queue: Vec<ObjectReference> = Vec::new();
    let mut r: usize = 0;
    while r < roots.len()
        invariant
            r <= roots@.len(),
            space.wf(),
            start.wf(),
            start == old(space)@,
            marks_grown(start, space@),
            marks_sound(start, space@, edges@, roots@),
            queue_marked(start, space@, queue@),
            roots_marked(start, space@, roots@, r as int),
            edges_followed(start, space@, edges@, queue@, None, edges@.len() as int),
        decreases roots.len() - r,
    {
        let root = roots[r];
        proof {
            assert forall|j: int|
                0 <= j < start.objects.len() && start.objects[j].region.start == root.address
                    && !start.objects[j].marked implies reached(start, edges@, roots@, j) by {
                lemma_reached_root(start, edges@, roots@, r as int, j);
            }
        }
        visit(
            space,
            &mut queue,
            root,
            Ghost(start),
            Ghost(edges@),
            Ghost(roots@),
            Ghost(None),
            Ghost(edges@.len() as int),
        );
        r += 1;
    }
    while queue.len() > 0
        invariant
            space.wf(),
            start.wf(),
            start == old(space)@,
            marks_grown(start, space@),
            marks_sound(start, space@, edges@, roots@),
            queue_marked(start, space@, queue@),
            roots_marked(start, space@, roots@, roots@.len() as int),
            edges_followed(start, space@, edges@, queue@, None, edges@.len() as int),
        decreases 2 * unmarked_count(space@.objects) + queue@.len(),
    {
        let ghost queue_before = queue@;
        let ghost measure = 2 * unmarked_count(space@.objects) + queue@.len();
        let object = queue.pop().unwrap();
        let ghost source = choose|i: int|
            0 <= i < start.objects.len() && (#[trigger] start.objects[i]).region.start == (
            #[trigger] queue_before[queue_before.len() - 1]).address && space@.objects[i].marked
                && !start.objects[i].marked;
        proof {
            assert(queue_before[queue_before.len() - 1] == object);
            assert forall|a: usize| is_pending(queue_before, None, a) implies is_pending(
                queue@,
                Some(object),
                a,
            ) by {
                let q = choose|q: int|
                    0 <= q < queue_before.len() && queue_before[q] == (ObjectReference { address: a });
                if q < queue@.len() {
                    assert(queue@[q] == ObjectReference { address: a });
                }
            }
            assert(queue_marked(start, space@, queue@)) by {
                assert forall|q: int| 0 <= q < queue@.len() implies exists|i: int|
                    0 <= i < start.objects.len() && (#[trigger] start.objects[i]).region.start == (
                    #[trigger] queue@[q]).address && space@.objects[i].marked
                        && !start.objects[i].marked by {
                    assert(queue@[q] == queue_before[q]);
                }
            }
        }
        let mut k: usize = 0;
        while k < edges.len()
            invariant
                k <= edges@.len(),
                space.wf(),
                start.wf(),
                start == old(space)@,
                0 <= source < start.objects.len(),
                start.objects[source].region.start == object.address,
                space@.objects[source].marked,
                !start.objects[source].marked,
                marks_grown(start, space@),
                marks_sound(start, space@, edges@, roots@),
                queue_marked(start, space@, queue@),
                roots_marked(start, space@, roots@, roots@.len() as int),
                edges_followed(start, space@, edges@, queue@, Some(object), edges@.len() as int),
                current_followed(start, space@, edges@, object.address, k as int),
                2 * unmarked_count(space@.objects) + queue@.len() < measure,
            decreases edges.len() - k,
        {
            let edge = edges[k];
            if edge.source.address == object.address {
                proof {
                    assert forall|j: int|
                        0 <= j < start.objects.len() && start.objects[j].region.start
                            == edge.target.address && !start.objects[j].marked implies reached(
                        start,
                        edges@,
                        roots@,
                        j,
                    ) by {
                        lemma_reached_step(start, edges@, roots@, source, k as int, j);
                    }
                }
                visit(
                    space,
                    &mut queue,
                    edge.target,
                    Ghost(start),
                    Ghost(edges@),
                    Ghost(roots@),
                    Ghost(Some(object)),
                    Ghost(edges@.len() as int),
                );
            }
            k += 1;
        }
        proof {
            assert forall|i: int, n: int, j: int|
                0 <= i < start.objects.len() && 0 <= j < start.objects.len() && 0 <= n < edges@.len() && (
                #[trigger] space@.objects[i]).marked && !start.objects[i].marked && (
                #[trigger] edges@[n]).source.address == start.objects[i].region.start
                    && edges@[n].target.address == (#[trigger] start.objects[j]).region.start
                    && !is_pending(queue@, None, start.objects[i].region.start) implies space@.objects[j].marked by {
                if start.objects[i].region.start == object.address {
                    assert(edges@[n].source.address == object.address);
                } else {
                    assert(!is_pending(queue@, Some(object), start.objects[i].region.start));
                }
            }
        }
    }
    proof {
        assert(queue@ =~= Seq::<ObjectReference>::empty());
        assert forall|i: int| 0 <= i < start.objects.len() implies space@.objects[i] == traced(
            start,
            edges@,
            roots@,
        ).objects[i] by {
            if reached(start, edges@, roots@, i) {
                let path = choose|path: Seq<int>| #[trigger]
                    is_trace_path(start, edges@, roots@, path) && path.last() == i;
                lemma_walk_is_marked(start, space@, edges@, roots@, path, path.len() - 1);
            }
        }
        assert(space@.objects =~= traced(start, edges@, roots@).objects);
    }
}

/// The state of a space after a packet of `stage` has been carried out.
/// Preparing and releasing work on every space; tracing marks objects only in
/// a space that takes part in it.
pub open spec fn after_packet(
    space: SpaceView,
    stage: WorkBucketStage,
    edges: Seq<Edge>,
    roots: Seq<ObjectReference>,
    takes_part_in_tracing: bool,
) -> SpaceView {
    match stage {
        WorkBucketStage::Prepare => space.prepared(),
        WorkBucketStage::Closure => if takes_part_in_tracing {
            traced(space, edges, roots)
        } else {
            space
        },
        WorkBucketStage::Release => space.released(),
    }
}

/// What a worker did with the packet that it took.
pub struct WorkReport {
    /// The phase of the packet.
    pub stage: WorkBucketStage,
    /// The requests for closing and opening pages that the packet made.
    pub changes: Vec<ProtectionChange>,
    /// Whether the packet was the last of the collection.
    pub collection_done: bool,
}

/// A worker takes one packet of the collection in flight and carries it out:
/// a packet of the first phase prepares the plan, one of the second traces
/// from `roots` over the references in `edges`, one of the last releases the
/// plan. The collection state of the plan follows the open bucket, and is
/// `NotCollecting` again when the last packet is done. Nothing happens when
/// no packet waits in the open bucket.
pub fn do_work(
    plan: &mut PageProtect,
    scheduler: &mut GCWorkScheduler,
    tls: VMWorkerThread,
    edges: &Vec<Edge>,
    roots: &Vec<ObjectReference>,
) -> (r: Option<WorkReport>)
    requires
        old(plan).wf(),
        old(scheduler)@.wf(),
        old(plan).common.base@.gc_status == old(scheduler)@.status(),
    ensures
        final(plan).wf(),
        final(scheduler)@.wf(),
        final(plan).common.base@ == (BaseView {
            gc_status: final(scheduler)@.status(),
            ..old(plan).common.base@
        }),
        final(plan).allocator_mapping == old(plan).allocator_mapping,
        match r {
            None => {
                &&& !old(scheduler)@.has_work()
                &&& final(scheduler)@ == old(scheduler)@
                &&& final(plan).space@ == old(plan).space@
                &&& final(plan).common.immortal@ == old(plan).common.immortal@
                &&& final(plan).common.los@ == old(plan).common.los@
            },
            Some(report) => {
                &&& old(scheduler)@.has_work()
                &&& old(scheduler)@.open == Some(report.stage)
                &&& final(scheduler)@ == old(scheduler)@.taken(report.stage).completed(report.stage)
                &&& report.collection_done == final(scheduler)@.idle()
                &&& final(plan).space@ == after_packet(old(plan).space@, report.stage, edges@, roots@, true)
                &&& final(plan).common.immortal@ == after_packet(
                    old(plan).common.immortal@,
                    report.stage,
                    edges@,
                    roots@,
                    false,
                )
                &&& final(plan).common.los@ == after_packet(
                    old(plan).common.los@,
                    report.stage,
                    edges@,
                    roots@,
                    false,
                )
                &&& report.changes@ == protection_changes(
                    old(plan).common.immortal@.objects,
                    final(plan).common.immortal@.objects,
                ) + protection_changes(old(plan).common.los@.objects, final(plan).common.los@.objects)
                    + protection_changes(old(plan).space@.objects, final(plan).space@.objects)
            },
        },
{
    let stage = match scheduler.poll() {
        None => {
            return None;
        },
        Some(stage) => stage,
    };
    let changes = match stage {
        WorkBucketStage::Prepare => plan.prepare(tls),
        WorkBucketStage::Closure => {
            plan.trace(edges, roots);
            proof {
                lemma_no_changes(old(plan).common.immortal@.objects);
                lemma_no_changes(old(plan).common.los@.objects);
                lemma_marks_change_nothing(old(plan).space@.objects, plan.space@.objects);
            }
            Vec::new()
        },
        WorkBucketStage::Release => plan.release(tls),
    };
    proof {
        lemma_taken_is_running(old(scheduler)@, stage);
    }
    let collection_done = scheduler.finish(stage);
    plan.common.base.advance_to(scheduler.gc_status());
    Some(WorkReport { stage, changes, collection_done })
}

/// Where no protection differs, no request is made.
pub proof fn lemma_marks_change_nothing(before: Seq<ObjectState>, after: Seq<ObjectState>)
    requires
        before.len() == after.len(),
        forall|i: int| 0 <= i < before.len() ==> (#[trigger] before[i]).protected == after[i].protected,
    ensures
        protection_changes(before, after) == Seq::<ProtectionChange>::empty(),
    decreases before.len(),
{
    if before.len() > 0 {
        lemma_marks_change_nothing(before.drop_last(), after.drop_last());
    }
}

/// Between a state and itself no request is made.
pub proof fn lemma_no_changes(objects: Seq<ObjectState>)
    ensures
        protection_changes(objects, objects) == Seq::<ProtectionChange>::empty(),
{
    lemma_marks_change_nothing(objects, objects);
}

} // verus!
