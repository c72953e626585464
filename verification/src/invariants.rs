use crate::error::AllocError;
use crate::fallback::{
    fits_hole, found_block, heap_free, heap_holes, lemma_found_block_lies_in_memory,
    lemma_no_hole_finds_nothing, lemma_one_hole_serves, remains, searchable, start_in,
};
use crate::size_class::{lemma_class_index_is_smallest, RequestView};
use crate::slab::{Release, SlabView};
use crate::span::block;
use vstd::prelude::*;

verus! {

/// The class of a request that has one is a class of the table, and what
/// the request demands of the heap is a block of that class.
pub proof fn lemma_route_is_a_class(state: SlabView, request: RequestView)
    requires
        state.tier.wf(),
    ensures
        state.tier.route(request) matches Some(i) ==> i < state.tier.classes.len()
            && state.tier.demand(request).size == state.tier.classes[i as int]
            && state.tier.classes[i as int] >= request.need(),
        state.tier.route(request) is None ==> state.tier.demand(request) == request,
{
    lemma_class_index_is_smallest(state.tier.classes, request.need());
}

/// An allocation keeps every cached block and every free byte inside the
/// heap's memory, and a block of one byte or more that it serves lies
/// there.
pub proof fn lemma_allocate_keeps_sound(
    before: SlabView,
    after: SlabView,
    request: RequestView,
    result: Result<usize, AllocError>,
)
    requires
        before.sound(),
        before.allocated(after, request, result),
    ensures
        after.sound(),
        result matches Ok(addr) ==> before.tier.demand(request).size > 0 ==> before.holds(
            addr as int,
            before.tier.demand(request).size,
        ),
{
    lemma_route_is_a_class(before, request);
    let demand = before.tier.demand(request);
    match before.tier.cached(request) {
        Some(addr) => {
            let i = before.tier.route(request).unwrap() as int;
            let last = before.tier.lists[i].len() - 1;
            assert(before.is_cached(i, last));
            assert(before.holds(before.tier.lists[i][last] as int, before.tier.classes[i] as int));
            assert forall|j: int, k: int| after.is_cached(j, k) implies after.holds(
                #[trigger] after.tier.lists[j][k] as int,
                after.tier.classes[j] as int,
            ) by {
                assert(before.is_cached(j, k));
                assert(after.tier.lists[j][k] == before.tier.lists[j][k]);
            }
        },
        None => {
            if demand.size > 0 {
                lemma_found_block_lies_in_memory(
                    before.heap,
                    after.heap,
                    demand.size,
                    demand.align,
                    found_block(result),
                );
            }
            assert forall|j: int, k: int| after.is_cached(j, k) implies after.holds(
                #[trigger] after.tier.lists[j][k] as int,
                after.tier.classes[j] as int,
            ) by {
                assert(before.is_cached(j, k));
            }
        },
    }
}

/// Taking a block back keeps every cached block and every free byte inside
/// the heap's memory.
pub proof fn lemma_dealloc_keeps_sound(before: SlabView, addr: usize, request: RequestView)
    requires
        before.sound(),
    ensures
        before.after_dealloc(addr, request).sound(),
{
    lemma_route_is_a_class(before, request);
    let after = before.after_dealloc(addr, request);
    if let Ok(Release::Cached(index)) = before.dealloc_result(addr as int, request) {
        let i = index as int;
        assert forall|j: int, k: int| after.is_cached(j, k) implies after.holds(
            #[trigger] after.tier.lists[j][k] as int,
            after.tier.classes[j] as int,
        ) by {
            if j == i && k == before.tier.lists[i].len() {
            } else {
                assert(before.is_cached(j, k));
                assert(after.tier.lists[j][k] == before.tier.lists[j][k]);
            }
        }
    }
}

/// Where no address can be handed out twice, an allocation keeps it so and
/// makes no address available; the block that it serves could be handed
/// out before, and cannot be afterwards.
pub proof fn lemma_allocate_keeps_apart(
    before: SlabView,
    after: SlabView,
    request: RequestView,
    result: Result<usize, AllocError>,
)
    requires
        before.tier.wf(),
        before.apart(),
        before.allocated(after, request, result),
    ensures
        after.apart(),
        after.available().subset_of(before.available()),
        result matches Ok(addr) ==> {
            &&& block(addr as int, before.tier.demand(request).size).subset_of(before.available())
            &&& block(addr as int, before.tier.demand(request).size).disjoint(after.available())
        },
{
    lemma_route_is_a_class(before, request);
    let demand = before.tier.demand(request);
    match before.tier.cached(request) {
        Some(addr) => {
            let i = before.tier.route(request).unwrap() as int;
            let last = before.tier.lists[i].len() - 1;
            let served = block(addr as int, demand.size);
            assert(before.is_cached(i, last));
            assert(served == before.cached_block(i, last));
            assert forall|j: int, k: int| after.is_cached(j, k) implies before.is_cached(j, k)
                && (j != i || k != last) && #[trigger] after.cached_block(j, k)
                == before.cached_block(j, k) by {
                assert(after.tier.lists[j][k] == before.tier.lists[j][k]);
            }
            assert forall|a: int| after.available().contains(a) implies before.available().contains(
                a,
            ) && !served.contains(a) by {
                if !heap_free(after.heap).contains(a) {
                    let (j, k) = choose|j: int, k: int|
                        after.is_cached(j, k) && #[trigger] after.cached_block(j, k).contains(a);
                    assert(before.cached_block(j, k).contains(a));
                    assert(before.cached_block(j, k).disjoint(before.cached_block(i, last)));
                }
            }
            assert forall|a: int| served.contains(a) implies before.available().contains(a) by {
                assert(before.cached_block(i, last).contains(a));
            }
        },
        None => {
            assert forall|j: int, k: int| after.is_cached(j, k) implies before.is_cached(j, k)
                && #[trigger] after.cached_block(j, k) == before.cached_block(j, k) by {}
            assert forall|a: int| after.available().contains(a) implies before.available().contains(
                a,
            ) by {
                if !heap_free(after.heap).contains(a) {
                    let (j, k) = choose|j: int, k: int|
                        after.is_cached(j, k) && #[trigger] after.cached_block(j, k).contains(a);
                    assert(before.cached_block(j, k).contains(a));
                }
            }
            if let Ok(addr) = result {
                let served = block(addr as int, demand.size);
                assert forall|a: int| served.contains(a) implies before.available().contains(a)
                    && !after.available().contains(a) by {
                    assert(heap_free(before.heap).contains(a));
                    if after.available().contains(a) {
                        let (j, k) = choose|j: int, k: int|
                            after.is_cached(j, k) && #[trigger] after.cached_block(j, k).contains(
                                a,
                            );
                        assert(before.cached_block(j, k).disjoint(heap_free(before.heap)));
                    }
                }
            }
        },
    }
}

/// Where no address can be handed out twice, taking back a block that
/// could not be handed out keeps it so; the bytes of a block that went on a
/// free list can be handed out again, and no others than before.
pub proof fn lemma_dealloc_keeps_apart(before: SlabView, addr: usize, request: RequestView)
    requires
        before.tier.wf(),
        before.apart(),
        block(addr as int, before.tier.demand(request).size).disjoint(before.available()),
    ensures
        before.after_dealloc(addr, request).apart(),
        before.dealloc_result(addr as int, request) is Ok && before.tier.route(request) is Some
            ==> before.after_dealloc(addr, request).available() == before.available().union(
            block(addr as int, before.tier.demand(request).size),
        ),
        !(before.dealloc_result(addr as int, request) is Ok && before.tier.route(request) is Some)
            ==> before.after_dealloc(addr, request) == before,
{
    lemma_route_is_a_class(before, request);
    let after = before.after_dealloc(addr, request);
    let demand = before.tier.demand(request);
    let freed = block(addr as int, demand.size);
    if let Ok(Release::Cached(index)) = before.dealloc_result(addr as int, request) {
        let i = index as int;
        let end = before.tier.lists[i].len() as int;
        assert(after.is_cached(i, end));
        assert(after.cached_block(i, end) == freed);
        assert forall|j: int, k: int|
            after.is_cached(j, k) && (j != i || k != end) implies before.is_cached(j, k)
            && #[trigger] after.cached_block(j, k) == before.cached_block(j, k) by {
            assert(after.tier.lists[j][k] == before.tier.lists[j][k]);
        }
        assert forall|j: int, k: int| before.is_cached(j, k) implies after.is_cached(j, k) && (j
            != i || k != end) && #[trigger] before.cached_block(j, k) == after.cached_block(
            j,
            k,
        ) by {
            assert(after.tier.lists[j][k] == before.tier.lists[j][k]);
        }
        assert forall|j: int, k: int| before.is_cached(j, k) implies (
        #[trigger] before.cached_block(j, k)).disjoint(freed) by {
            assert forall|a: int| before.cached_block(j, k).contains(a) implies !freed.contains(
                a,
            ) by {
                assert(before.available().contains(a));
            }
        }
        assert(freed.disjoint(heap_free(before.heap))) by {
            assert forall|a: int| heap_free(before.heap).contains(a) implies !freed.contains(
                a,
            ) by {
                assert(before.available().contains(a));
            }
        }
        assert forall|j: int, k: int| after.is_cached(j, k) implies (#[trigger] after.cached_block(
            j,
            k,
        )).disjoint(heap_free(after.heap)) by {
            if j != i || k != end {
                assert(before.cached_block(j, k).disjoint(heap_free(before.heap)));
            }
        }
        assert forall|j: int, k: int, m: int, l: int|
            #![trigger after.cached_block(j, k), after.cached_block(m, l)]
            after.is_cached(j, k) && after.is_cached(m, l) && (j != m || k
                != l) implies after.cached_block(j, k).disjoint(after.cached_block(m, l)) by {
            if j == i && k == end {
                assert(before.cached_block(m, l).disjoint(freed));
            } else if m == i && l == end {
                assert(before.cached_block(j, k).disjoint(freed));
            } else {
                assert(before.cached_block(j, k).disjoint(before.cached_block(m, l)));
            }
        }
        assert forall|a: int|
            after.available().contains(a) <==> (before.available().contains(a) || freed.contains(
                a,
            )) by {
            if after.available().contains(a) && !heap_free(after.heap).contains(a) {
                let (j, k) = choose|j: int, k: int|
                    after.is_cached(j, k) && #[trigger] after.cached_block(j, k).contains(a);
                if j != i || k != end {
                    assert(before.cached_block(j, k).contains(a));
                }
            }
            if before.available().contains(a) && !heap_free(before.heap).contains(a) {
                let (j, k) = choose|j: int, k: int|
                    before.is_cached(j, k) && #[trigger] before.cached_block(j, k).contains(a);
                assert(after.cached_block(j, k).contains(a));
            }
            if freed.contains(a) {
                assert(after.cached_block(i, end).contains(a));
            }
        }
        assert(after.available() =~= before.available().union(freed));
    }
}

/// Where no address can be handed out twice, two blocks served one after
/// the other share no address.
pub proof fn lemma_consecutive_served_blocks_are_apart(
    before: SlabView,
    between: SlabView,
    after: SlabView,
    first_request: RequestView,
    first: usize,
    second_request: RequestView,
    second: usize,
)
    requires
        before.tier.wf(),
        before.apart(),
        before.allocated(between, first_request, Ok(first)),
        between.allocated(after, second_request, Ok(second)),
    ensures
        block(first as int, before.tier.demand(first_request).size).disjoint(
            block(second as int, between.tier.demand(second_request).size),
        ),
{
    lemma_allocate_keeps_apart(before, between, first_request, Ok(first));
    lemma_route_is_a_class(before, first_request);
    assert(between.tier.wf()) by {
        if before.tier.cached(first_request) is Some {
            assert(between.tier.lists.len() == before.tier.lists.len());
        }
    }
    lemma_allocate_keeps_apart(between, after, second_request, Ok(second));
    let one = block(first as int, before.tier.demand(first_request).size);
    let two = block(second as int, between.tier.demand(second_request).size);
    assert forall|a: int| one.contains(a) implies !two.contains(a) by {
        if two.contains(a) {
            assert(between.available().contains(a));
        }
    }
}

/// An allocator whose free lists are empty and whose heap has no free
/// block answers every request with `Exhausted`, and stays as it is.
pub proof fn lemma_without_blocks_is_exhausted(
    before: SlabView,
    after: SlabView,
    request: RequestView,
    result: Result<usize, AllocError>,
)
    requires
        before.tier.wf(),
        forall|i: int|
            0 <= i < before.tier.lists.len() ==> (#[trigger] before.tier.lists[i]).len() == 0,
        heap_holes(before.heap).len() == 0,
        before.allocated(after, request, result),
    ensures
        result == Err::<usize, AllocError>(AllocError::Exhausted),
        after.tier == before.tier,
        heap_holes(after.heap) == heap_holes(before.heap),
{
    lemma_route_is_a_class(before, request);
    let demand = before.tier.demand(request);
    if let Some(index) = before.tier.route(request) {
        assert(before.tier.lists[index as int].len() == 0);
    }
    lemma_no_hole_finds_nothing(before.heap, after.heap, demand.size, demand.align, result);
}

/// An allocator whose heap holds one free block, as it does when it was
/// just given its memory, serves a request for which it has no cached block
/// from that free block where the block can hold what the request demands:
/// within machine arithmetic the answer is owed, and it is the start that
/// the free block gives.
pub proof fn lemma_one_free_block_serves(
    before: SlabView,
    after: SlabView,
    request: RequestView,
    result: Result<usize, AllocError>,
)
    requires
        before.tier.wf(),
        before.tier.cached(request) is None,
        heap_holes(before.heap).len() == 1,
        searchable(
            before.heap,
            before.tier.demand(request).size,
            before.tier.demand(request).align,
        ),
        fits_hole(
            heap_holes(before.heap)[0],
            before.tier.demand(request).size,
            before.tier.demand(request).align,
        ),
        before.allocated(after, request, result),
    ensures
        result is Ok,
        result.unwrap() == start_in(
            heap_holes(before.heap)[0].0,
            before.tier.demand(request).align,
        ),
        heap_holes(after.heap) == remains(
            heap_holes(before.heap)[0],
            before.tier.demand(request).size,
            before.tier.demand(request).align,
        ),
        after.tier == before.tier,
{
    let demand = before.tier.demand(request);
    lemma_one_hole_serves(before.heap, after.heap, demand.size, demand.align, result);
}

} // verus!
