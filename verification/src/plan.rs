//! The startup plan: the descriptors of the services in the order of their ranks.

use crate::descriptor::{DescriptorView, ServiceDescriptor};
use vstd::prelude::*;

verus! {

/// The descriptors stand in the order of their ranks.
pub open spec fn in_rank_order(plan: Seq<DescriptorView>) -> bool {
    forall|i: int, j: int| 0 <= i <= j < plan.len() ==> plan[i].rank <= plan[j].rank
}

/// The number of descriptors at the start of `plan` whose rank is at most `rank`.
pub open spec fn rank_slot(plan: Seq<DescriptorView>, rank: u32) -> int
    decreases plan.len(),
{
    if plan.len() > 0 && plan[0].rank <= rank {
        1 + rank_slot(plan.drop_first(), rank)
    } else {
        0
    }
}

/// The descriptors sorted by rank, lowest first.  Descriptors of one rank
/// keep the order in which they were given.
pub open spec fn by_rank(descriptors: Seq<DescriptorView>) -> Seq<DescriptorView>
    decreases descriptors.len(),
{
    if descriptors.len() == 0 {
        Seq::empty()
    } else {
        let sorted = by_rank(descriptors.drop_last());
        sorted.insert(rank_slot(sorted, descriptors.last().rank), descriptors.last())
    }
}

/// `rank_slot` counts a run of ranks that are at most `rank`.
pub proof fn lemma_rank_slot(plan: Seq<DescriptorView>, rank: u32, k: int)
    requires
        0 <= k <= plan.len(),
        forall|i: int| 0 <= i < k ==> (#[trigger] plan[i]).rank <= rank,
        k < plan.len() ==> plan[k].rank > rank,
    ensures
        rank_slot(plan, rank) == k,
    decreases k,
{
    if k > 0 {
        let rest = plan.drop_first();
        assert forall|i: int| 0 <= i < k - 1 implies (#[trigger] rest[i]).rank <= rank by {
            assert(rest[i] == plan[i + 1]);
        }
        if k - 1 < rest.len() {
            assert(rest[k - 1] == plan[k]);
        }
        lemma_rank_slot(rest, rank, k - 1);
    }
}

/// The slot lies within the plan; ranks before it are at most `rank`, and the
/// rank at it is greater.
pub proof fn lemma_rank_slot_bounds(plan: Seq<DescriptorView>, rank: u32)
    ensures
        0 <= rank_slot(plan, rank) <= plan.len(),
        forall|i: int| 0 <= i < rank_slot(plan, rank) ==> (#[trigger] plan[i]).rank <= rank,
        rank_slot(plan, rank) < plan.len() ==> plan[rank_slot(plan, rank)].rank > rank,
    decreases plan.len(),
{
    if plan.len() > 0 && plan[0].rank <= rank {
        let rest = plan.drop_first();
        lemma_rank_slot_bounds(rest, rank);
        assert forall|i: int| 0 <= i < rank_slot(plan, rank) implies (#[trigger] plan[i]).rank
            <= rank by {
            if i > 0 {
                assert(plan[i] == rest[i - 1]);
            }
        }
        if rank_slot(plan, rank) < plan.len() {
            assert(plan[rank_slot(plan, rank)] == rest[rank_slot(rest, rank)]);
        }
    }
}

/// Sorting by rank gives the same descriptors, each as often as before, in
/// the order of their ranks.
pub proof fn lemma_by_rank(descriptors: Seq<DescriptorView>)
    ensures
        in_rank_order(by_rank(descriptors)),
        by_rank(descriptors).len() == descriptors.len(),
        by_rank(descriptors).to_multiset() == descriptors.to_multiset(),
    decreases descriptors.len(),
{
    broadcast use vstd::seq_lib::to_multiset_insert, vstd::seq_lib::to_multiset_build;

    if descriptors.len() == 0 {
        assert(by_rank(descriptors) =~= descriptors);
    } else {
        let front = descriptors.drop_last();
        let last = descriptors.last();
        lemma_by_rank(front);
        let sorted = by_rank(front);
        lemma_rank_slot_bounds(sorted, last.rank);
        let at = rank_slot(sorted, last.rank);
        let all = sorted.insert(at, last);
        assert forall|i: int, j: int| 0 <= i <= j < all.len() implies all[i].rank
            <= all[j].rank by {
            if i < at && j > at {
                assert(all[j] == sorted[j - 1]);
                assert(sorted[at].rank <= sorted[j - 1].rank);
            }
        }
        assert(front.push(last) =~= descriptors);
        assert(all.to_multiset() =~= sorted.to_multiset().insert(last));
        assert(descriptors.to_multiset() =~= front.to_multiset().insert(last));
    }
}

/// Descriptors that already stand in the order of their ranks stay as they are.
pub proof fn lemma_by_rank_of_ordered(descriptors: Seq<DescriptorView>)
    requires
        in_rank_order(descriptors),
    ensures
        by_rank(descriptors) == descriptors,
    decreases descriptors.len(),
{
    if descriptors.len() > 0 {
        let front = descriptors.drop_last();
        let last = descriptors.last();
        assert forall|i: int, j: int| 0 <= i <= j < front.len() implies front[i].rank
            <= front[j].rank by {
            assert(front[i] == descriptors[i] && front[j] == descriptors[j]);
        }
        lemma_by_rank_of_ordered(front);
        assert forall|i: int| 0 <= i < front.len() implies (#[trigger] front[i]).rank
            <= last.rank by {
            assert(front[i] == descriptors[i]);
        }
        lemma_rank_slot(front, last.rank, front.len() as int);
        assert(front.insert(front.len() as int, last) =~= descriptors);
    }
}

/// Sorts the descriptors by rank, lowest first; descriptors of one rank keep
/// the order in which they were given.
pub fn sort_by_rank(descriptors: Vec<ServiceDescriptor>) -> (plan: Vec<ServiceDescriptor>)
    ensures
        plan.deep_view() == by_rank(descriptors.deep_view()),
        in_rank_order(plan.deep_view()),
        plan.len() == descriptors.len(),
        plan.deep_view().to_multiset() == descriptors.deep_view().to_multiset(),
{
    let ghost all = descriptors.deep_view();
    let mut waiting = descriptors;
    let mut plan: Vec<ServiceDescriptor> = Vec::new();
    let ghost mut done: int = 0;
    assert(all.take(0) =~= Seq::<DescriptorView>::empty());
    assert(all.skip(0) =~= all);
    assert(plan.deep_view() =~= Seq::<DescriptorView>::empty());
    while waiting.len() > 0
        invariant
            0 <= done <= all.len(),
            waiting.deep_view() == all.skip(done),
            plan.deep_view() == by_rank(all.take(done)),
        decreases waiting.len(),
    {
        let ghost queue = waiting.deep_view();
        let ghost sorted = plan.deep_view();
        let descriptor = waiting.remove(0);
        assert(descriptor@ == queue[0]);
        assert(waiting.deep_view() =~= queue.remove(0));
        assert(queue.remove(0) =~= all.skip(done + 1));
        assert(all.take(done + 1).drop_last() =~= all.take(done));
        let mut at: usize = 0;
        while at < plan.len() && plan[at].rank <= descriptor.rank
            invariant
                at <= plan.len(),
                plan.deep_view() == sorted,
                forall|k: int| 0 <= k < at ==> (#[trigger] sorted[k]).rank <= descriptor.rank,
            decreases plan.len() - at,
        {
            at += 1;
        }
        proof {
            lemma_rank_slot(sorted, descriptor.rank, at as int);
        }
        plan.insert(at, descriptor);
        assert(plan.deep_view() =~= sorted.insert(at as int, descriptor@));
        proof {
            done = done + 1;
        }
    }
    assert(all.take(done) =~= all);
    proof {
        lemma_by_rank(all);
    }
    plan
}

} // verus!
