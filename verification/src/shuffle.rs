//! Seeded shuffling.

use rand::rngs::StdRng;
use rand::seq::SliceRandom;
use rand::SeedableRng;
use vstd::prelude::*;

verus! {

/// The two sequences that come out when a generator seeded with `seed`
/// shuffles `first` and then, going on from where it stopped, `second`.
pub uninterp spec fn seeded_orders(seed: u64, first: Seq<usize>, second: Seq<usize>) -> (
    Seq<usize>,
    Seq<usize>,
);

/// Seeds a `rand::rngs::StdRng` with `StdRng::seed_from_u64(seed)` and
/// shuffles the two vectors in place with `SliceRandom::shuffle`, `first`
/// before `second`, both with that one generator.
///
/// Trusted: a shuffle only swaps elements, so each vector keeps its
/// elements; and the outcome depends on nothing but the seed and the two
/// vectors.
#[verifier::external_body]
pub(crate) fn shuffle_both(seed: u64, first: &mut Vec<usize>, second: &mut Vec<usize>)
    ensures
        (final(first)@, final(second)@) == seeded_orders(seed, old(first)@, old(second)@),
        final(first)@.to_multiset() == old(first)@.to_multiset(),
        final(second)@.to_multiset() == old(second)@.to_multiset(),
{
    let mut rng = StdRng::seed_from_u64(seed);
    first.shuffle(&mut rng);
    second.shuffle(&mut rng);
}

/// The positions `0, 1, .., n - 1`, in order.
pub open spec fn positions(n: nat) -> Seq<usize> {
    Seq::new(n, |i: int| i as usize)
}

/// `order` lists each of the positions `0, 1, .., n - 1` exactly once.
pub open spec fn is_order(order: Seq<usize>, n: nat) -> bool {
    &&& order.len() == n
    &&& forall|i: int| 0 <= i < n ==> (#[trigger] order[i]) < n
    &&& forall|i: int, j: int| 0 <= i < j < n ==> (#[trigger] order[i]) != (#[trigger] order[j])
}

/// A rearrangement of the positions below `n` lists each of them once.
pub proof fn lemma_rearranged_positions(order: Seq<usize>, n: nat)
    requires
        n <= usize::MAX,
        order.to_multiset() == positions(n).to_multiset(),
    ensures
        is_order(order, n),
{
    let base = positions(n);
    broadcast use vstd::seq_lib::group_to_multiset_ensures;

    assert(order.len() == n) by {
        order.to_multiset_ensures();
        base.to_multiset_ensures();
    }
    base.lemma_multiset_has_no_duplicates();
    order.lemma_multiset_has_no_duplicates_conv();
    assert forall|i: int| 0 <= i < n implies (#[trigger] order[i]) < n by {
        order.to_multiset_ensures();
        base.to_multiset_ensures();
        assert(base.to_multiset().count(order[i]) > 0);
    }
}

/// The vector `0, 1, .., n - 1`.
pub fn identity_order(n: usize) -> (order: Vec<usize>)
    ensures
        order@ == positions(n as nat),
{
    let mut order: Vec<usize> = Vec::with_capacity(n);
    let mut i: usize = 0;
    while i < n
        invariant
            i <= n,
            order@ == positions(i as nat),
        decreases n - i,
    {
        order.push(i);
        i += 1;
    }
    order
}

/// The orders in which a generator seeded with `seed` arranges `slots`
/// slots and then `candidates` candidates.
pub open spec fn shuffled_orders(seed: u64, slots: nat, candidates: nat) -> (
    Seq<usize>,
    Seq<usize>,
) {
    seeded_orders(seed, positions(slots), positions(candidates))
}

/// Draws the two orders of a randomization: one of the slots, then one of
/// the candidates, both from a single generator seeded with `seed`.
pub fn draw_orders(seed: u64, slots: usize, candidates: usize) -> (orders: (
    Vec<usize>,
    Vec<usize>,
))
    ensures
        (orders.0@, orders.1@) == shuffled_orders(seed, slots as nat, candidates as nat),
        is_order(orders.0@, slots as nat),
        is_order(orders.1@, candidates as nat),
{
    let mut slot_order = identity_order(slots);
    let mut candidate_order = identity_order(candidates);
    shuffle_both(seed, &mut slot_order, &mut candidate_order);
    proof {
        lemma_rearranged_positions(slot_order@, slots as nat);
        lemma_rearranged_positions(candidate_order@, candidates as nat);
    }
    (slot_order, candidate_order)
}

} // verus!
