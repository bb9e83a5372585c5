//! Index arithmetic on a ring of frame slots.

use vstd::arithmetic::div_mod::lemma_fundamental_div_mod_converse_mod;
use vstd::prelude::*;

verus! {

/// The slot that the hand reaches from `hand` after `k` advances round a ring
/// of `n` slots.
pub open spec fn ring_slot(hand: nat, k: nat, n: nat) -> nat {
    (hand + k) % n
}

/// The number of advances that take the hand from `hand` to `slot` in a ring
/// of `n` slots.
pub open spec fn ring_distance(hand: nat, slot: int, n: nat) -> int {
    (slot - hand) % (n as int)
}

/// Up to one lap, advancing wraps round at most once.
pub proof fn lemma_ring_slot(hand: nat, k: nat, n: nat)
    requires
        hand < n,
        k <= n,
    ensures
        ring_slot(hand, k, n) == if hand + k < n {
            (hand + k) as int
        } else {
            hand + k - n
        },
{
    let x = (hand + k) as int;
    let d = n as int;
    if hand + k < n {
        lemma_fundamental_div_mod_converse_mod(x, d, 0, x);
    } else {
        lemma_fundamental_div_mod_converse_mod(x, d, 1, x - d);
    }
}

/// The distance to a slot before the hand counts the wrap-around.
pub proof fn lemma_ring_distance(hand: nat, slot: int, n: nat)
    requires
        hand < n,
        0 <= slot < n,
    ensures
        ring_distance(hand, slot, n) == if slot >= hand {
            slot - hand
        } else {
            slot - hand + n
        },
{
    let x = slot - hand;
    let d = n as int;
    if slot >= hand {
        lemma_fundamental_div_mod_converse_mod(x, d, 0, x);
    } else {
        lemma_fundamental_div_mod_converse_mod(x, d, -1, x + d);
    }
}

/// Within one lap, the slot at distance `k` from the hand is the one reached
/// by `k` advances, and no other.
pub proof fn lemma_ring_inverse(hand: nat, k: nat, slot: int, n: nat)
    requires
        hand < n,
        k < n,
        0 <= slot < n,
    ensures
        ring_slot(hand, k, n) < n,
        ring_distance(hand, slot, n) == k <==> slot == ring_slot(hand, k, n),
        0 <= ring_distance(hand, slot, n) < n,
{
    lemma_ring_slot(hand, k, n);
    lemma_ring_distance(hand, slot, n);
}

} // verus!
