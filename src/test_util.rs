//! Fixtures for exercising the protocol: a seeded generator, messages and node sets.
use crate::dto::{Commit, PrePrepare, ID};
use std::collections::HashSet;
use vstd::prelude::*;

verus! {

/// The generator state that follows `seed` (a 64-bit linear congruential step).
pub open spec fn next_random(seed: u64) -> u64 {
    seed.wrapping_mul(6364136223846793005).wrapping_add(1442695040888963407)
}

/// Advances the explicit generator state `seed` and returns the new value.
pub fn random(seed: &mut u64) -> (r: ID)
    ensures
        r == next_random(*old(seed)),
        *final(seed) == r,
{
    *seed = seed.wrapping_mul(6364136223846793005).wrapping_add(1442695040888963407);
    *seed
}

/// A proposal with view, slot and sender drawn from `seed`, signed by its sender, with
/// digest "digest" and payload "Tip message".
pub fn new_random_preprepare(seed: &mut u64) -> (r: PrePrepare)
    ensures
        r.view_id == next_random(*old(seed)),
        r.seq_id == next_random(next_random(*old(seed))),
        r.sender_id == next_random(next_random(next_random(*old(seed)))),
        r.signature == r.sender_id,
        r.digest@ == "digest"@,
        r.message@ == "Tip message"@,
        *final(seed) == r.sender_id,
{
    let view_id = random(seed);
    let seq_id = random(seed);
    let sender_id = random(seed);
    PrePrepare::new(
        view_id,
        seq_id,
        "digest".to_owned(),
        sender_id,
        "Tip message".to_owned(),
        sender_id,
    )
}

/// A commit of `(view, seq, "digest")` by `sender`.
pub fn new_req(view: ID, seq: ID, sender: ID) -> (r: Commit)
    ensures
        r.view_id == view,
        r.seq_id == seq,
        r.digest@ == "digest"@,
        r.sender_id == sender,
        r.signature == sender,
{
    Commit::new(view, seq, "digest".to_owned(), sender, sender)
}

/// The node set `{0, ..., count - 1}`.
pub fn new_nodes(count: usize) -> (r: HashSet<ID>)
    ensures
        r@ == Set::new(|i: ID| i < count),
{
    let mut nodes: HashSet<ID> = HashSet::new();
    let mut i: usize = 0;
    while i < count
        invariant
            i <= count,
            nodes@ == Set::new(|k: ID| k < i),
        decreases count - i,
    {
        nodes.insert(i as ID);
        i = i + 1;
        proof {
            assert(nodes@ =~= Set::new(|k: ID| k < i));
        }
    }
    nodes
}

} // verus!
