//! Sufficiency policies: when does a set of endorsers certify a claim.
use crate::dto::ID;
use std::collections::HashSet;
use vstd::std_specs::iter::IteratorSpec;
use vstd::prelude::*;

verus! {

/// Number of endorsers that belong to the node set; endorsers from outside it are noise.
pub open spec fn certified_count(all_nodes: Set<ID>, endorsers: Set<ID>) -> nat {
    all_nodes.intersect(endorsers).len()
}

/// The number of certified endorsers that a Byzantine quorum must exceed.
pub open spec fn quorum_threshold(n: nat) -> nat {
    (2 * n) / 3
}

/// Strictly more than two thirds of the node set endorse.
pub open spec fn two_thirds_holds(all_nodes: Set<ID>, endorsers: Set<ID>) -> bool {
    certified_count(all_nodes, endorsers) > quorum_threshold(all_nodes.len())
}

/// At least one member of the node set endorses.
pub open spec fn one_holds(all_nodes: Set<ID>, endorsers: Set<ID>) -> bool {
    exists|x: ID| all_nodes.contains(x) && endorsers.contains(x)
}

/// The policy a request table certifies its claims with.
#[derive(Clone, Copy, Debug, PartialEq, Eq, Structural)]
pub enum SufficiencyChecker {
    One,
    TwoThirds,
}

impl SufficiencyChecker {
    pub open spec fn holds(self, all_nodes: Set<ID>, endorsers: Set<ID>) -> bool {
        match self {
            SufficiencyChecker::One => one_holds(all_nodes, endorsers),
            SufficiencyChecker::TwoThirds => two_thirds_holds(all_nodes, endorsers),
        }
    }

    pub fn check(&self, all_nodes: &HashSet<ID>, approver_nodes: &HashSet<ID>) -> (r: bool)
        ensures
            r == self.holds(all_nodes@, approver_nodes@),
    {
        match self {
            SufficiencyChecker::One => one(all_nodes, approver_nodes),
            SufficiencyChecker::TwoThirds => two_thirds(all_nodes, approver_nodes),
        }
    }
}

/// Byzantine quorum: more than `floor(2n/3)` of the `n` nodes endorse.
pub fn two_thirds(all_nodes: &HashSet<ID>, approver_nodes: &HashSet<ID>) -> (r: bool)
    ensures
        r == two_thirds_holds(all_nodes@, approver_nodes@),
        r == (all_nodes@.intersect(approver_nodes@).len() > (2 * all_nodes@.len()) / 3),
{
    let clean = clean_noise_approvers(all_nodes, approver_nodes);
    proof {
        clean@.unique_seq_to_set();
    }
    let threshold: u128 = (all_nodes.len() as u128) * 2 / 3;
    (clean.len() as u128) > threshold
}

/// At least one endorser is a member of the node set.
pub fn one(all_nodes: &HashSet<ID>, approver_nodes: &HashSet<ID>) -> (r: bool)
    ensures
        r == one_holds(all_nodes@, approver_nodes@),
{
    let clean = clean_noise_approvers(all_nodes, approver_nodes);
    if clean.len() > 0 {
        assert(clean@.to_set().contains(clean@[0]));
        true
    } else {
        assert forall|x: ID| all_nodes@.contains(x) && approver_nodes@.contains(x) implies false by {
            assert(clean@.to_set().contains(x));
        }
        false
    }
}

/// The endorsers that are members of the node set, each once.
pub fn clean_noise_approvers(all_nodes: &HashSet<ID>, approver_nodes: &HashSet<ID>) -> (r: Vec<ID>)
    ensures
        r@.no_duplicates(),
        r@.to_set() == all_nodes@.intersect(approver_nodes@),
{
    let mut clean: Vec<ID> = Vec::new();
    let ghost keys: Seq<ID> = approver_nodes.iter().remaining().unref();
    let ghost mut seen: int = 0;
    for x in it: approver_nodes.iter()
        invariant
            it.seq().unref() == keys,
            keys.to_set() == approver_nodes@,
            seen == it.index(),
            clean@.no_duplicates(),
            forall|y: ID|
                clean@.contains(y) <==> (all_nodes@.contains(y) && keys.subrange(0, seen).contains(y)),
    {
        proof {
            assert(keys[seen] == *x);
            assert(keys.no_duplicates());
            assert(keys.subrange(0, seen + 1) =~= keys.subrange(0, seen).push(*x));
        }
        let ghost before = clean@;
        if all_nodes.contains(x) {
            clean.push(*x);
        }
        proof {
            seen = seen + 1;
            assert forall|y: ID|
                clean@.contains(y) <==> (all_nodes@.contains(y) && keys.subrange(0, seen).contains(
                    y,
                )) by {
                assert(keys.subrange(0, seen)[seen - 1] == *x);
                if clean@.contains(y) {
                    let i = choose|i: int| 0 <= i < clean@.len() && clean@[i] == y;
                    if i < before.len() {
                        assert(before[i] == y);
                    }
                }
                if before.contains(y) {
                    let i = choose|i: int| 0 <= i < before.len() && before[i] == y;
                    assert(clean@[i] == y);
                }
                let prev = keys.subrange(0, seen - 1);
                let now = keys.subrange(0, seen);
                if prev.contains(y) {
                    let i = choose|i: int| 0 <= i < prev.len() && prev[i] == y;
                    assert(now[i] == y);
                }
                if now.contains(y) && y != *x {
                    let i = choose|i: int| 0 <= i < now.len() && now[i] == y;
                    assert(prev[i] == y);
                }
                if y == *x && all_nodes@.contains(y) {
                    assert(clean@[clean@.len() - 1] == y);
                }
            }
        }
    }
    proof {
        assert(keys.subrange(0, seen) =~= keys);
        assert(clean@.to_set() =~= all_nodes@.intersect(approver_nodes@));
    }
    clean
}

/// With `3f + 1` nodes the Byzantine quorum is `2f + 1`: `2f` certified endorsers are
/// not enough and `2f + 1` are.
pub proof fn lemma_two_thirds_of_3f_plus_1(all_nodes: Set<ID>, endorsers: Set<ID>, f: nat)
    requires
        all_nodes.finite(),
        all_nodes.len() == 3 * f + 1,
    ensures
        quorum_threshold(all_nodes.len()) == 2 * f,
        two_thirds_holds(all_nodes, endorsers) <==> certified_count(all_nodes, endorsers) >= 2 * f
            + 1,
{
    assert((2 * (3 * f + 1)) / 3 == 2 * f) by (nonlinear_arith);
}

/// Endorsers from outside the node set never count towards either policy.
pub proof fn lemma_noise_is_ignored(all_nodes: Set<ID>, endorsers: Set<ID>, noise: Set<ID>)
    requires
        all_nodes.disjoint(noise),
    ensures
        certified_count(all_nodes, endorsers.union(noise)) == certified_count(all_nodes, endorsers),
        two_thirds_holds(all_nodes, endorsers.union(noise)) == two_thirds_holds(
            all_nodes,
            endorsers,
        ),
        one_holds(all_nodes, endorsers.union(noise)) == one_holds(all_nodes, endorsers),
{
    assert(all_nodes.intersect(endorsers.union(noise)) =~= all_nodes.intersect(endorsers));
}

/// Dropping node `x` from the node set recomputes the quorum against the smaller set: the
/// number of endorsers to exceed does not grow, and an endorsement left by `x` no longer
/// counts.
pub proof fn lemma_quorum_after_removal(all_nodes: Set<ID>, endorsers: Set<ID>, x: ID)
    requires
        all_nodes.finite(),
        all_nodes.contains(x),
    ensures
        all_nodes.remove(x).len() == all_nodes.len() - 1,
        quorum_threshold(all_nodes.remove(x).len()) <= quorum_threshold(all_nodes.len()),
        certified_count(all_nodes.remove(x), endorsers) == certified_count(
            all_nodes,
            endorsers.remove(x),
        ),
        two_thirds_holds(all_nodes.remove(x), endorsers) <==> certified_count(
            all_nodes,
            endorsers.remove(x),
        ) > quorum_threshold((all_nodes.len() - 1) as nat),
{
    assert(all_nodes.remove(x).intersect(endorsers) =~= all_nodes.intersect(endorsers.remove(x)));
    let n = all_nodes.len();
    assert((2 * (n - 1)) / 3 <= (2 * n) / 3) by (nonlinear_arith)
        requires
            n >= 1,
    ;
}

} // verus!
