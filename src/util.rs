//! Small helpers on node identifiers and maps.
use crate::dto::ID;
use std::collections::HashMap;
use vstd::prelude::*;
use vstd::std_specs::hash::obeys_key_model;

verus! {

/// The character of decimal digit `d`.
pub open spec fn decimal_digit(d: nat) -> char {
    seq!['0', '1', '2', '3', '4', '5', '6', '7', '8', '9'][d as int]
}

/// Base-ten digits of `n`, most significant first.
pub open spec fn decimal(n: nat) -> Seq<char>
    decreases n,
{
    if n < 10 {
        seq![decimal_digit(n)]
    } else {
        decimal(n / 10).push(decimal_digit(n % 10))
    }
}

/// Relies on `u64::to_string` (the `Display` of integers): the base-ten digits of `n`,
/// most significant first, with no sign and no padding.
#[verifier::external_body]
fn to_decimal(n: u64) -> (r: String)
    ensures
        r@ == decimal(n as nat),
{
    n.to_string()
}

/// Inserts `new_vt()` under `key_top` unless the key is already present.
pub fn ensure_hm_val<K: std::cmp::Eq + std::hash::Hash, V, F: FnOnce() -> V>(
    top_level: &mut HashMap<K, V>,
    key_top: K,
    new_vt: F,
)
    requires
        obeys_key_model::<K>(),
        new_vt.requires(()),
    ensures
        old(top_level)@.contains_key(key_top) ==> final(top_level)@ == old(top_level)@,
        !old(top_level)@.contains_key(key_top) ==> exists|v: V|
            new_vt.ensures((), v) && final(top_level)@ == old(top_level)@.insert(key_top, v),
{
    if !top_level.contains_key(&key_top) {
        let v = new_vt();
        top_level.insert(key_top, v);
    }
}

/// The identifiers of `all_nodes` other than `me`, in their order.
pub fn find_others(me: ID, all_nodes: &Vec<ID>) -> (r: Vec<ID>)
    ensures
        r@ == all_nodes@.filter(|other: ID| other != me),
{
    let mut others: Vec<ID> = Vec::new();
    let mut i: usize = 0;
    while i < all_nodes.len()
        invariant
            i <= all_nodes@.len(),
            others@ == all_nodes@.subrange(0, i as int).filter(|other: ID| other != me),
        decreases all_nodes@.len() - i,
    {
        proof {
            let prefix = all_nodes@.subrange(0, i as int);
            assert(all_nodes@.subrange(0, i + 1) =~= prefix.push(all_nodes@[i as int]));
            prefix.lemma_filter_push(all_nodes@[i as int], |other: ID| other != me);
        }
        if all_nodes[i] != me {
            others.push(all_nodes[i]);
        }
        i = i + 1;
    }
    proof {
        assert(all_nodes@.subrange(0, i as int) =~= all_nodes@);
    }
    others
}

/// A digest naming node `id`: its identifier in decimal.
pub fn digest(id: ID) -> (r: String)
    ensures
        r@ == decimal(id as nat),
{
    to_decimal(id)
}

} // verus!
