use pbft::dto::ID;
use pbft::test_util::{new_nodes, new_random_preprepare, random};
use pbft::util::{digest, ensure_hm_val, find_others};
use std::collections::HashMap;

#[test]
fn should_find_others() {
    let set: Vec<ID> = [1, 5, 56, 12, 214, 11].iter().map(|i| *i).collect();
    let others_5: Vec<ID> = find_others(5, &set);
    assert_eq!(others_5, vec![1, 56, 12, 214, 11]);
    let others_214: Vec<ID> = find_others(214, &set);
    assert_eq!(others_214, vec![1, 5, 56, 12, 11])
}

#[test]
fn digest_is_decimal_identifier() {
    assert_eq!(digest(0), "0".to_owned());
    assert_eq!(digest(42), "42".to_owned());
    assert_eq!(digest(1337), "1337".to_owned());
}

#[test]
fn ensure_hm_val_inserts_only_when_missing() {
    let mut map: HashMap<ID, Vec<ID>> = HashMap::new();
    ensure_hm_val(&mut map, 3, || vec![1]);
    assert_eq!(map.get(&3), Some(&vec![1]));
    ensure_hm_val(&mut map, 3, || vec![2]);
    assert_eq!(map.get(&3), Some(&vec![1]));
    assert_eq!(map.len(), 1);
}

#[test]
fn new_nodes_counts_from_zero() {
    let nodes = new_nodes(3);
    assert_eq!(nodes.len(), 3);
    assert!(nodes.contains(&0) && nodes.contains(&2) && !nodes.contains(&3));
}

#[test]
fn random_is_determined_by_its_seed() {
    let mut a: u64 = 11;
    let mut b: u64 = 11;
    let first = random(&mut a);
    assert_eq!(first, random(&mut b));
    assert_eq!(a, first);
    assert_ne!(random(&mut a), first);
    let mut c: u64 = 11;
    let pp = new_random_preprepare(&mut c);
    assert_eq!(pp.view_id, first);
    assert_eq!(pp.signature, pp.sender_id);
    assert_eq!(pp.get_message(), "Tip message".to_owned());
}
