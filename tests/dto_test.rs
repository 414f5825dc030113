use pbft::dto::{NodeRequest, PrePrepare, ID};
use pbft::test_util::new_random_preprepare;

#[test]
fn preprepare_should_create_prepare() {
    let mut seed: u64 = 2024;
    let pp = new_random_preprepare(&mut seed);
    let new_sender_id = 1337 as ID;
    let p = pp.make_prepare(new_sender_id, pp.get_digest());
    assert_eq!(p.get_view_id(), pp.get_view_id());
    assert_eq!(p.get_seq_id(), pp.get_seq_id());
    assert_eq!(p.get_digest(), "digest".to_owned());
    assert_eq!(p.get_sender_id(), new_sender_id);
}

#[test]
fn prepare_should_create_commit() {
    let pp = PrePrepare::new(3, 9, "d".to_owned(), 0, "X".to_owned(), 0);
    let p = pp.make_prepare(2, pp.get_digest());
    let c = p.make_commit(5, p.get_digest());
    assert_eq!(c.get_view_id(), 3);
    assert_eq!(c.get_seq_id(), 9);
    assert_eq!(c.get_digest(), "d".to_owned());
    assert_eq!(c.get_sender_id(), 5);
    assert_eq!(c.signature, 5);
    assert_eq!(pp.get_message(), "X".to_owned());
}
