use p2p_chatter::seen::{bytes_eq, MessageId, SeenSet};

fn id(src: u8, seq: u8) -> MessageId {
    MessageId { source: vec![src], seqno: vec![seq] }
}

#[test]
fn redelivery_is_ignored() {
    let mut s = SeenSet::new(8);
    assert!(s.observe(id(1, 1)));
    assert!(!s.observe(id(1, 1)));
    assert!(!s.observe(id(1, 1)));
    assert_eq!(s.len(), 1);
}

#[test]
fn distinct_ids_are_fresh() {
    let mut s = SeenSet::new(8);
    assert!(s.observe(id(1, 1)));
    assert!(s.observe(id(1, 2)));
    assert!(s.observe(id(2, 1)));
    assert_eq!(s.len(), 3);
    assert!(s.contains(&id(2, 1)));
    assert!(!s.contains(&id(2, 2)));
}

#[test]
fn window_evicts_oldest() {
    let mut s = SeenSet::new(2);
    assert!(s.observe(id(1, 1)));
    assert!(s.observe(id(1, 2)));
    assert!(s.observe(id(1, 3)));
    assert_eq!(s.len(), 2);
    assert!(!s.contains(&id(1, 1)));
    assert!(s.contains(&id(1, 3)));
    assert!(s.observe(id(1, 1)));
}

#[test]
fn zero_capacity_keeps_one() {
    let mut s = SeenSet::new(0);
    assert_eq!(s.capacity(), 1);
    assert!(s.observe(id(3, 3)));
    assert!(!s.observe(id(3, 3)));
    assert!(s.observe(id(4, 4)));
    assert!(s.observe(id(3, 3)));
}

#[test]
fn byte_equality() {
    assert!(bytes_eq(&vec![1, 2, 3], &vec![1, 2, 3]));
    assert!(!bytes_eq(&vec![1, 2, 3], &vec![1, 2]));
    assert!(!bytes_eq(&vec![1, 2, 3], &vec![1, 2, 4]));
    assert!(bytes_eq(&vec![], &vec![]));
}
