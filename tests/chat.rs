use p2p_chatter::chat::{ChatNode, ExpiredPeer, PartialView, ReceivedMessage};

fn msg(src: &[u8], seq: &[u8], topic: &str, data: &str) -> ReceivedMessage {
    ReceivedMessage {
        source: src.to_vec(),
        seqno: seq.to_vec(),
        topics: vec![topic.to_string()],
        data: data.as_bytes().to_vec(),
    }
}

#[test]
fn hello_on_chat_delivered_once_over_two_paths() {
    let mut b = ChatNode::new("chat".to_string(), 16);
    let first = b.on_message(msg(b"A", &[0, 1], "chat", "hello"));
    let d = first.expect("delivered");
    assert_eq!(d.source, b"A".to_vec());
    assert_eq!(d.data, b"hello".to_vec());
    assert!(b.on_message(msg(b"A", &[0, 1], "chat", "hello")).is_none());
}

#[test]
fn other_topic_not_delivered() {
    let mut b = ChatNode::new("chat".to_string(), 16);
    assert!(b.on_message(msg(b"A", &[1], "news", "x")).is_none());
    assert_eq!(b.topic(), "chat");
}

#[test]
fn message_among_several_topics() {
    let mut b = ChatNode::new("chat".to_string(), 16);
    let m = ReceivedMessage {
        source: vec![7],
        seqno: vec![1],
        topics: vec!["news".to_string(), "chat".to_string()],
        data: vec![42],
    };
    assert_eq!(b.on_message(m).unwrap().data, vec![42]);
}

#[test]
fn successive_publishes_each_delivered() {
    let mut b = ChatNode::new("chat".to_string(), 16);
    for seq in 1u8..=5 {
        assert!(b.on_message(msg(b"A", &[seq], "chat", "m")).is_some());
    }
    for seq in 1u8..=5 {
        assert!(b.on_message(msg(b"A", &[seq], "chat", "m")).is_none());
    }
}

#[test]
fn cycle_copies_delivered_once() {
    // A publishes once; on the cycle A-B-C-A node B hears the message from
    // A directly and again through C.
    let mut b = ChatNode::new("chat".to_string(), 16);
    let mut delivered = 0;
    for _ in 0..3 {
        if b.on_message(msg(b"A", &[9], "chat", "loop")).is_some() {
            delivered += 1;
        }
    }
    assert_eq!(delivered, 1);
}

#[test]
fn discovery_adds_each_peer_once() {
    let mut n = ChatNode::new("chat".to_string(), 4);
    let added = n.on_discovered(vec![vec![1], vec![2], vec![1]]);
    assert_eq!(added, vec![vec![1], vec![2]]);
    assert!(n.is_target(&vec![1]));
    let again = n.on_discovered(vec![vec![2], vec![3]]);
    assert_eq!(again, vec![vec![3]]);
    assert!(n.is_target(&vec![3]));
}

#[test]
fn expiry_removes_only_forgotten_peers() {
    let mut n = ChatNode::new("chat".to_string(), 4);
    n.on_discovered(vec![vec![1], vec![2]]);
    let removed = n.on_expired(vec![
        ExpiredPeer { peer: vec![1], still_known: true },
        ExpiredPeer { peer: vec![2], still_known: false },
        ExpiredPeer { peer: vec![5], still_known: false },
    ]);
    assert_eq!(removed, vec![vec![2]]);
    assert!(n.is_target(&vec![1]));
    assert!(!n.is_target(&vec![2]));
}

#[test]
fn partial_view_add_remove() {
    let mut v = PartialView::new();
    assert!(v.add(vec![1, 2]));
    assert!(!v.add(vec![1, 2]));
    assert!(v.add(vec![3]));
    assert_eq!(v.len(), 2);
    assert!(v.remove(&vec![1, 2]));
    assert!(!v.remove(&vec![1, 2]));
    assert!(!v.contains(&vec![1, 2]));
    assert!(v.contains(&vec![3]));
}
