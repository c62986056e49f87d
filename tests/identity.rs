use p2p_chatter::identity::{generate_ed25519, seed_peer_id, seed_secret_bytes};

#[test]
fn seed_bytes_hold_seed_then_zeros() {
    let b = seed_secret_bytes(5);
    assert_eq!(b[0], 5);
    assert!(b[1..].iter().all(|x| *x == 0));
    assert_eq!(b.len(), 32);
}

#[test]
fn same_seed_same_identity() {
    assert_eq!(seed_peer_id(7), seed_peer_id(7));
    assert!(!seed_peer_id(7).is_empty());
}

#[test]
fn different_seeds_different_identities() {
    assert_ne!(seed_peer_id(1), seed_peer_id(2));
    assert_ne!(seed_peer_id(0), seed_peer_id(255));
}

#[test]
fn keypair_matches_peer_id() {
    let (kp, id) = generate_ed25519(42);
    assert_eq!(kp.public().to_peer_id().to_bytes(), id);
    assert_eq!(id, seed_peer_id(42));
    let (_, other) = generate_ed25519(43);
    assert_ne!(id, other);
}

#[test]
fn peer_id_is_not_the_secret() {
    let secret = seed_secret_bytes(9).to_vec();
    assert_ne!(seed_peer_id(9), secret);
}
