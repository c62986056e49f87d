use vstd::prelude::*;

verus! {

/// An Ed25519 or other key pair of libp2p, carried through opaquely.
#[verifier::external_type_specification]
#[verifier::external_body]
pub struct ExKeypair(libp2p::identity::Keypair);

/// The secret key material that a one-byte identity seed stands for: the seed
/// in the first byte, zeros after it.
pub open spec fn seed_secret(seed: u8) -> Seq<u8> {
    Seq::new(32, |i: int| if i == 0 { seed } else { 0u8 })
}

/// The peer identifier (multihash bytes) of the Ed25519 key pair whose secret
/// key is `secret`.
pub uninterp spec fn ed25519_peer_id(secret: Seq<u8>) -> Seq<u8>;

/// Builds the 32 secret-key bytes for an identity seed.
pub fn seed_secret_bytes(seed: u8) -> (r: [u8; 32])
    ensures
        r@ == seed_secret(seed),
{
    let mut bytes: [u8; 32] = [0u8; 32];
    bytes[0] = seed;
    assert(bytes@ =~= seed_secret(seed));
    bytes
}

/// Relies on libp2p's `Keypair::ed25519_from_bytes`, which only fails when the
/// input is not exactly 32 bytes long (here it always is), and on
/// `Keypair::public`, `PublicKey::to_peer_id` and `PeerId::to_bytes` for the
/// pair's peer identifier, which is a function of the secret key alone.
#[verifier::external_body]
fn keypair_from_secret(secret: [u8; 32]) -> (r: (libp2p::identity::Keypair, Vec<u8>))
    ensures
        r.1@ == ed25519_peer_id(secret@),
{
    let kp = libp2p::identity::Keypair::ed25519_from_bytes(secret).unwrap();
    let id = kp.public().to_peer_id().to_bytes();
    (kp, id)
}

/// The Ed25519 key pair a node uses when configured with `secret_key_seed`,
/// together with the peer identifier (as bytes) it gives the node.
pub fn generate_ed25519(secret_key_seed: u8) -> (r: (libp2p::identity::Keypair, Vec<u8>))
    ensures
        r.1@ == ed25519_peer_id(seed_secret(secret_key_seed)),
{
    let bytes = seed_secret_bytes(secret_key_seed);
    keypair_from_secret(bytes)
}

/// The peer identifier (as bytes) of the node configured with `secret_key_seed`.
pub fn seed_peer_id(secret_key_seed: u8) -> (r: Vec<u8>)
    ensures
        r@ == ed25519_peer_id(seed_secret(secret_key_seed)),
{
    let (_, id) = generate_ed25519(secret_key_seed);
    id
}

/// Nodes configured with the same seed get the same identity; different seeds
/// give different secret keys, so their identities differ unless two distinct
/// Ed25519 keys collide in their peer identifier.
pub proof fn lemma_seed_identity(a: u8, b: u8)
    ensures
        a == b ==> ed25519_peer_id(seed_secret(a)) == ed25519_peer_id(seed_secret(b)),
        a != b ==> seed_secret(a) != seed_secret(b),
{
    if a != b {
        assert(seed_secret(a)[0] == a);
        assert(seed_secret(b)[0] == b);
    }
}

} // verus!
