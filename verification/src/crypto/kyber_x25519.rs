//! Hybrid key exchange: X25519 plus a Kyber-shaped placeholder.
//!
//! The Kyber part is a stand-in that fills its keys and ciphertext with random
//! bytes; its "shared secret" is the first 32 ciphertext bytes.

use vstd::prelude::*;
use crate::crypto::primitives::{
    ed25519_from_seed, ed25519_from_seed_output, montgomery_mul, montgomery_mul_output,
    random_bytes,
};

verus! {

/// RFC 7748 clamping of an X25519 scalar.
pub open spec fn clamp(s: Seq<u8>) -> Seq<u8> {
    s.update(0, s[0] & 248u8).update(31, (s[31] & 127u8) | 64u8)
}

/// The Montgomery base point (u = 9), little-endian.
pub open spec fn basepoint() -> Seq<u8> {
    Seq::new(32, |i: int| if i == 0 {
        9u8
    } else {
        0u8
    })
}

/// Copies a buffer of exactly `N` bytes into an array.
pub(crate) fn to_array<const N: usize>(v: &Vec<u8>) -> (arr: [u8; N])
    requires
        v@.len() == N,
    ensures
        arr@ == v@,
{
    let mut arr = [0u8; N];
    let mut i: usize = 0;
    while i < N
        invariant
            v@.len() == N,
            i <= N,
            arr@.len() == N,
            forall|k: int| 0 <= k < i ==> arr@[k] == v@[k],
        decreases N - i,
    {
        arr[i] = v[i];
        i += 1;
    }
    assert(arr@ =~= v@);
    arr
}

/// Clamps a scalar (RFC 7748).
pub(crate) fn clamp_scalar(seed: &[u8; 32]) -> (s: [u8; 32])
    ensures
        s@ == clamp(seed@),
{
    let mut s = *seed;
    s[0] = s[0] & 248;
    s[31] = s[31] & 127;
    s[31] = s[31] | 64;
    assert(s@ =~= clamp(seed@));
    s
}

fn basepoint_bytes() -> (b: [u8; 32])
    ensures
        b@ == basepoint(),
{
    let mut b = [0u8; 32];
    b[0] = 9;
    assert(b@ =~= basepoint());
    b
}

/// X25519 key pair.
pub struct X25519KeyPair {
    pub public: [u8; 32],
    secret: [u8; 32],
}

impl X25519KeyPair {
    pub closed spec fn secret_view(&self) -> Seq<u8> {
        self.secret@
    }

    pub closed spec fn public_view(&self) -> Seq<u8> {
        self.public@
    }

    /// The public key is the secret scalar times the base point.
    pub open spec fn wf(&self) -> bool {
        self.public_view() == montgomery_mul_output(self.secret_view(), basepoint())
    }

    pub proof fn lemma_view_lengths(&self)
        ensures
            self.public_view().len() == 32,
            self.secret_view().len() == 32,
    {
    }

    pub fn secret(&self) -> (s: [u8; 32])
        ensures
            s@ == self.secret_view(),
    {
        self.secret
    }

    /// Key pair for a 32-byte seed: the clamped seed is the secret.
    pub fn from_seed(seed: &[u8; 32]) -> (kp: X25519KeyPair)
        ensures
            kp.secret_view() == clamp(seed@),
            kp.wf(),
    {
        let secret = clamp_scalar(seed);
        let base = basepoint_bytes();
        let public = montgomery_mul(&secret, &base);
        X25519KeyPair { public, secret }
    }

    /// Key pair from a random seed.
    pub fn generate() -> (kp: X25519KeyPair)
        ensures
            kp.wf(),
            exists|seed: Seq<u8>| seed.len() == 32 && kp.secret_view() == clamp(seed),
    {
        let seed = random_bytes(32);
        let seed_arr: [u8; 32] = to_array(&seed);
        Self::from_seed(&seed_arr)
    }

    /// Key pair for an already clamped secret (the public key is recomputed).
    pub fn from_secret(secret: &[u8; 32]) -> (kp: X25519KeyPair)
        ensures
            kp.secret_view() == secret@,
            kp.wf(),
    {
        let base = basepoint_bytes();
        let public = montgomery_mul(secret, &base);
        X25519KeyPair { public, secret: *secret }
    }

    /// Diffie-Hellman: our secret scalar times the peer's point.
    /// X25519 of our secret with the peer's public key.  Both sides agree:
    /// when the peer's key is its secret times the base point, the result
    /// is what the peer computes from our public key.
    pub fn shared_secret(&self, peer_public: &[u8; 32]) -> (ss: [u8; 32])
        ensures
            ss@ == montgomery_mul_output(self.secret_view(), peer_public@),
            self.wf() ==> forall|other: Seq<u8>|
                other.len() == 32 && #[trigger] montgomery_mul_output(other, basepoint())
                    == peer_public@ ==> ss@ == montgomery_mul_output(other, self.public_view()),
    {
        montgomery_mul(&self.secret, peer_public)
    }
}

/// Kyber-shaped key pair (random placeholder material).
pub struct KyberKeyPair {
    pub public: [u8; 800],
    secret: [u8; 1632],
    ciphertext: [u8; 768],
}

impl KyberKeyPair {
    pub closed spec fn public_view(&self) -> Seq<u8> {
        self.public@
    }

    pub closed spec fn secret_view(&self) -> Seq<u8> {
        self.secret@
    }

    pub closed spec fn ciphertext_view(&self) -> Seq<u8> {
        self.ciphertext@
    }

    pub proof fn lemma_view_lengths(&self)
        ensures
            self.public_view().len() == 800,
            self.secret_view().len() == 1632,
    {
    }

    /// Fills public key, secret key and ciphertext with random bytes.
    pub fn generate() -> (kp: KyberKeyPair) {
        let public: [u8; 800] = to_array(&random_bytes(800));
        let secret: [u8; 1632] = to_array(&random_bytes(1632));
        let ciphertext: [u8; 768] = to_array(&random_bytes(768));
        KyberKeyPair { public, secret, ciphertext }
    }

    /// Key pair from stored parts (the ciphertext starts out zero).
    pub fn from_parts(public: &[u8; 800], secret: &[u8; 1632]) -> (kp: KyberKeyPair)
        ensures
            kp.public_view() == public@,
            kp.secret_view() == secret@,
    {
        KyberKeyPair { public: *public, secret: *secret, ciphertext: [0u8; 768] }
    }

    /// Draws a fresh random ciphertext; the shared value is its first 32
    /// bytes.
    pub fn encapsulate(&mut self, _peer_public: &[u8; 800]) -> (shared: [u8; 32])
        ensures
            shared@ == final(self).ciphertext_view().subrange(0, 32),
            final(self).public_view() == old(self).public_view(),
            final(self).secret_view() == old(self).secret_view(),
    {
        self.ciphertext = to_array(&random_bytes(768));
        self.decapsulate()
    }

    /// The first 32 ciphertext bytes.
    pub fn decapsulate(&self) -> (shared: [u8; 32])
        ensures
            shared@ == self.ciphertext_view().subrange(0, 32),
    {
        let mut shared = [0u8; 32];
        for i in 0..32
            invariant
                forall|k: int| 0 <= k < i ==> shared@[k] == self.ciphertext@[k],
        {
            shared[i] = self.ciphertext[i];
        }
        assert(shared@ =~= self.ciphertext_view().subrange(0, 32));
        shared
    }

    pub fn secret(&self) -> (s: [u8; 1632])
        ensures
            s@ == self.secret_view(),
    {
        self.secret
    }
}

/// Ed25519 key pair: reduced seed scalar and compressed public point.
pub struct Ed25519KeyPair {
    pub public: [u8; 32],
    secret: [u8; 64],
}

impl Ed25519KeyPair {
    pub closed spec fn public_view(&self) -> Seq<u8> {
        self.public@
    }

    pub closed spec fn secret_view(&self) -> Seq<u8> {
        self.secret@
    }

    /// Key pair for a seed: the secret is the reduced scalar followed by the
    /// public key.
    pub fn from_seed(seed: &[u8; 32]) -> (kp: Ed25519KeyPair)
        ensures
            kp.public_view() == ed25519_from_seed_output(seed@).1,
            kp.secret_view() == ed25519_from_seed_output(seed@).0 + ed25519_from_seed_output(
                seed@,
            ).1,
    {
        let (scalar, public) = ed25519_from_seed(seed);
        let mut secret = [0u8; 64];
        for i in 0..32
            invariant
                forall|k: int| 0 <= k < i ==> secret@[k] == scalar@[k],
                forall|k: int| 32 <= k < 32 + i ==> secret@[k] == public@[k - 32],
        {
            secret[i] = scalar[i];
            secret[32 + i] = public[i];
        }
        assert(secret@ =~= scalar@ + public@);
        Ed25519KeyPair { public, secret }
    }

    /// Key pair from a random seed.
    pub fn generate() -> (kp: Ed25519KeyPair)
        ensures
            exists|seed: Seq<u8>|
                seed.len() == 32 && kp.public_view() == (#[trigger] ed25519_from_seed_output(seed)).1,
    {
        let seed: [u8; 32] = to_array(&random_bytes(32));
        Self::from_seed(&seed)
    }
}

/// Hybrid key exchange state: an X25519 and a Kyber key pair.
pub struct HybridKeyExchange {
    pub x25519: X25519KeyPair,
    pub kyber: KyberKeyPair,
}

impl HybridKeyExchange {
    pub fn generate() -> (kx: HybridKeyExchange)
        ensures
            kx.x25519.wf(),
    {
        HybridKeyExchange { x25519: X25519KeyPair::generate(), kyber: KyberKeyPair::generate() }
    }

    /// Rebuilds the exchange from a stored X25519 secret (public key
    /// recomputed, fresh Kyber material).
    pub fn restore(x25519_secret: [u8; 32]) -> (kx: HybridKeyExchange)
        ensures
            kx.x25519.secret_view() == x25519_secret@,
            kx.x25519.wf(),
    {
        HybridKeyExchange {
            x25519: X25519KeyPair::from_secret(&x25519_secret),
            kyber: KyberKeyPair::generate(),
        }
    }

    /// 64-byte hybrid secret: the X25519 shared secret, then the shared value
    /// of a fresh Kyber encapsulation.
    pub fn shared_secret(&self, peer_x25519: &[u8; 32], peer_kyber: &[u8; 800]) -> (hybrid: [u8; 64])
        ensures
            hybrid@.subrange(0, 32) == montgomery_mul_output(self.x25519.secret_view(), peer_x25519@),
    {
        let x_shared = self.x25519.shared_secret(peer_x25519);
        let mut kyber_kp = KyberKeyPair::generate();
        let k_shared = kyber_kp.encapsulate(peer_kyber);
        let mut hybrid = [0u8; 64];
        for i in 0..32
            invariant
                forall|k: int| 0 <= k < i ==> hybrid@[k] == x_shared@[k],
        {
            hybrid[i] = x_shared[i];
            hybrid[32 + i] = k_shared[i];
        }
        assert(hybrid@.subrange(0, 32) =~= x_shared@);
        hybrid
    }
}

/// Hybrid key pair used as the ratchet's DH key.
pub struct HybridKeyPair {
    x25519: X25519KeyPair,
    kyber: KyberKeyPair,
}

/// Whether all 32 bytes are zero.
fn is_all_zero(a: &[u8; 32]) -> (z: bool)
    ensures
        z == (forall|k: int| 0 <= k < 32 ==> a@[k] == 0u8),
{
    for i in 0..32
        invariant
            forall|k: int| 0 <= k < i ==> a@[k] == 0u8,
    {
        if a[i] != 0 {
            return false;
        }
    }
    true
}

impl HybridKeyPair {
    pub closed spec fn x25519_public_view(&self) -> Seq<u8> {
        self.x25519.public_view()
    }

    pub closed spec fn x25519_secret_view(&self) -> Seq<u8> {
        self.x25519.secret_view()
    }

    pub closed spec fn kyber_public_view(&self) -> Seq<u8> {
        self.kyber.public_view()
    }

    pub closed spec fn kyber_secret_view(&self) -> Seq<u8> {
        self.kyber.secret_view()
    }

    pub open spec fn wf(&self) -> bool {
        self.x25519_public_view() == montgomery_mul_output(self.x25519_secret_view(), basepoint())
    }

    /// Key sizes: X25519 keys are 32 bytes, the Kyber public key 800 and the
    /// Kyber secret key 1632.
    pub proof fn lemma_view_lengths(&self)
        ensures
            self.x25519_public_view().len() == 32,
            self.x25519_secret_view().len() == 32,
            self.kyber_public_view().len() == 800,
            self.kyber_secret_view().len() == 1632,
    {
        self.x25519.lemma_view_lengths();
        self.kyber.lemma_view_lengths();
    }

    /// Draws key pairs until the X25519 public key is not all zero (giving
    /// up after 64 draws).
    pub fn generate() -> (kp: HybridKeyPair)
        ensures
            kp.wf(),
    {
        let mut kp = HybridKeyPair {
            x25519: X25519KeyPair::generate(),
            kyber: KyberKeyPair::generate(),
        };
        let mut attempts: usize = 1;
        while attempts < 64 && is_all_zero(&kp.x25519.public)
            invariant
                kp.wf(),
            decreases 64 - attempts,
        {
            kp = HybridKeyPair { x25519: X25519KeyPair::generate(), kyber: KyberKeyPair::generate() };
            attempts += 1;
        }
        kp
    }

    /// Key pair from stored parts (the stored public keys are kept as given).
    pub fn restore(
        x25519_secret: &[u8; 32],
        x25519_public: &[u8; 32],
        kyber_secret: &[u8; 1632],
        kyber_public: &[u8; 800],
    ) -> (kp: HybridKeyPair)
        ensures
            kp.x25519_secret_view() == x25519_secret@,
            kp.x25519_public_view() == x25519_public@,
            kp.kyber_secret_view() == kyber_secret@,
            kp.kyber_public_view() == kyber_public@,
    {
        HybridKeyPair {
            x25519: X25519KeyPair { public: *x25519_public, secret: *x25519_secret },
            kyber: KyberKeyPair::from_parts(kyber_public, kyber_secret),
        }
    }

    pub fn public_key(&self) -> (pk: HybridPublicKey)
        ensures
            pk.x25519@ == self.x25519_public_view(),
            pk.kyber@ == self.kyber_public_view(),
    {
        HybridPublicKey { x25519: self.x25519.public, kyber: self.kyber.public }
    }

    /// Static DH with the peer's X25519 key.
    /// Static X25519 agreement with a peer's public key: for a well-formed
    /// pair, when the peer's key is its secret times the base point, the
    /// result is what the peer computes from our public key.
    pub fn dh_static(&self, peer: &HybridPublicKey) -> (ss: [u8; 32])
        ensures
            ss@ == montgomery_mul_output(self.x25519_secret_view(), peer.x25519@),
            self.wf() ==> forall|other: Seq<u8>|
                other.len() == 32 && #[trigger] montgomery_mul_output(other, basepoint())
                    == peer.x25519@ ==> ss@ == montgomery_mul_output(other, self.x25519_public_view()),
    {
        self.x25519.shared_secret(&peer.x25519)
    }

    pub fn x25519_secret(&self) -> (s: [u8; 32])
        ensures
            s@ == self.x25519_secret_view(),
    {
        self.x25519.secret
    }

    pub fn kyber_secret(&self) -> (s: [u8; 1632])
        ensures
            s@ == self.kyber_secret_view(),
    {
        self.kyber.secret()
    }
}

/// Hybrid public key.
#[derive(Clone)]
pub struct HybridPublicKey {
    pub x25519: [u8; 32],
    pub kyber: [u8; 800],
}

impl HybridPublicKey {
    /// Public key with the given X25519 part and an all-zero Kyber part;
    /// always present.
    pub fn from_bytes(bytes: &[u8; 32]) -> (pk: Option<HybridPublicKey>)
        ensures
            pk matches Some(k) && k.x25519 == *bytes && k.kyber@ == Seq::new(800, |i: int| 0u8),
    {
        let kyber = [0u8; 800];
        assert(kyber@ =~= Seq::new(800, |i: int| 0u8));
        Some(HybridPublicKey { x25519: *bytes, kyber })
    }

    pub fn as_bytes(&self) -> (b: &[u8; 32])
        ensures
            *b == self.x25519,
    {
        &self.x25519
    }
}

} // verus!
