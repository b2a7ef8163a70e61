//! AES-256-GCM content encryption, truncated block tags and transport HMAC.

use vstd::prelude::*;
use vstd::bytes::{spec_u64_from_le_bytes, spec_u64_to_le_bytes, u64_to_le_bytes};
use crate::crypto::primitives::{
    aead_max_len, aes256gcm_open, aes256gcm_open_output, aes256gcm_seal, aes256gcm_seal_output,
    hmac_sha256, hmac_sha256_output, opened_view,
};

verus! {

/// Nonce base XOR'ed with the little-endian message counter in bytes 4..12.
pub open spec fn nonce_with_counter(base: Seq<u8>, counter: u64) -> Seq<u8> {
    Seq::new(
        12,
        |i: int|
            if i < 4 {
                base[i]
            } else {
                base[i] ^ spec_u64_to_le_bytes(counter)[i - 4]
            },
    )
}

/// 96-bit nonce.
#[derive(Clone)]
pub struct NonceData([u8; 12]);

impl View for NonceData {
    type V = Seq<u8>;

    closed spec fn view(&self) -> Seq<u8> {
        self.0@
    }
}

impl NonceData {
    /// Nonce base XOR message counter (low 8 bytes).
    pub fn with_counter(base: &[u8; 12], counter: u64) -> (n: NonceData)
        ensures
            n@ == nonce_with_counter(base@, counter),
    {
        let mut n = *base;
        let c_bytes = u64_to_le_bytes(counter);
        proof {
            vstd::bytes::lemma_auto_spec_u64_to_from_le_bytes();
        }
        assert(c_bytes@.len() == 8);
        for i in 0..8
            invariant
                c_bytes@ == spec_u64_to_le_bytes(counter),
                c_bytes@.len() == 8,
                forall|k: int| 0 <= k < 4 ==> n@[k] == base@[k],
                forall|k: int| 4 + i <= k < 12 ==> n@[k] == base@[k],
                forall|k: int| 4 <= k < 4 + i ==> n@[k] == base@[k] ^ c_bytes@[k - 4],
        {
            n[4 + i] = n[4 + i] ^ c_bytes[i];
        }
        assert(n@ =~= nonce_with_counter(base@, counter));
        NonceData(n)
    }

    pub fn as_bytes(&self) -> (bytes: &[u8; 12])
        ensures
            bytes@ == self@,
    {
        &self.0
    }

    /// The nonce with the given bytes.
    pub fn from_array(arr: [u8; 12]) -> (n: NonceData)
        ensures
            n@ == arr@,
    {
        NonceData(arr)
    }
}

impl From<[u8; 12]> for NonceData {
    fn from(arr: [u8; 12]) -> (n: NonceData) {
        NonceData(arr)
    }
}

impl vstd::std_specs::convert::FromSpecImpl<[u8; 12]> for NonceData {
    open spec fn obeys_from_spec() -> bool {
        true
    }

    closed spec fn from_spec(v: [u8; 12]) -> NonceData {
        NonceData(v)
    }
}

/// Distinct counters give distinct nonces under the same base.
pub proof fn lemma_nonce_counter_injective(base: Seq<u8>, c1: u64, c2: u64)
    requires
        base.len() == 12,
        nonce_with_counter(base, c1) == nonce_with_counter(base, c2),
    ensures
        c1 == c2,
{
    vstd::bytes::lemma_auto_spec_u64_to_from_le_bytes();
    let b1 = spec_u64_to_le_bytes(c1);
    let b2 = spec_u64_to_le_bytes(c2);
    assert forall|k: int| 0 <= k < 8 implies b1[k] == b2[k] by {
        let x = base[k + 4];
        assert(nonce_with_counter(base, c1)[k + 4] == nonce_with_counter(base, c2)[k + 4]);
        let y1 = b1[k];
        let y2 = b2[k];
        assert(nonce_with_counter(base, c1)[k + 4] == x ^ y1);
        assert(nonce_with_counter(base, c2)[k + 4] == x ^ y2);
        assert(y1 == y2) by (bit_vector)
            requires
                x ^ y1 == x ^ y2,
        ;
    }
    assert(b1 =~= b2);
    assert(spec_u64_from_le_bytes(b1) == c1);
}

/// Opening a GCM ciphertext (body followed by a 16-byte tag) under a key.
pub open spec fn aead_open(key: Seq<u8>, nonce: Seq<u8>, aad: Seq<u8>, ciphertext: Seq<u8>) -> Option<
    Seq<u8>,
> {
    if ciphertext.len() < 16 {
        None
    } else {
        aes256gcm_open_output(
            key,
            nonce,
            aad,
            ciphertext.subrange(0, ciphertext.len() - 16),
            ciphertext.subrange(ciphertext.len() - 16, ciphertext.len() as int),
        )
    }
}

/// AES-256-GCM encryption/decryption with associated data.
pub struct AeadCipher {
    key: [u8; 32],
}

impl AeadCipher {
    pub closed spec fn key_view(&self) -> Seq<u8> {
        self.key@
    }

    pub fn new(key: &[u8; 32]) -> (c: AeadCipher)
        ensures
            c.key_view() == key@,
    {
        AeadCipher { key: *key }
    }

    /// Encrypts: ciphertext || GCM tag (16 bytes).
    pub fn encrypt(&self, nonce: &NonceData, aad: &[u8], plaintext: &[u8]) -> (ct: Vec<u8>)
        requires
            plaintext@.len() <= aead_max_len(),
            aad@.len() <= aead_max_len(),
        ensures
            ct@ == aes256gcm_seal_output(self.key_view(), nonce@, aad@, plaintext@),
            ct@.len() == plaintext@.len() + 16,
    {
        let (mut buffer, tag) = aes256gcm_seal(&self.key, nonce.as_bytes(), aad, plaintext);
        crate::bytes::append_bytes(&mut buffer, &tag);
        buffer
    }

    /// Decrypts and checks the GCM tag; `None` when the input is shorter than
    /// a tag or authentication fails.  What `encrypt` produced under the same
    /// key, nonce and associated data decrypts to its plaintext.
    pub fn decrypt(&self, nonce: &NonceData, aad: &[u8], ciphertext: &[u8]) -> (pt: Option<
        Vec<u8>,
    >)
        ensures
            opened_view(pt) == aead_open(self.key_view(), nonce@, aad@, ciphertext@),
            ciphertext@.len() >= 16 ==> forall|p: Seq<u8>|
                p.len() <= aead_max_len() && aad@.len() <= aead_max_len()
                    && #[trigger] aes256gcm_seal_output(self.key_view(), nonce@, aad@, p)
                    == ciphertext@ ==> opened_view(pt) == Some(p),
    {
        if ciphertext.len() < 16 {
            return None;
        }
        let ct_len = ciphertext.len() - 16;
        let body = vstd::slice::slice_subrange(ciphertext, 0, ct_len);
        let tag_slice = vstd::slice::slice_subrange(ciphertext, ct_len, ciphertext.len());
        let mut tag = [0u8; 16];
        for i in 0..16
            invariant
                tag_slice@.len() == 16,
                forall|k: int| 0 <= k < i ==> tag@[k] == tag_slice@[k],
        {
            tag[i] = tag_slice[i];
        }
        assert(tag@ =~= tag_slice@);
        assert(body@ + tag@ =~= ciphertext@);
        aes256gcm_open(&self.key, nonce.as_bytes(), aad, body, &tag)
    }
}


/// Truncated (8-byte) HMAC-SHA256 block tag.
pub open spec fn block_tag(key: Seq<u8>, data: Seq<u8>) -> Seq<u8> {
    hmac_sha256_output(key, data).subrange(0, 8)
}

proof fn lemma_diff_step(d: u8, a: u8, b: u8)
    ensures
        ((d | (a ^ b)) == 0u8) == (d == 0u8 && a == b),
{
    assert(((d | (a ^ b)) == 0u8) == (d == 0u8 && a == b)) by (bit_vector);
}

/// Block authentication: HMAC-SHA256 truncated to 8 bytes.
pub struct BlockAuth {
    key: [u8; 32],
}

impl BlockAuth {
    pub closed spec fn key_view(&self) -> Seq<u8> {
        self.key@
    }

    pub fn new(key: &[u8; 32]) -> (a: BlockAuth)
        ensures
            a.key_view() == key@,
    {
        BlockAuth { key: *key }
    }

    /// The first 8 bytes of HMAC-SHA256(key, data).
    pub fn compute_tag(&self, data: &[u8]) -> (tag: [u8; 8])
        ensures
            tag@ == block_tag(self.key_view(), data@),
    {
        let full = hmac_sha256(&self.key, data);
        let mut tag = [0u8; 8];
        for i in 0..8
            invariant
                full@ == hmac_sha256_output(self.key_view(), data@),
                forall|k: int| 0 <= k < i ==> tag@[k] == full@[k],
        {
            tag[i] = full[i];
        }
        assert(tag@ =~= block_tag(self.key_view(), data@));
        tag
    }

    /// Compares the expected tag with the computed one in constant time.
    pub fn verify_tag(&self, data: &[u8], expected: &[u8; 8]) -> (ok: bool)
        ensures
            ok == (block_tag(self.key_view(), data@) == expected@),
    {
        let computed = self.compute_tag(data);
        let mut diff: u8 = 0;
        for i in 0..8
            invariant
                (diff == 0u8) == (forall|k: int| 0 <= k < i ==> computed@[k] == expected@[k]),
        {
            proof {
                lemma_diff_step(diff, computed[i as int], expected[i as int]);
            }
            diff = diff | (computed[i] ^ expected[i]);
        }
        assert((diff == 0u8) == (computed@ =~= expected@));
        diff == 0
    }
}

/// Transport-layer HMAC-SHA256 (key K4).
pub struct HmacTransport {
    key: [u8; 32],
}

impl HmacTransport {
    pub closed spec fn key_view(&self) -> Seq<u8> {
        self.key@
    }

    pub fn new(key: &[u8; 32]) -> (t: HmacTransport)
        ensures
            t.key_view() == key@,
    {
        HmacTransport { key: *key }
    }

    pub fn compute(&self, data: &[u8]) -> (mac: [u8; 32])
        ensures
            mac@ == hmac_sha256_output(self.key_view(), data@),
    {
        hmac_sha256(&self.key, data)
    }

    /// Compares the expected MAC with the computed one in constant time.
    pub fn verify(&self, data: &[u8], expected: &[u8; 32]) -> (ok: bool)
        ensures
            ok == (hmac_sha256_output(self.key_view(), data@) == expected@),
    {
        let computed = self.compute(data);
        let mut diff: u8 = 0;
        for i in 0..32
            invariant
                (diff == 0u8) == (forall|k: int| 0 <= k < i ==> computed@[k] == expected@[k]),
        {
            proof {
                lemma_diff_step(diff, computed[i as int], expected[i as int]);
            }
            diff = diff | (computed[i] ^ expected[i]);
        }
        assert((diff == 0u8) == (computed@ =~= expected@));
        diff == 0
    }
}

} // verus!
