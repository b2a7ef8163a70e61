//! Double ratchet over the tiered key schedule.
//!
//! Each direction has a symmetric chain: message key `n` and the next chain
//! key are HKDF expansions of the chain key (salted with the three-source
//! salt); the nonce of message `n` is expanded from the advanced chain key.
//! A sender's sending chain starts where the receiver's receiving chain
//! starts, so the receiver derives the same key and nonce at the same
//! message number.  When decryption with the current chain fails and the
//! peer presents a new DH key, a DH ratchet re-derives root and chains.

use vstd::prelude::*;
use std::collections::BTreeMap;
use vstd::bytes::{
    spec_u32_from_le_bytes, spec_u32_to_le_bytes, spec_u64_to_le_bytes, u32_from_le_bytes,
    u32_to_le_bytes, u64_to_le_bytes,
};
use vstd::string::StringSliceAdditionalSpecFns;
use crate::astro::planets::{salt_bytes, ThreeCaSalt};
use crate::bytes::{append_bytes, bytes_equal, to_array32, to_array12};
use crate::crypto::aesgcm::{aead_open, AeadCipher, NonceData};
use crate::crypto::kyber_x25519::{clamp, clamp_scalar, to_array, HybridKeyPair};
use crate::text::{hex_decode_text, hex_encode, hex_encode_chars, hex_field, lemma_hex_field_roundtrip};
use crate::crypto::primitives::{
    aead_max_len, aes256gcm_seal_output, hkdf_sha256, hkdf_sha256_output, montgomery_mul,
    montgomery_mul_output, opened_view, sha256, sha256_output,
};

verus! {

broadcast use vstd::std_specs::btree::group_btree_axioms, vstd::laws_cmp::group_laws_cmp;

// ============================================================================
// Message and root keys
// ============================================================================

#[derive(PartialEq, Debug, Clone)]
pub struct MessageKey([u8; 32]);

impl View for MessageKey {
    type V = Seq<u8>;

    closed spec fn view(&self) -> Seq<u8> {
        self.0@
    }
}

impl MessageKey {
    pub fn as_bytes(&self) -> (b: &[u8; 32])
        ensures
            b@ == self@,
    {
        &self.0
    }

    /// The key made of the first 32 bytes of `s`.
    pub fn from_slice(s: &[u8]) -> (k: MessageKey)
        requires
            s@.len() >= 32,
        ensures
            k@ == s@.subrange(0, 32),
    {
        let head = vstd::slice::slice_subrange(s, 0, 32);
        MessageKey(to_array32(head))
    }

    fn from_array(a: [u8; 32]) -> (k: MessageKey)
        ensures
            k@ == a@,
    {
        MessageKey(a)
    }

    fn copy(&self) -> (k: MessageKey)
        ensures
            k@ == self@,
    {
        MessageKey(self.0)
    }
}

#[derive(Clone)]
pub struct RootKey([u8; 32]);

impl View for RootKey {
    type V = Seq<u8>;

    closed spec fn view(&self) -> Seq<u8> {
        self.0@
    }
}

impl RootKey {
    pub fn as_bytes(&self) -> (b: &[u8; 32])
        ensures
            b@ == self@,
    {
        &self.0
    }
}

// ============================================================================
// Tiers
// ============================================================================

#[derive(Clone, Copy, PartialEq, Eq, Structural)]
pub enum RatchetTier {
    Kan,
    Zhi,
    Ren,
    Tian,
}

/// HKDF info prefix of a tier.
pub open spec fn tier_label(t: RatchetTier) -> Seq<u8> {
    match t {
        RatchetTier::Kan => "StarCompass-Kan".spec_bytes(),
        RatchetTier::Zhi => "StarCompass-Zhi".spec_bytes(),
        RatchetTier::Ren => "StarCompass-Ren".spec_bytes(),
        RatchetTier::Tian => "StarCompass-Tian".spec_bytes(),
    }
}

pub open spec fn max_skip_spec(t: RatchetTier) -> usize {
    match t {
        RatchetTier::Kan => 100,
        RatchetTier::Zhi => 500,
        RatchetTier::Ren => 1000,
        RatchetTier::Tian => 5000,
    }
}

impl RatchetTier {
    /// The tier's info label (every tier has one).
    pub fn info_label(&self) -> (l: Option<&'static [u8]>)
        ensures
            l matches Some(b) && b@ == tier_label(*self),
    {
        match self {
            RatchetTier::Kan => Some("StarCompass-Kan".as_bytes()),
            RatchetTier::Zhi => Some("StarCompass-Zhi".as_bytes()),
            RatchetTier::Ren => Some("StarCompass-Ren".as_bytes()),
            RatchetTier::Tian => Some("StarCompass-Tian".as_bytes()),
        }
    }

    /// Capacity of the skipped-key buffer.
    pub fn max_skip(&self) -> (n: usize)
        ensures
            n == max_skip_spec(*self),
    {
        match self {
            RatchetTier::Kan => 100,
            RatchetTier::Zhi => 500,
            RatchetTier::Ren => 1000,
            RatchetTier::Tian => 5000,
        }
    }
}

fn label_of(tier: RatchetTier) -> (l: &'static [u8])
    ensures
        l@ == tier_label(tier),
{
    match tier.info_label() {
        Some(l) => l,
        None => "StarCompass".as_bytes(),
    }
}

// ============================================================================
// Saved state
// ============================================================================

/// Session state as text fields (keys as lowercase hex), for saving a
/// session between runs.
#[derive(Debug, Clone)]
pub struct RatchetState {
    pub root_key: String,
    pub send_chain_key: String,
    pub send_message_number: usize,
    pub send_prev_chain_length: usize,
    pub recv_chain_key: String,
    pub recv_message_number: usize,
    pub dh_private_x25519: String,
    pub dh_public_x25519: String,
    pub dh_private_kyber: String,
    pub dh_public_kyber: String,
    pub remote_dh_public: Option<String>,
    pub skipped_keys: Vec<(usize, String)>,
    /// 0 = Kan, 1 = Zhi, 2 = Ren, 3 = Tian.
    pub tier: u8,
    pub dh_ratcheted: bool,
    pub salt: Option<String>,
}

pub open spec fn tier_number(t: RatchetTier) -> u8 {
    match t {
        RatchetTier::Kan => 0,
        RatchetTier::Zhi => 1,
        RatchetTier::Ren => 2,
        RatchetTier::Tian => 3,
    }
}

pub open spec fn tier_of_number(n: u8) -> Option<RatchetTier> {
    if n == 0 {
        Some(RatchetTier::Kan)
    } else if n == 1 {
        Some(RatchetTier::Zhi)
    } else if n == 2 {
        Some(RatchetTier::Ren)
    } else if n == 3 {
        Some(RatchetTier::Tian)
    } else {
        None
    }
}

/// Decoded hex of an optional text field.
pub open spec fn opt_hex_field(h: Option<String>) -> Option<Seq<u8>> {
    match h {
        Some(s) => hex_field(s@),
        None => None,
    }
}

/// Stored salt bytes copied into a 256-byte block (cut at 256, zero-filled).
pub open spec fn salt_block(b: Seq<u8>) -> Seq<u8> {
    Seq::new(256, |i: int| if i < b.len() { b[i] } else { 0u8 })
}

/// Skip buffer rebuilt by storing, in order, each saved key that decodes.
pub open spec fn restored_skips(items: Seq<(usize, String)>, cap: usize) -> Map<usize, Seq<u8>>
    decreases items.len(),
{
    if items.len() == 0 {
        Map::empty()
    } else {
        let m = restored_skips(items.drop_last(), cap);
        match hex_field(items.last().1@) {
            Some(k) => skip_store(m, cap, items.last().0, k),
            None => m,
        }
    }
}

/// The hex text decodes to `n` bytes or does not decode.
fn hex_len_ok(s: &String, n: usize) -> (ok: bool)
    ensures
        ok == (hex_field(s@) matches Some(v) ==> v.len() == n),
{
    match hex_decode_text(s.as_str()) {
        Some(v) => v.len() == n,
        None => true,
    }
}

impl RatchetState {
    /// The tier number is known and every key field decodes.
    pub open spec fn restorable(&self) -> bool {
        &&& tier_of_number(self.tier) is Some
        &&& hex_field(self.root_key@) is Some
        &&& hex_field(self.send_chain_key@) is Some
        &&& hex_field(self.recv_chain_key@) is Some
        &&& hex_field(self.dh_private_x25519@) is Some
        &&& hex_field(self.dh_public_x25519@) is Some
        &&& hex_field(self.dh_private_kyber@) is Some
        &&& hex_field(self.dh_public_kyber@) is Some
    }

    /// Every field that decodes has the length of the key it stores.
    pub open spec fn lengths_fit(&self) -> bool {
        &&& (hex_field(self.root_key@) matches Some(v) ==> v.len() == 32)
        &&& (hex_field(self.send_chain_key@) matches Some(v) ==> v.len() == 32)
        &&& (hex_field(self.recv_chain_key@) matches Some(v) ==> v.len() == 32)
        &&& (hex_field(self.dh_private_x25519@) matches Some(v) ==> v.len() == 32)
        &&& (hex_field(self.dh_public_x25519@) matches Some(v) ==> v.len() == 32)
        &&& (hex_field(self.dh_private_kyber@) matches Some(v) ==> v.len() == 1632)
        &&& (hex_field(self.dh_public_kyber@) matches Some(v) ==> v.len() == 800)
        &&& (opt_hex_field(self.remote_dh_public) matches Some(v) ==> v.len() == 32)
        &&& forall|i: int|
            0 <= i < self.skipped_keys@.len() ==> (hex_field(
                (#[trigger] self.skipped_keys@[i]).1@,
            ) matches Some(v) ==> v.len() == 32)
    }

    /// `s` is the session this state restores to.
    pub open spec fn restored_as(&self, s: &DoubleRatchetSession) -> bool {
        &&& s.wf()
        &&& tier_of_number(self.tier) == Some(s.tier_view())
        &&& hex_field(self.root_key@) == Some(s.root_view())
        &&& hex_field(self.send_chain_key@) == Some(s.sending_view().0)
        &&& s.sending_view().1 == self.send_message_number
        &&& s.sending_view().2 == self.send_prev_chain_length
        &&& hex_field(self.recv_chain_key@) == Some(s.receiving_view().0)
        &&& s.receiving_view().1 == self.recv_message_number
        &&& s.receiving_view().2 == 0
        &&& hex_field(self.dh_private_x25519@) == Some(s.dh_secret_view())
        &&& hex_field(self.dh_public_x25519@) == Some(s.dh_public_view())
        &&& hex_field(self.dh_private_kyber@) == Some(s.dh_kyber_secret_view())
        &&& hex_field(self.dh_public_kyber@) == Some(s.dh_kyber_public_view())
        &&& match opt_hex_field(self.remote_dh_public) {
            Some(v) => s.remote_view() matches Some(a) && a@ == v,
            None => s.remote_view() is None,
        }
        &&& s.skip_capacity() == max_skip_spec(s.tier_view())
        &&& s.skipped_view() == restored_skips(self.skipped_keys@, s.skip_capacity())
        &&& match opt_hex_field(self.salt) {
            Some(b) => s.salt_view() matches Some(sl) && sl.planet_bits@ == salt_block(
                b,
            ).subrange(0, 21) && sl.event_hash@ == salt_block(b).subrange(21, 53)
                && sl.personal_hex@ == salt_block(b).subrange(53, 117),
            None => s.salt_view() is None,
        }
        &&& s.ratcheted_view() == self.dh_ratcheted
    }

    /// The saved form of session `s`: keys as hex, skipped keys in increasing
    /// message order.
    pub open spec fn saved_from(&self, s: &DoubleRatchetSession) -> bool {
        &&& self.root_key@ == hex_encode_chars(s.root_view())
        &&& self.send_chain_key@ == hex_encode_chars(s.sending_view().0)
        &&& self.send_message_number == s.sending_view().1
        &&& self.send_prev_chain_length == s.sending_view().2
        &&& self.recv_chain_key@ == hex_encode_chars(s.receiving_view().0)
        &&& self.recv_message_number == s.receiving_view().1
        &&& self.dh_private_x25519@ == hex_encode_chars(s.dh_secret_view())
        &&& self.dh_public_x25519@ == hex_encode_chars(s.dh_public_view())
        &&& self.dh_private_kyber@ == hex_encode_chars(s.dh_kyber_secret_view())
        &&& self.dh_public_kyber@ == hex_encode_chars(s.dh_kyber_public_view())
        &&& match s.remote_view() {
            Some(pk) => self.remote_dh_public matches Some(h) && h@ == hex_encode_chars(pk@),
            None => self.remote_dh_public is None,
        }
        &&& self.skipped_keys@.len() == s.skipped_view().dom().len()
        &&& (forall|i: int|
            0 <= i < self.skipped_keys@.len() ==> s.skipped_view().contains_key(
                (#[trigger] self.skipped_keys@[i]).0,
            ) && self.skipped_keys@[i].1@ == hex_encode_chars(
                s.skipped_view()[self.skipped_keys@[i].0],
            ))
        &&& (forall|i: int, j: int|
            0 <= i < j < self.skipped_keys@.len() ==> self.skipped_keys@[i].0
                < self.skipped_keys@[j].0)
        &&& (forall|k: usize|
            s.skipped_view().contains_key(k) ==> exists|i: int|
                0 <= i < self.skipped_keys@.len() && (#[trigger] self.skipped_keys@[i]).0 == k)
        &&& self.tier == tier_number(s.tier_view())
        &&& self.dh_ratcheted == s.ratcheted_view()
        &&& match s.salt_view() {
            Some(sl) => self.salt matches Some(h) && h@ == hex_encode_chars(salt_bytes(sl)),
            None => self.salt is None,
        }
    }

    /// Whether `to_session` may be called: every field that decodes has the
    /// length of the key it stores.
    pub fn lengths_ok(&self) -> (ok: bool)
        ensures
            ok == self.lengths_fit(),
    {
        let fixed = hex_len_ok(&self.root_key, 32) && hex_len_ok(&self.send_chain_key, 32)
            && hex_len_ok(&self.recv_chain_key, 32) && hex_len_ok(&self.dh_private_x25519, 32)
            && hex_len_ok(&self.dh_public_x25519, 32) && hex_len_ok(&self.dh_private_kyber, 1632)
            && hex_len_ok(&self.dh_public_kyber, 800);
        let remote = match &self.remote_dh_public {
            Some(h) => hex_len_ok(h, 32),
            None => true,
        };
        if !(fixed && remote) {
            return false;
        }
        for i in 0..self.skipped_keys.len()
            invariant
                forall|j: int|
                    0 <= j < i ==> (hex_field((#[trigger] self.skipped_keys@[j]).1@) matches Some(
                        v,
                    ) ==> v.len() == 32),
        {
            if !hex_len_ok(&self.skipped_keys[i].1, 32) {
                return false;
            }
        }
        true
    }

    /// Saves a session.
    pub fn from_session(s: &DoubleRatchetSession) -> (st: RatchetState)
        ensures
            st.saved_from(s),
    {
        let dh = s.dh_key_pair.public_key();
        let tier: u8 = match s.tier {
            RatchetTier::Kan => 0,
            RatchetTier::Zhi => 1,
            RatchetTier::Ren => 2,
            RatchetTier::Tian => 3,
        };
        let remote_dh_public = match s.remote_dh_public {
            Some(pk) => Some(hex_encode(&pk)),
            None => None,
        };
        let items = s.skip_buffer.iter();
        let mut skipped_keys: Vec<(usize, String)> = Vec::new();
        for i in 0..items.len()
            invariant
                skipped_keys@.len() == i,
                forall|j: int|
                    0 <= j < i ==> (#[trigger] skipped_keys@[j]).0 == items@[j].0
                        && skipped_keys@[j].1@ == hex_encode_chars(items@[j].1@),
        {
            let item = &items[i];
            skipped_keys.push((item.0, hex_encode(item.1.as_bytes())));
        }
        assert forall|k: usize| s.skipped_view().contains_key(k) implies exists|i: int|
            0 <= i < skipped_keys@.len() && (#[trigger] skipped_keys@[i]).0 == k by {
            let i = choose|i: int| 0 <= i < items@.len() && (#[trigger] items@[i]).0 == k;
            assert(skipped_keys@[i].0 == k);
        }
        let salt = match &s.salt {
            Some(sl) => {
                let b = sl.as_bytes();
                Some(hex_encode(b.as_slice()))
            },
            None => None,
        };
        let ghost saved = skipped_keys@;
        let st = RatchetState {
            root_key: hex_encode(s.root_key.as_bytes()),
            send_chain_key: hex_encode(&s.sending.chain_key),
            send_message_number: s.sending.message_number,
            send_prev_chain_length: s.sending.previous_chain_length,
            recv_chain_key: hex_encode(&s.receiving.chain_key),
            recv_message_number: s.receiving.message_number,
            dh_private_x25519: hex_encode(&s.dh_key_pair.x25519_secret()),
            dh_public_x25519: hex_encode(&dh.x25519),
            dh_private_kyber: hex_encode(&s.dh_key_pair.kyber_secret()),
            dh_public_kyber: hex_encode(&dh.kyber),
            remote_dh_public,
            skipped_keys,
            tier,
            dh_ratcheted: s.dh_ratcheted,
            salt,
        };
        assert(st.skipped_keys@ == saved);
        st
    }

    /// Restores a session: `None` for an unknown tier number or a key field
    /// that is not hex.  A remote key, salt or skipped key that is not hex
    /// is dropped.
    pub fn to_session(&self) -> (r: Option<DoubleRatchetSession>)
        requires
            self.lengths_fit(),
        ensures
            r is Some <==> self.restorable(),
            r matches Some(s) ==> self.restored_as(&s),
    {
        let ratchet_tier = match self.tier {
            0 => RatchetTier::Kan,
            1 => RatchetTier::Zhi,
            2 => RatchetTier::Ren,
            3 => RatchetTier::Tian,
            _ => {
                return None;
            },
        };
        let root_key = match hex_decode_text(self.root_key.as_str()) {
            Some(v) => v,
            None => {
                return None;
            },
        };
        let send_chain_key = match hex_decode_text(self.send_chain_key.as_str()) {
            Some(v) => v,
            None => {
                return None;
            },
        };
        let recv_chain_key = match hex_decode_text(self.recv_chain_key.as_str()) {
            Some(v) => v,
            None => {
                return None;
            },
        };
        let dh_xs = match hex_decode_text(self.dh_private_x25519.as_str()) {
            Some(v) => v,
            None => {
                return None;
            },
        };
        let dh_xp = match hex_decode_text(self.dh_public_x25519.as_str()) {
            Some(v) => v,
            None => {
                return None;
            },
        };
        let dh_ks = match hex_decode_text(self.dh_private_kyber.as_str()) {
            Some(v) => v,
            None => {
                return None;
            },
        };
        let dh_kp_bytes = match hex_decode_text(self.dh_public_kyber.as_str()) {
            Some(v) => v,
            None => {
                return None;
            },
        };
        let remote_pk: Option<[u8; 32]> = match &self.remote_dh_public {
            Some(h) => match hex_decode_text(h.as_str()) {
                Some(v) => Some(to_array32(v.as_slice())),
                None => None,
            },
            None => None,
        };
        let rk: [u8; 32] = to_array32(root_key.as_slice());
        let sck: [u8; 32] = to_array32(send_chain_key.as_slice());
        let rck: [u8; 32] = to_array32(recv_chain_key.as_slice());
        let dxs: [u8; 32] = to_array32(dh_xs.as_slice());
        let dxp: [u8; 32] = to_array32(dh_xp.as_slice());
        let dks: [u8; 1632] = to_array(&dh_ks);
        let dkp: [u8; 800] = to_array(&dh_kp_bytes);
        let dh_kp = HybridKeyPair::restore(&dxs, &dxp, &dks, &dkp);
        let mut sending = ChainState::new(sck, ratchet_tier);
        sending.message_number = self.send_message_number;
        sending.previous_chain_length = self.send_prev_chain_length;
        let mut receiving = ChainState::new(rck, ratchet_tier);
        receiving.message_number = self.recv_message_number;
        let mut skip_buf = SkipBuffer::new(ratchet_tier.max_skip());
        for i in 0..self.skipped_keys.len()
            invariant
                self.lengths_fit(),
                skip_buf.capacity() == max_skip_spec(ratchet_tier),
                skip_buf.entries().dom().finite(),
                skip_buf.entries().len() <= skip_buf.capacity(),
                skip_buf.entries() == restored_skips(
                    self.skipped_keys@.subrange(0, i as int),
                    max_skip_spec(ratchet_tier),
                ),
        {
            let item = &self.skipped_keys[i];
            proof {
                let pre = self.skipped_keys@.subrange(0, i as int);
                let post = self.skipped_keys@.subrange(0, i + 1);
                assert(post.drop_last() =~= pre);
                assert(post.last() == self.skipped_keys@[i as int]);
            }
            match hex_decode_text(item.1.as_str()) {
                Some(kb) => {
                    let _ = skip_buf.store(item.0, MessageKey(to_array32(kb.as_slice())));
                },
                None => {},
            }
        }
        assert(self.skipped_keys@.subrange(0, self.skipped_keys@.len() as int) =~= self.skipped_keys@);
        let salt = match &self.salt {
            Some(h) => match hex_decode_text(h.as_str()) {
                Some(bytes) => {
                    let mut arr = [0u8; 256];
                    let n: usize = if bytes.len() < 256 {
                        bytes.len()
                    } else {
                        256
                    };
                    for i in 0..n
                        invariant
                            n <= bytes@.len(),
                            n <= 256,
                            forall|k: int| 0 <= k < i ==> arr@[k] == bytes@[k],
                            forall|k: int| n <= k < 256 ==> arr@[k] == 0u8,
                    {
                        arr[i] = bytes[i];
                    }
                    assert(arr@ =~= salt_block(bytes@));
                    Some(ThreeCaSalt::from_bytes(&arr))
                },
                None => None,
            },
            None => None,
        };
        Some(
            DoubleRatchetSession {
                root_key: RootKey(rk),
                sending,
                receiving,
                dh_key_pair: dh_kp,
                remote_dh_public: remote_pk,
                skip_buffer: skip_buf,
                tier: ratchet_tier,
                salt,
                dh_ratcheted: self.dh_ratcheted,
            },
        )
    }
}

/// Saved keys of the message numbers `items[0..j]`.
spec fn saved_prefix(items: Seq<(usize, String)>, m: Map<usize, Seq<u8>>, j: int) -> Map<
    usize,
    Seq<u8>,
> {
    Map::new(|k: usize| exists|i: int| 0 <= i < j && (#[trigger] items[i]).0 == k, |k: usize| m[k])
}

proof fn lemma_restored_prefix(items: Seq<(usize, String)>, m: Map<usize, Seq<u8>>, cap: usize, j: int)
    requires
        0 <= j <= items.len(),
        items.len() <= cap,
        forall|i: int|
            0 <= i < items.len() ==> m.contains_key((#[trigger] items[i]).0) && hex_field(
                items[i].1@,
            ) == Some(m[items[i].0]),
        forall|a: int, b: int| 0 <= a < b < items.len() ==> items[a].0 < items[b].0,
    ensures
        restored_skips(items.take(j), cap) == saved_prefix(items, m, j),
        saved_prefix(items, m, j).dom().finite(),
        saved_prefix(items, m, j).len() == j,
    decreases j,
{
    if j == 0 {
        assert(saved_prefix(items, m, 0) =~= Map::<usize, Seq<u8>>::empty());
        assert(items.take(0) =~= Seq::<(usize, String)>::empty());
    } else {
        lemma_restored_prefix(items, m, cap, j - 1);
        let t = items.take(j);
        assert(t.drop_last() =~= items.take(j - 1));
        assert(t.last() == items[j - 1]);
        let pm = saved_prefix(items, m, j - 1);
        let key = items[j - 1].0;
        assert(!pm.contains_key(key)) by {
            if pm.contains_key(key) {
                let i = choose|i: int| 0 <= i < j - 1 && (#[trigger] items[i]).0 == key;
                assert(items[i].0 < items[j - 1].0);
            }
        }
        assert(saved_prefix(items, m, j) =~= pm.insert(key, m[key])) by {
            assert forall|k: usize| saved_prefix(items, m, j).contains_key(k) implies pm.insert(
                key,
                m[key],
            ).contains_key(k) by {
                let i = choose|i: int| 0 <= i < j && (#[trigger] items[i]).0 == k;
                if i < j - 1 {
                    assert(pm.contains_key(k));
                }
            }
            assert forall|k: usize| pm.insert(key, m[key]).contains_key(k) implies saved_prefix(
                items,
                m,
                j,
            ).contains_key(k) by {
                if k != key {
                    let i = choose|i: int| 0 <= i < j - 1 && (#[trigger] items[i]).0 == k;
                    assert(0 <= i < j && items[i].0 == k);
                } else {
                    assert(items[j - 1].0 == k);
                }
            }
        }
        assert(pm.insert(key, m[key]).dom() =~= pm.dom().insert(key));
    }
}

proof fn lemma_restored_skips(items: Seq<(usize, String)>, m: Map<usize, Seq<u8>>, cap: usize)
    requires
        m.dom().finite(),
        items.len() == m.dom().len(),
        m.len() <= cap,
        forall|i: int|
            0 <= i < items.len() ==> m.contains_key((#[trigger] items[i]).0) && hex_field(
                items[i].1@,
            ) == Some(m[items[i].0]),
        forall|a: int, b: int| 0 <= a < b < items.len() ==> items[a].0 < items[b].0,
        forall|k: usize| m.contains_key(k) ==> exists|i: int| 0 <= i < items.len() && (#[trigger] items[i]).0 == k,
    ensures
        restored_skips(items, cap) == m,
{
    lemma_restored_prefix(items, m, cap, items.len() as int);
    assert(items.take(items.len() as int) =~= items);
    assert(saved_prefix(items, m, items.len() as int) =~= m);
}

/// Saving a session and restoring what was saved gives back the same
/// session state: keys, counters, DH keys, peer key, skipped keys, tier,
/// salt and ratchet flag.
pub proof fn lemma_save_restore(s: DoubleRatchetSession, st: RatchetState, r: DoubleRatchetSession)
    requires
        s.wf(),
        st.saved_from(&s),
    ensures
        st.lengths_fit(),
        st.restorable(),
        st.restored_as(&r) ==> r.same_state(&s),
{
    s.dh_key_pair.lemma_view_lengths();
    lemma_hex_field_roundtrip(s.root_view());
    lemma_hex_field_roundtrip(s.sending_view().0);
    lemma_hex_field_roundtrip(s.receiving_view().0);
    lemma_hex_field_roundtrip(s.dh_secret_view());
    lemma_hex_field_roundtrip(s.dh_public_view());
    lemma_hex_field_roundtrip(s.dh_kyber_secret_view());
    lemma_hex_field_roundtrip(s.dh_kyber_public_view());
    if let Some(pk) = s.remote_view() {
        lemma_hex_field_roundtrip(pk@);
    }
    if let Some(sl) = s.salt_view() {
        lemma_hex_field_roundtrip(salt_bytes(sl));
    }
    let m = s.skipped_view();
    let items = st.skipped_keys@;
    assert forall|i: int| 0 <= i < items.len() implies m.contains_key((#[trigger] items[i]).0)
        && hex_field(items[i].1@) == Some(m[items[i].0]) by {
        lemma_hex_field_roundtrip(m[items[i].0]);
    }
    assert forall|i: int| 0 <= i < items.len() implies (hex_field((#[trigger] items[i]).1@) matches Some(
        v,
    ) ==> v.len() == 32) by {
        assert(m[items[i].0] == s.skip_buffer.skipped_keys@[items[i].0]@);
    }
    if st.restored_as(&r) {
        lemma_restored_skips(items, m, r.skip_capacity());
        assert(r.tier_view() == s.tier_view());
        if let Some(pk) = s.remote_view() {
            let a = r.remote_view()->0;
            assert(a =~= pk);
        }
        if let Some(sl) = s.salt_view() {
            let b = salt_bytes(sl);
            assert(salt_block(b).subrange(0, 117) =~= b);
            crate::astro::planets::lemma_salt_bytes_roundtrip(sl, salt_block(b));
            let rs = r.salt_view()->0;
            assert(rs.planet_bits =~= sl.planet_bits);
            assert(rs.event_hash =~= sl.event_hash);
            assert(rs.personal_hex =~= sl.personal_hex);
        }
    }
}

// ============================================================================
// Skipped message keys
// ============================================================================

/// Bounded map from message number to skipped message key.
pub struct SkipBuffer {
    skipped_keys: BTreeMap<usize, MessageKey>,
    max_skip: usize,
}

/// Storing into a skip buffer view: refused (unchanged) when full.
pub open spec fn skip_store(m: Map<usize, Seq<u8>>, cap: usize, n: usize, key: Seq<u8>) -> Map<
    usize,
    Seq<u8>,
> {
    if m.len() >= cap {
        m
    } else {
        m.insert(n, key)
    }
}

impl SkipBuffer {
    pub closed spec fn entries(&self) -> Map<usize, Seq<u8>> {
        self.skipped_keys@.map_values(|k: MessageKey| k@)
    }

    pub closed spec fn capacity(&self) -> usize {
        self.max_skip
    }

    pub fn new(max_skip: usize) -> (b: SkipBuffer)
        ensures
            b.entries() == Map::<usize, Seq<u8>>::empty(),
            b.capacity() == max_skip,
    {
        let b = SkipBuffer { skipped_keys: BTreeMap::new(), max_skip };
        assert(b.entries() =~= Map::<usize, Seq<u8>>::empty());
        b
    }

    /// Stores a key unless the buffer is full; reports whether it stored.
    pub fn store(&mut self, msg_num: usize, key: MessageKey) -> (stored: bool)
        ensures
            stored == (old(self).entries().len() < old(self).capacity()),
            final(self).entries() == skip_store(old(self).entries(), old(self).capacity(), msg_num, key@),
            final(self).capacity() == old(self).capacity(),
            final(self).entries().dom().finite(),
            old(self).entries().len() <= old(self).capacity() ==> final(self).entries().len()
                <= final(self).capacity(),
    {
        proof {
            lemma_entries_len(self);
        }
        if self.skipped_keys.len() >= self.max_skip {
            return false;
        }
        self.skipped_keys.insert(msg_num, key);
        assert(self.entries() =~= old(self).entries().insert(msg_num, key@));
        proof {
            lemma_entries_len(self);
            assert(self.entries().dom() =~= old(self).entries().dom().insert(msg_num));
        }
        true
    }

    /// The key stored for a message number, if any.
    pub fn get(&self, msg_num: usize) -> (k: Option<&MessageKey>)
        ensures
            match k {
                Some(key) => self.entries().contains_key(msg_num) && self.entries()[msg_num]
                    == key@,
                None => !self.entries().contains_key(msg_num),
            },
    {
        self.skipped_keys.get(&msg_num)
    }

    /// All stored (message number, key) pairs in increasing message order.
    pub fn iter(&self) -> (items: Vec<(usize, MessageKey)>)
        ensures
            items@.len() == self.entries().dom().len(),
            forall|i: int|
                0 <= i < items@.len() ==> self.entries().contains_key(#[trigger] items@[i].0)
                    && self.entries()[items@[i].0] == items@[i].1@,
            forall|i: int, j: int| 0 <= i < j < items@.len() ==> items@[i].0 < items@[j].0,
            forall|k: usize|
                self.entries().contains_key(k) ==> exists|i: int|
                    0 <= i < items@.len() && (#[trigger] items@[i]).0 == k,
    {
        let mut items: Vec<(usize, MessageKey)> = Vec::new();
        let ghost m = self.skipped_keys@;
        for kv in it: self.skipped_keys.iter()
            invariant
                m == self.skipped_keys@,
                it.seq().len() == m.dom().len(),
                forall|i: int|
                    0 <= i < it.seq().len() ==> m.contains_key(*(#[trigger] it.seq()[i]).0) && m[*it.seq()[i].0]
                        == *it.seq()[i].1,
                vstd::std_specs::btree::increasing_seq(
                    it.seq().map_values(|kv: (&usize, &MessageKey)| *kv.0),
                ),
                items@.len() == it.index(),
                forall|i: int|
                    0 <= i < it.index() ==> (#[trigger] items@[i]).0 == *it.seq()[i].0 && items@[i].1@
                        == (*it.seq()[i].1)@,
                forall|i: int, j: int|
                    0 <= i < j < it.index() ==> items@[i].0 < items@[j].0,
                forall|k: usize|
                    #[trigger] m.contains_key(k) ==> (exists|i: int|
                        0 <= i < items@.len() && (#[trigger] items@[i]).0 == k) || (exists|i: int|
                        it.index() <= i < it.seq().len() && *(#[trigger] it.seq()[i]).0 == k),
        {
            proof {
                let ks = it.seq().map_values(|kv: (&usize, &MessageKey)| *kv.0);
                crate::crypto::key_order::lemma_increasing_usize(ks);
                assert(kv == it.seq()[it.index()]);
                assert forall|i: int| 0 <= i < it.index() implies items@[i].0 < *kv.0 by {
                    assert(ks[i] == items@[i].0);
                    assert(ks[it.index()] == *kv.0);
                }
            }
            let ghost before = items@;
            items.push((*kv.0, kv.1.copy()));
            proof {
                assert forall|k: usize| #[trigger] m.contains_key(k) implies (exists|i: int|
                    0 <= i < items@.len() && (#[trigger] items@[i]).0 == k) || (exists|i: int|
                    it.index() + 1 <= i < it.seq().len() && *(#[trigger] it.seq()[i]).0 == k) by {
                    if exists|i: int| 0 <= i < before.len() && (#[trigger] before[i]).0 == k {
                        let i = choose|i: int| 0 <= i < before.len() && (#[trigger] before[i]).0 == k;
                        assert(items@[i] == before[i]);
                    } else {
                        let i = choose|i: int|
                            it.index() <= i < it.seq().len() && *(#[trigger] it.seq()[i]).0 == k;
                        if i == it.index() {
                            assert(items@[before.len() as int].0 == k);
                        }
                    }
                }
            }
        }
        proof {
            lemma_entries_len(self);
            assert forall|k: usize| self.entries().contains_key(k) implies exists|i: int|
                0 <= i < items@.len() && (#[trigger] items@[i]).0 == k by {
                assert(m.contains_key(k));
            }
        }
        items
    }
}

proof fn lemma_entries_len(b: &SkipBuffer)
    ensures
        b.entries().len() == b.skipped_keys@.len(),
        b.skipped_keys@.dom().finite(),
        b.entries().dom().finite(),
{
    assert(b.entries().dom() =~= b.skipped_keys@.dom());
}


// ============================================================================
// Key schedule
// ============================================================================

/// `n` as the 8 little-endian bytes of `usize::to_le_bytes` on 64-bit targets.
pub open spec fn usize_le(n: usize) -> Seq<u8> {
    spec_u64_to_le_bytes(n as u64)
}

/// Salt bytes of a session: the three-source salt, or 40 zero bytes.
pub open spec fn salt_data(salt: Option<ThreeCaSalt>) -> Seq<u8> {
    match salt {
        Some(s) => salt_bytes(s),
        None => Seq::new(40, |i: int| 0u8),
    }
}

/// An initial chain key: HKDF(salt, secret) expanded with tier label || label.
pub open spec fn chain_from(secret: Seq<u8>, label: Seq<u8>, t: RatchetTier, salt: Seq<u8>) -> Seq<u8> {
    hkdf_sha256_output(Some(salt), secret, tier_label(t) + label, 32)
}

/// Message key number `n` of chain key `ck`.
pub open spec fn message_key_at(ck: Seq<u8>, n: usize, t: RatchetTier, salt: Seq<u8>) -> Seq<u8> {
    hkdf_sha256_output(Some(salt), ck, tier_label(t) + usize_le(n), 32)
}

/// The chain key that follows `ck`.
pub open spec fn chain_step(ck: Seq<u8>, t: RatchetTier, salt: Seq<u8>) -> Seq<u8> {
    hkdf_sha256_output(Some(salt), ck, tier_label(t) + "ratchet-step".spec_bytes(), 32)
}

/// `ck` advanced `k` steps.
pub open spec fn chain_iter(ck: Seq<u8>, t: RatchetTier, salt: Seq<u8>, k: nat) -> Seq<u8>
    decreases k,
{
    if k == 0 {
        ck
    } else {
        chain_step(chain_iter(ck, t, salt, (k - 1) as nat), t, salt)
    }
}

/// Nonce of message `n`, expanded from chain key `ck`.
pub open spec fn nonce_at(ck: Seq<u8>, n: usize, t: RatchetTier, salt: Seq<u8>) -> Seq<u8> {
    hkdf_sha256_output(Some(salt), ck, tier_label(t) + "nonce".spec_bytes() + usize_le(n), 12)
}

/// Wire form of a header: public key || message number || previous chain
/// length (the counts truncated to 32 bits, little-endian).
pub open spec fn header_bytes(h: RatchetHeader) -> Seq<u8> {
    h.public_key@ + spec_u32_to_le_bytes(h.message_number as u32) + spec_u32_to_le_bytes(
        h.previous_chain_length as u32,
    )
}

/// What a sender seals for message number `n` of chain key `ck`.
pub open spec fn sealed_message(
    ck: Seq<u8>,
    n: usize,
    t: RatchetTier,
    salt: Seq<u8>,
    aad: Seq<u8>,
    plaintext: Seq<u8>,
) -> Seq<u8> {
    aes256gcm_seal_output(
        message_key_at(ck, n, t, salt),
        nonce_at(chain_step(ck, t, salt), n, t, salt),
        aad,
        plaintext,
    )
}

/// What a receiver opens at message number `n` of chain key `ck`.
pub open spec fn opened_message(
    ck: Seq<u8>,
    n: usize,
    t: RatchetTier,
    salt: Seq<u8>,
    aad: Seq<u8>,
    ciphertext: Seq<u8>,
) -> Option<Seq<u8>> {
    aead_open(
        message_key_at(ck, n, t, salt),
        nonce_at(chain_step(ck, t, salt), n, t, salt),
        aad,
        ciphertext,
    )
}

// ============================================================================
// Headers
// ============================================================================

#[derive(Clone, PartialEq, Eq)]
pub struct RatchetHeader {
    pub public_key: [u8; 32],
    pub message_number: usize,
    pub previous_chain_length: usize,
}

impl RatchetHeader {
    pub fn new(public_key: [u8; 32], message_number: usize, previous_chain_length: usize) -> (h:
        RatchetHeader)
        ensures
            h == (RatchetHeader { public_key, message_number, previous_chain_length }),
    {
        RatchetHeader { public_key, message_number, previous_chain_length }
    }

    /// 40 bytes: public key, then both counts as 32-bit little-endian.
    pub fn serialize(&self) -> (buf: Vec<u8>)
        ensures
            buf@ == header_bytes(*self),
            buf@.len() == 40,
    {
        let mut buf: Vec<u8> = Vec::new();
        append_bytes(&mut buf, &self.public_key);
        let n = u32_to_le_bytes(self.message_number as u32);
        append_bytes(&mut buf, n.as_slice());
        let p = u32_to_le_bytes(self.previous_chain_length as u32);
        append_bytes(&mut buf, p.as_slice());
        buf
    }

    /// Parses the first 40 bytes; `None` when fewer are given.
    pub fn deserialize(data: &[u8]) -> (h: Option<RatchetHeader>)
        ensures
            data@.len() < 40 ==> h is None,
            data@.len() >= 40 ==> h == Some(
                RatchetHeader {
                    public_key: h->0.public_key,
                    message_number: spec_u32_from_le_bytes(data@.subrange(32, 36)) as usize,
                    previous_chain_length: spec_u32_from_le_bytes(data@.subrange(36, 40)) as usize,
                },
            ) && h->0.public_key@ == data@.subrange(0, 32),
    {
        if data.len() < 40 {
            return None;
        }
        let pk = to_array32(vstd::slice::slice_subrange(data, 0, 32));
        let msg_num = u32_from_le_bytes(vstd::slice::slice_subrange(data, 32, 36)) as usize;
        let prev_len = u32_from_le_bytes(vstd::slice::slice_subrange(data, 36, 40)) as usize;
        Some(Self::new(pk, msg_num, prev_len))
    }
}

/// Parsing a serialized header gives the header back when both counts fit
/// in 32 bits.
pub proof fn lemma_header_roundtrip(h: RatchetHeader)
    requires
        h.message_number <= u32::MAX,
        h.previous_chain_length <= u32::MAX,
    ensures
        header_bytes(h).len() == 40,
        header_bytes(h).subrange(0, 32) == h.public_key@,
        spec_u32_from_le_bytes(header_bytes(h).subrange(32, 36)) as usize == h.message_number,
        spec_u32_from_le_bytes(header_bytes(h).subrange(36, 40)) as usize
            == h.previous_chain_length,
{
    vstd::bytes::lemma_auto_spec_u32_to_from_le_bytes();
    let b = header_bytes(h);
    let n = spec_u32_to_le_bytes(h.message_number as u32);
    let p = spec_u32_to_le_bytes(h.previous_chain_length as u32);
    assert(b.subrange(0, 32) =~= h.public_key@);
    assert(b.subrange(32, 36) =~= n);
    assert(b.subrange(36, 40) =~= p);
}

// ============================================================================
// Chains
// ============================================================================

#[derive(Clone)]
struct ChainState {
    chain_key: [u8; 32],
    message_number: usize,
    previous_chain_length: usize,
    tier: RatchetTier,
}

impl ChainState {
    spec fn view3(&self) -> (Seq<u8>, usize, usize) {
        (self.chain_key@, self.message_number, self.previous_chain_length)
    }

    fn new(chain_key: [u8; 32], tier: RatchetTier) -> (c: ChainState)
        ensures
            c.view3() == (chain_key@, 0usize, 0usize),
            c.tier == tier,
    {
        ChainState { chain_key, message_number: 0, previous_chain_length: 0, tier }
    }

    /// Message key at the current number; then the chain steps forward.
    fn derive_message_key(&mut self, salt: &[u8]) -> (k: MessageKey)
        requires
            old(self).message_number < usize::MAX,
        ensures
            k@ == message_key_at(old(self).chain_key@, old(self).message_number, old(self).tier, salt@),
            final(self).chain_key@ == chain_step(old(self).chain_key@, old(self).tier, salt@),
            final(self).message_number == old(self).message_number + 1,
            final(self).previous_chain_length == old(self).previous_chain_length,
            final(self).tier == old(self).tier,
    {
        let label = label_of(self.tier);
        let mut msg_info: Vec<u8> = Vec::new();
        append_bytes(&mut msg_info, label);
        let n = u64_to_le_bytes(self.message_number as u64);
        append_bytes(&mut msg_info, n.as_slice());
        let msg_key = hkdf_sha256(Some(salt), &self.chain_key, msg_info.as_slice(), 32);
        let mut step_info: Vec<u8> = Vec::new();
        append_bytes(&mut step_info, label);
        append_bytes(&mut step_info, "ratchet-step".as_bytes());
        let step = hkdf_sha256(Some(salt), &self.chain_key, step_info.as_slice(), 32);
        self.chain_key = to_array32(step.as_slice());
        self.message_number = self.message_number + 1;
        MessageKey::from_array(to_array32(msg_key.as_slice()))
    }
}

/// Nonce of message `msg_num` from a chain key.
fn derive_nonce(chain_key: &[u8; 32], tier: RatchetTier, msg_num: usize, salt: &[u8]) -> (n: NonceData)
    ensures
        n@ == nonce_at(chain_key@, msg_num, tier, salt@),
{
    let mut info: Vec<u8> = Vec::new();
    append_bytes(&mut info, label_of(tier));
    append_bytes(&mut info, "nonce".as_bytes());
    let nb = u64_to_le_bytes(msg_num as u64);
    append_bytes(&mut info, nb.as_slice());
    let okm = hkdf_sha256(Some(salt), chain_key, info.as_slice(), 12);
    NonceData::from_array(to_array12(okm.as_slice()))
}

fn derive_chain(secret: &[u8; 32], label: &[u8], tier: RatchetTier, salt: &[u8]) -> (ck: [u8; 32])
    ensures
        ck@ == chain_from(secret@, label@, tier, salt@),
{
    let mut info: Vec<u8> = Vec::new();
    append_bytes(&mut info, label_of(tier));
    append_bytes(&mut info, label);
    let okm = hkdf_sha256(Some(salt), secret, info.as_slice(), 32);
    to_array32(okm.as_slice())
}

fn get_salt(salt: &Option<ThreeCaSalt>) -> (data: Vec<u8>)
    ensures
        data@ == salt_data(*salt),
{
    match salt {
        Some(s) => s.synthesize(),
        None => {
            let mut v: Vec<u8> = Vec::new();
            for i in 0..40
                invariant
                    v@ == Seq::new(i as nat, |k: int| 0u8),
            {
                v.push(0u8);
                assert(v@ =~= Seq::new((i + 1) as nat, |k: int| 0u8));
            }
            v
        },
    }
}


// ============================================================================
// Skipping ahead on the receiving chain
// ============================================================================

/// What `encrypt` of `plaintext` with `aad` does to session `old`, giving
/// session `new`, ciphertext `ct` and header `h`: the header carries our
/// public key and the sending counters, the ciphertext seals the plaintext
/// with the sending chain's message key, and the sending chain steps once.
pub open spec fn encrypt_effect(
    old: DoubleRatchetSession,
    new: DoubleRatchetSession,
    plaintext: Seq<u8>,
    aad: Seq<u8>,
    ct: Seq<u8>,
    h: RatchetHeader,
) -> bool {
    let snd = old.sending_view();
    let t = old.tier_view();
    let s = old.salt_bytes_view();
    &&& h.public_key@ == old.dh_public_view()
    &&& h.message_number == snd.1
    &&& h.previous_chain_length == snd.2
    &&& ct == sealed_message(snd.0, snd.1, t, s, header_bytes(h) + aad, plaintext)
    &&& ct.len() == plaintext.len() + 16
    &&& new.sending_view() == (chain_step(snd.0, t, s), (snd.1 + 1) as usize, (snd.2 + 1) as usize)
    &&& new.receiving_view() == old.receiving_view()
    &&& new.root_view() == old.root_view()
    &&& new.skipped_view() == old.skipped_view()
    &&& new.same_dh(&old)
    &&& new.same_config(&old)
}

/// What `decrypt` of `ct` under `header` with `aad` does to session `old`,
/// giving session `new` and the opened plaintext `pt`.
pub open spec fn decrypt_effect(
    old: DoubleRatchetSession,
    new: DoubleRatchetSession,
    header: RatchetHeader,
    ct: Seq<u8>,
    aad: Seq<u8>,
    pt: Option<Seq<u8>>,
) -> bool {
    let r = old.receiving_view();
    let t = old.tier_view();
    let s = old.salt_bytes_view();
    let m = old.skipped_view();
    let cap = old.skip_capacity();
    let n = header.message_number;
    let faad = header_bytes(header) + aad;
    let r1 = try_chain(r.0, r.1, r.2, n, t, s);
    let m1 = try_skips(m, cap, r.0, r.1, n, t, s);
    let o1 = try_result(r.0, r.1, n, t, s, faad, ct);
    let ikm = dh_ikm(old.root_view(), old.dh_secret_view(), header.public_key@, s);
    let rk = ratchet_key(ikm, t, "recv-ratchet".spec_bytes());
    let ratchets = !m.contains_key(n) && o1 is None && old.remote_view() is Some
        && old.remote_view() != Some(header.public_key);
    &&& if m.contains_key(n) {
        &&& pt == aead_open(m[n], nonce_at(r.0, n, t, s), faad, ct)
        &&& new.receiving_view() == r
        &&& new.skipped_view() == m
        &&& new.remote_view() == old.remote_view()
    } else if o1 is Some {
        &&& pt == o1
        &&& new.receiving_view() == r1
        &&& new.skipped_view() == m1
        &&& new.remote_view() == old.remote_view()
    } else if old.remote_view() is None {
        &&& pt is None
        &&& new.receiving_view() == r1
        &&& new.skipped_view() == m1
        &&& new.remote_view() == Some(header.public_key)
    } else if ratchets {
        &&& pt == try_result(rk, 0, n, t, s, faad, ct)
        &&& new.root_view() == ratchet_key(ikm, t, "root".spec_bytes())
        &&& new.sending_view() == (
            ratchet_key(ikm, t, "send-ratchet".spec_bytes()),
            0usize,
            0usize,
        )
        &&& new.receiving_view() == try_chain(rk, 0, 0, n, t, s)
        &&& new.skipped_view() == try_skips(m1, cap, rk, 0, n, t, s)
        &&& new.remote_view() == Some(header.public_key)
        &&& new.ratcheted_view()
        &&& new.dh_pair_wf()
    } else {
        &&& pt is None
        &&& new.receiving_view() == r1
        &&& new.skipped_view() == m1
        &&& new.remote_view() == old.remote_view()
    }
    &&& !ratchets ==> {
        &&& new.sending_view() == old.sending_view()
        &&& new.root_view() == old.root_view()
        &&& new.dh_public_view() == old.dh_public_view()
        &&& new.dh_secret_view() == old.dh_secret_view()
        &&& new.dh_pair_wf() == old.dh_pair_wf()
        &&& new.ratcheted_view() == old.ratcheted_view()
    }
    &&& forall|p: Seq<u8>|
        !m.contains_key(n) && r.1 <= n && ct.len() >= 16 && p.len()
            <= aead_max_len() && faad.len() <= aead_max_len()
            && #[trigger] sealed_message(
            chain_iter(r.0, t, s, (n - r.1) as nat),
            n,
            t,
            s,
            faad,
            p,
        ) == ct ==> pt == Some(p) && o1 == Some(p)
    &&& new.same_config(&old)
}

/// The receiving end `receiver` is in step with the sending end `sender`:
/// its receiving chain is the sender's sending chain at the same message
/// number, under the same tier and salt, and its skip buffer holds only
/// numbers behind that chain.
pub open spec fn in_step(sender: DoubleRatchetSession, receiver: DoubleRatchetSession) -> bool {
    &&& sender.sending_view().0 == receiver.receiving_view().0
    &&& sender.sending_view().1 == receiver.receiving_view().1
    &&& sender.tier_view() == receiver.tier_view()
    &&& sender.salt_bytes_view() == receiver.salt_bytes_view()
    &&& forall|k: usize| #[trigger]
        receiver.skipped_view().contains_key(k) ==> k < receiver.receiving_view().1
}

/// A sender and a receiver made from one shared secret, tier and salt (as
/// `new_sender` and `new_receiver` make them) are in step both ways.
pub proof fn lemma_fresh_pair_in_step(
    alice: DoubleRatchetSession,
    bob: DoubleRatchetSession,
    secret: Seq<u8>,
    tier: RatchetTier,
    salt: Option<ThreeCaSalt>,
)
    requires
        alice.sending_view() == (chain_from(secret, "send-chain".spec_bytes(), tier, salt_data(salt)), 0usize, 0usize),
        alice.receiving_view() == (chain_from(secret, "recv-chain".spec_bytes(), tier, salt_data(salt)), 0usize, 0usize),
        bob.receiving_view() == (chain_from(secret, "send-chain".spec_bytes(), tier, salt_data(salt)), 0usize, 0usize),
        bob.sending_view() == (chain_from(secret, "recv-chain".spec_bytes(), tier, salt_data(salt)), 0usize, 0usize),
        alice.skipped_view() == Map::<usize, Seq<u8>>::empty(),
        bob.skipped_view() == Map::<usize, Seq<u8>>::empty(),
        alice.tier_view() == tier,
        bob.tier_view() == tier,
        alice.salt_view() == salt,
        bob.salt_view() == salt,
    ensures
        in_step(alice, bob),
        in_step(bob, alice),
{
}

/// One message exchanged in step: when the sender encrypts `p` and the
/// receiver in step with it decrypts the ciphertext and header unmodified,
/// with the same associated data, the receiver gets `p` back and the two
/// stay in step; the opposite direction stays in step too.  By induction
/// this covers every interleaving of the two parties' calls in which each
/// message reaches the other side once and in order.
pub proof fn lemma_exchange_in_step(
    sender: DoubleRatchetSession,
    sender2: DoubleRatchetSession,
    receiver: DoubleRatchetSession,
    receiver2: DoubleRatchetSession,
    p: Seq<u8>,
    aad: Seq<u8>,
    ct: Seq<u8>,
    h: RatchetHeader,
    pt: Option<Seq<u8>>,
)
    requires
        in_step(sender, receiver),
        encrypt_effect(sender, sender2, p, aad, ct, h),
        decrypt_effect(receiver, receiver2, h, ct, aad, pt),
        h.message_number < usize::MAX / 2,
        p.len() <= aead_max_len(),
        aad.len() + 40 <= aead_max_len(),
    ensures
        pt == Some(p),
        in_step(sender2, receiver2),
        in_step(receiver, sender) ==> in_step(receiver2, sender2),
{
    let r = receiver.receiving_view();
    let t = receiver.tier_view();
    let s = receiver.salt_bytes_view();
    let n = h.message_number;
    let faad = header_bytes(h) + aad;
    vstd::bytes::lemma_auto_spec_u32_to_from_le_bytes();
    assert(faad.len() == 40 + aad.len());
    assert(!receiver.skipped_view().contains_key(n));
    assert(chain_iter(r.0, t, s, 0) == r.0);
    assert(sealed_message(chain_iter(r.0, t, s, (n - r.1) as nat), n, t, s, faad, p) == ct);
    lemma_in_order_step(r.0, n, r.2, t, s, receiver.skipped_view(), receiver.skip_capacity());
    assert(chain_iter(r.0, t, s, 1) == chain_step(chain_iter(r.0, t, s, 0), t, s));
    let o1 = try_result(r.0, r.1, n, t, s, faad, ct);
    assert(o1 == Some(p));
    assert(receiver2.receiving_view() == (chain_step(r.0, t, s), (n + 1) as usize, r.2));
    assert(receiver2.skipped_view() == receiver.skipped_view());
    assert(sender2.sending_view().0 == chain_step(r.0, t, s));
    assert(sender2.sending_view().1 == (n + 1) as usize);
}

/// One step of a two-party run: message `i` goes from Alice to Bob when
/// `from_alice[i]`, else from Bob to Alice; the sender encrypts it and the
/// other side decrypts the ciphertext and header unmodified.
pub open spec fn run_step(
    alices: Seq<DoubleRatchetSession>,
    bobs: Seq<DoubleRatchetSession>,
    from_alice: Seq<bool>,
    ps: Seq<Seq<u8>>,
    aads: Seq<Seq<u8>>,
    cts: Seq<Seq<u8>>,
    hs: Seq<RatchetHeader>,
    pts: Seq<Option<Seq<u8>>>,
    i: int,
) -> bool {
    &&& hs[i].message_number < usize::MAX / 2
    &&& ps[i].len() <= aead_max_len()
    &&& aads[i].len() + 40 <= aead_max_len()
    &&& if from_alice[i] {
        &&& encrypt_effect(alices[i], alices[i + 1], ps[i], aads[i], cts[i], hs[i])
        &&& decrypt_effect(bobs[i], bobs[i + 1], hs[i], cts[i], aads[i], pts[i])
    } else {
        &&& encrypt_effect(bobs[i], bobs[i + 1], ps[i], aads[i], cts[i], hs[i])
        &&& decrypt_effect(alices[i], alices[i + 1], hs[i], cts[i], aads[i], pts[i])
    }
}

/// Every interleaving of the two parties' messages, each decrypted once, in
/// send order, by the other side: starting from a pair in step both ways
/// (as `lemma_fresh_pair_in_step` gives for a fresh sender and receiver),
/// every decrypt returns the plaintext that produced its message.
pub proof fn lemma_exchange_run(
    alices: Seq<DoubleRatchetSession>,
    bobs: Seq<DoubleRatchetSession>,
    from_alice: Seq<bool>,
    ps: Seq<Seq<u8>>,
    aads: Seq<Seq<u8>>,
    cts: Seq<Seq<u8>>,
    hs: Seq<RatchetHeader>,
    pts: Seq<Option<Seq<u8>>>,
)
    requires
        alices.len() == from_alice.len() + 1,
        bobs.len() == from_alice.len() + 1,
        ps.len() == from_alice.len(),
        aads.len() == from_alice.len(),
        cts.len() == from_alice.len(),
        hs.len() == from_alice.len(),
        pts.len() == from_alice.len(),
        in_step(alices[0], bobs[0]),
        in_step(bobs[0], alices[0]),
        forall|i: int|
            0 <= i < from_alice.len() ==> #[trigger] run_step(alices, bobs, from_alice, ps, aads, cts, hs, pts, i),
    ensures
        forall|i: int| 0 <= i < from_alice.len() ==> #[trigger] pts[i] == Some(ps[i]),
{
    assert forall|i: int| 0 <= i < from_alice.len() implies #[trigger] pts[i] == Some(ps[i]) by {
        lemma_run_prefix(alices, bobs, from_alice, ps, aads, cts, hs, pts, i);
        assert(run_step(alices, bobs, from_alice, ps, aads, cts, hs, pts, i));
        if from_alice[i] {
            lemma_exchange_in_step(alices[i], alices[i + 1], bobs[i], bobs[i + 1], ps[i], aads[i], cts[i], hs[i], pts[i]);
        } else {
            lemma_exchange_in_step(bobs[i], bobs[i + 1], alices[i], alices[i + 1], ps[i], aads[i], cts[i], hs[i], pts[i]);
        }
    }
}

proof fn lemma_run_prefix(
    alices: Seq<DoubleRatchetSession>,
    bobs: Seq<DoubleRatchetSession>,
    from_alice: Seq<bool>,
    ps: Seq<Seq<u8>>,
    aads: Seq<Seq<u8>>,
    cts: Seq<Seq<u8>>,
    hs: Seq<RatchetHeader>,
    pts: Seq<Option<Seq<u8>>>,
    k: int,
)
    requires
        alices.len() == from_alice.len() + 1,
        bobs.len() == from_alice.len() + 1,
        ps.len() == from_alice.len(),
        aads.len() == from_alice.len(),
        cts.len() == from_alice.len(),
        hs.len() == from_alice.len(),
        pts.len() == from_alice.len(),
        in_step(alices[0], bobs[0]),
        in_step(bobs[0], alices[0]),
        forall|i: int|
            0 <= i < from_alice.len() ==> #[trigger] run_step(alices, bobs, from_alice, ps, aads, cts, hs, pts, i),
        0 <= k <= from_alice.len(),
    ensures
        in_step(alices[k], bobs[k]),
        in_step(bobs[k], alices[k]),
    decreases k,
{
    if k > 0 {
        let i = k - 1;
        lemma_run_prefix(alices, bobs, from_alice, ps, aads, cts, hs, pts, i);
        assert(run_step(alices, bobs, from_alice, ps, aads, cts, hs, pts, i));
        assert(alices[i + 1] == alices[k] && bobs[i + 1] == bobs[k]);
        if from_alice[i] {
            lemma_exchange_in_step(alices[i], alices[i + 1], bobs[i], bobs[i + 1], ps[i], aads[i], cts[i], hs[i], pts[i]);
        } else {
            lemma_exchange_in_step(bobs[i], bobs[i + 1], alices[i], alices[i + 1], ps[i], aads[i], cts[i], hs[i], pts[i]);
        }
    }
}

/// Header numbering: along a run of `encrypt` calls starting from a session
/// whose sending chain is at message 0, call `i` puts number `i` and the
/// session's public key in its header and gives a ciphertext 16 bytes longer
/// than its plaintext.
pub proof fn lemma_header_numbering(
    states: Seq<DoubleRatchetSession>,
    plaintexts: Seq<Seq<u8>>,
    aads: Seq<Seq<u8>>,
    cts: Seq<Seq<u8>>,
    headers: Seq<RatchetHeader>,
)
    requires
        states.len() == headers.len() + 1,
        plaintexts.len() == headers.len(),
        aads.len() == headers.len(),
        cts.len() == headers.len(),
        headers.len() <= usize::MAX,
        states[0].sending_view().1 == 0,
        forall|i: int|
            0 <= i < headers.len() ==> #[trigger] encrypt_effect(
                states[i],
                states[i + 1],
                plaintexts[i],
                aads[i],
                cts[i],
                headers[i],
            ),
    ensures
        forall|i: int|
            0 <= i < headers.len() ==> {
                &&& (#[trigger] headers[i]).message_number == i
                &&& headers[i].public_key@ == states[0].dh_public_view()
                &&& cts[i].len() == plaintexts[i].len() + 16
            },
{
    assert forall|i: int| 0 <= i <= headers.len() implies {
        &&& (#[trigger] states[i]).sending_view().1 == i
        &&& states[i].dh_public_view() == states[0].dh_public_view()
    } by {
        lemma_numbering_prefix(states, plaintexts, aads, cts, headers, i);
    }
    assert forall|i: int| 0 <= i < headers.len() implies {
        &&& (#[trigger] headers[i]).message_number == i
        &&& headers[i].public_key@ == states[0].dh_public_view()
        &&& cts[i].len() == plaintexts[i].len() + 16
    } by {
        assert(encrypt_effect(states[i], states[i + 1], plaintexts[i], aads[i], cts[i], headers[i]));
        assert(states[i].sending_view().1 == i);
    }
}

proof fn lemma_numbering_prefix(
    states: Seq<DoubleRatchetSession>,
    plaintexts: Seq<Seq<u8>>,
    aads: Seq<Seq<u8>>,
    cts: Seq<Seq<u8>>,
    headers: Seq<RatchetHeader>,
    i: int,
)
    requires
        states.len() == headers.len() + 1,
        plaintexts.len() == headers.len(),
        aads.len() == headers.len(),
        cts.len() == headers.len(),
        headers.len() <= usize::MAX,
        states[0].sending_view().1 == 0,
        forall|j: int|
            0 <= j < headers.len() ==> #[trigger] encrypt_effect(
                states[j],
                states[j + 1],
                plaintexts[j],
                aads[j],
                cts[j],
                headers[j],
            ),
        0 <= i <= headers.len(),
    ensures
        states[i].sending_view().1 == i,
        states[i].dh_public_view() == states[0].dh_public_view(),
    decreases i,
{
    if i > 0 {
        lemma_numbering_prefix(states, plaintexts, aads, cts, headers, i - 1);
        let j = i - 1;
        assert(encrypt_effect(states[j], states[j + 1], plaintexts[j], aads[j], cts[j], headers[j]));
        assert(states[j + 1] == states[i]);
    }
}

/// Skip-buffer view after storing the keys for skipped steps `i..k` of a
/// receiving chain that started at key `ck` and number `rn`.  Step `i` stores
/// message key `rn + i` under the number `rn + 2 i` (the running count plus
/// the step index).
pub open spec fn skips_from(
    m: Map<usize, Seq<u8>>,
    cap: usize,
    ck: Seq<u8>,
    rn: usize,
    t: RatchetTier,
    salt: Seq<u8>,
    i: nat,
    k: nat,
) -> Map<usize, Seq<u8>>
    decreases k - i,
{
    if i >= k {
        m
    } else {
        skips_from(
            skip_store(
                m,
                cap,
                (rn + 2 * i) as usize,
                message_key_at(chain_iter(ck, t, salt, i), (rn + i) as usize, t, salt),
            ),
            cap,
            ck,
            rn,
            t,
            salt,
            i + 1,
            k,
        )
    }
}

/// Result of decrypting message `n` with the receiving chain `(ck, rn)`.
pub open spec fn try_result(
    ck: Seq<u8>,
    rn: usize,
    n: usize,
    t: RatchetTier,
    salt: Seq<u8>,
    aad: Seq<u8>,
    ct: Seq<u8>,
) -> Option<Seq<u8>> {
    if n < rn {
        None
    } else {
        opened_message(chain_iter(ck, t, salt, (n - rn) as nat), n, t, salt, aad, ct)
    }
}

/// Receiving chain after that attempt (unchanged when `n` is behind it).
pub open spec fn try_chain(ck: Seq<u8>, rn: usize, prev: usize, n: usize, t: RatchetTier, salt: Seq<
    u8,
>) -> (Seq<u8>, usize, usize) {
    if n < rn {
        (ck, rn, prev)
    } else {
        (chain_iter(ck, t, salt, (n - rn + 1) as nat), (n + 1) as usize, prev)
    }
}

/// Skip buffer after that attempt.
pub open spec fn try_skips(
    m: Map<usize, Seq<u8>>,
    cap: usize,
    ck: Seq<u8>,
    rn: usize,
    n: usize,
    t: RatchetTier,
    salt: Seq<u8>,
) -> Map<usize, Seq<u8>> {
    if n < rn {
        m
    } else {
        skips_from(m, cap, ck, rn, t, salt, 0, (n - rn) as nat)
    }
}

/// A message taken in order keeps the two ends in step: after the sender's
/// `encrypt` at number `n` of chain key `ck` (its chain becomes
/// `chain_step(ck)` at `n + 1`), the receiver whose chain was at the same key
/// and number has, after decrypting it, the same key and number; the
/// receiver's skip buffer is unchanged.
pub proof fn lemma_in_order_step(
    ck: Seq<u8>,
    n: usize,
    prev: usize,
    t: RatchetTier,
    salt: Seq<u8>,
    m: Map<usize, Seq<u8>>,
    cap: usize,
)
    requires
        n < usize::MAX,
    ensures
        try_chain(ck, n, prev, n, t, salt) == (chain_step(ck, t, salt), (n + 1) as usize, prev),
        try_skips(m, cap, ck, n, n, t, salt) == m,
        chain_iter(ck, t, salt, 0) == ck,
{
    assert(chain_iter(ck, t, salt, 1) == chain_step(chain_iter(ck, t, salt, 0), t, salt));
}

/// Input key material of a DH ratchet step.
pub open spec fn dh_ikm(root: Seq<u8>, our_secret: Seq<u8>, peer: Seq<u8>, salt: Seq<u8>) -> Seq<u8> {
    root + sha256_output(montgomery_mul_output(clamp(our_secret), peer)) + salt
}

/// A key of the DH ratchet step: HKDF(salt = ikm, empty ikm) expanded with
/// tier label || label.
pub open spec fn ratchet_key(ikm: Seq<u8>, t: RatchetTier, label: Seq<u8>) -> Seq<u8> {
    hkdf_sha256_output(Some(ikm), Seq::empty(), tier_label(t) + label, 32)
}

// ============================================================================
// DoubleRatchetSession
// ============================================================================

/// Double-ratchet session state.
pub struct DoubleRatchetSession {
    root_key: RootKey,
    sending: ChainState,
    receiving: ChainState,
    dh_key_pair: HybridKeyPair,
    remote_dh_public: Option<[u8; 32]>,
    skip_buffer: SkipBuffer,
    tier: RatchetTier,
    salt: Option<ThreeCaSalt>,
    dh_ratcheted: bool,
}

impl DoubleRatchetSession {
    pub closed spec fn root_view(&self) -> Seq<u8> {
        self.root_key@
    }

    /// Sending chain: (chain key, message number, previous chain length).
    pub closed spec fn sending_view(&self) -> (Seq<u8>, usize, usize) {
        self.sending.view3()
    }

    /// Receiving chain: (chain key, message number, previous chain length).
    pub closed spec fn receiving_view(&self) -> (Seq<u8>, usize, usize) {
        self.receiving.view3()
    }

    pub closed spec fn dh_public_view(&self) -> Seq<u8> {
        self.dh_key_pair.x25519_public_view()
    }

    pub closed spec fn dh_secret_view(&self) -> Seq<u8> {
        self.dh_key_pair.x25519_secret_view()
    }

    pub closed spec fn dh_kyber_public_view(&self) -> Seq<u8> {
        self.dh_key_pair.kyber_public_view()
    }

    pub closed spec fn dh_kyber_secret_view(&self) -> Seq<u8> {
        self.dh_key_pair.kyber_secret_view()
    }

    pub closed spec fn dh_pair_wf(&self) -> bool {
        self.dh_key_pair.wf()
    }

    pub closed spec fn remote_view(&self) -> Option<[u8; 32]> {
        self.remote_dh_public
    }

    pub closed spec fn skipped_view(&self) -> Map<usize, Seq<u8>> {
        self.skip_buffer.entries()
    }

    pub closed spec fn skip_capacity(&self) -> usize {
        self.skip_buffer.capacity()
    }

    pub closed spec fn tier_view(&self) -> RatchetTier {
        self.tier
    }

    pub closed spec fn salt_view(&self) -> Option<ThreeCaSalt> {
        self.salt
    }

    pub closed spec fn ratcheted_view(&self) -> bool {
        self.dh_ratcheted
    }

    /// Both chains use the session's tier, the receiving chain keeps no
    /// previous length, and the skip buffer has the tier's capacity and
    /// stays within it.
    pub closed spec fn wf(&self) -> bool {
        &&& self.sending.tier == self.tier
        &&& self.receiving.tier == self.tier
        &&& self.receiving.previous_chain_length == 0
        &&& self.skip_buffer.capacity() == max_skip_spec(self.tier)
        &&& self.skip_buffer.entries().dom().finite()
        &&& self.skip_buffer.entries().len() <= self.skip_buffer.capacity()
    }

    /// The salt bytes the session derives with.
    pub open spec fn salt_bytes_view(&self) -> Seq<u8> {
        salt_data(self.salt_view())
    }

    /// Everything but the chains, root, DH state and skip buffer is as in
    /// `other`.
    pub open spec fn same_config(&self, other: &Self) -> bool {
        &&& self.tier_view() == other.tier_view()
        &&& self.salt_view() == other.salt_view()
        &&& self.skip_capacity() == other.skip_capacity()
        &&& self.wf()
    }

    fn build(
        root: [u8; 32],
        send_chain: [u8; 32],
        recv_chain: [u8; 32],
        tier: RatchetTier,
        salt: Option<ThreeCaSalt>,
        dh_kp: HybridKeyPair,
    ) -> (s: DoubleRatchetSession)
        ensures
            s.wf(),
            s.root_view() == root@,
            s.sending_view() == (send_chain@, 0usize, 0usize),
            s.receiving_view() == (recv_chain@, 0usize, 0usize),
            s.dh_public_view() == dh_kp.x25519_public_view(),
            s.dh_secret_view() == dh_kp.x25519_secret_view(),
            s.dh_pair_wf() == dh_kp.wf(),
            s.remote_view() is None,
            s.skipped_view() == Map::<usize, Seq<u8>>::empty(),
            s.skip_capacity() == max_skip_spec(tier),
            s.tier_view() == tier,
            s.salt_view() == salt,
            !s.ratcheted_view(),
    {
        DoubleRatchetSession {
            root_key: RootKey(root),
            sending: ChainState::new(send_chain, tier),
            receiving: ChainState::new(recv_chain, tier),
            dh_key_pair: dh_kp,
            remote_dh_public: None,
            skip_buffer: SkipBuffer::new(tier.max_skip()),
            tier,
            salt,
            dh_ratcheted: false,
        }
    }

    /// Sender (Alice): fresh DH key pair; sending chain from "send-chain",
    /// receiving chain from "recv-chain".
    pub fn new_sender(shared_secret: [u8; 32], tier: RatchetTier, salt: Option<ThreeCaSalt>) -> (s:
        DoubleRatchetSession)
        ensures
            s.wf(),
            s.dh_pair_wf(),
            s.root_view() == shared_secret@,
            s.sending_view() == (chain_from(shared_secret@, "send-chain".spec_bytes(), tier, salt_data(salt)), 0usize, 0usize),
            s.receiving_view() == (chain_from(shared_secret@, "recv-chain".spec_bytes(), tier, salt_data(salt)), 0usize, 0usize),
            s.remote_view() is None,
            s.skipped_view() == Map::<usize, Seq<u8>>::empty(),
            s.skip_capacity() == max_skip_spec(tier),
            s.tier_view() == tier,
            s.salt_view() == salt,
            !s.ratcheted_view(),
    {
        let dh_kp = HybridKeyPair::generate();
        Self::new_sender_with(shared_secret, tier, salt, dh_kp)
    }

    /// Sender with the given DH key pair.
    pub fn new_sender_with(
        shared_secret: [u8; 32],
        tier: RatchetTier,
        salt: Option<ThreeCaSalt>,
        dh_kp: HybridKeyPair,
    ) -> (s: DoubleRatchetSession)
        ensures
            s.wf(),
            s.dh_public_view() == dh_kp.x25519_public_view(),
            s.dh_secret_view() == dh_kp.x25519_secret_view(),
            s.dh_pair_wf() == dh_kp.wf(),
            s.root_view() == shared_secret@,
            s.sending_view() == (chain_from(shared_secret@, "send-chain".spec_bytes(), tier, salt_data(salt)), 0usize, 0usize),
            s.receiving_view() == (chain_from(shared_secret@, "recv-chain".spec_bytes(), tier, salt_data(salt)), 0usize, 0usize),
            s.remote_view() is None,
            s.skipped_view() == Map::<usize, Seq<u8>>::empty(),
            s.skip_capacity() == max_skip_spec(tier),
            s.tier_view() == tier,
            s.salt_view() == salt,
            !s.ratcheted_view(),
    {
        let salt_data = get_salt(&salt);
        let send_chain = derive_chain(&shared_secret, "send-chain".as_bytes(), tier, salt_data.as_slice());
        let recv_chain = derive_chain(&shared_secret, "recv-chain".as_bytes(), tier, salt_data.as_slice());
        Self::build(shared_secret, send_chain, recv_chain, tier, salt, dh_kp)
    }

    /// Receiver with the given DH key pair: the chains mirror the sender's
    /// (receiving from "send-chain", sending from "recv-chain").
    pub fn new_receiver_with(
        shared_secret: [u8; 32],
        tier: RatchetTier,
        salt: Option<ThreeCaSalt>,
        dh_kp: HybridKeyPair,
    ) -> (s: DoubleRatchetSession)
        ensures
            s.wf(),
            s.dh_public_view() == dh_kp.x25519_public_view(),
            s.dh_secret_view() == dh_kp.x25519_secret_view(),
            s.dh_pair_wf() == dh_kp.wf(),
            s.root_view() == shared_secret@,
            s.receiving_view() == (chain_from(shared_secret@, "send-chain".spec_bytes(), tier, salt_data(salt)), 0usize, 0usize),
            s.sending_view() == (chain_from(shared_secret@, "recv-chain".spec_bytes(), tier, salt_data(salt)), 0usize, 0usize),
            s.remote_view() is None,
            s.skipped_view() == Map::<usize, Seq<u8>>::empty(),
            s.skip_capacity() == max_skip_spec(tier),
            s.tier_view() == tier,
            s.salt_view() == salt,
            !s.ratcheted_view(),
    {
        let salt_data = get_salt(&salt);
        let recv_chain = derive_chain(&shared_secret, "send-chain".as_bytes(), tier, salt_data.as_slice());
        let send_chain = derive_chain(&shared_secret, "recv-chain".as_bytes(), tier, salt_data.as_slice());
        Self::build(shared_secret, send_chain, recv_chain, tier, salt, dh_kp)
    }

    /// Receiver (Bob) with a fresh DH key pair.
    pub fn new_receiver(shared_secret: [u8; 32], tier: RatchetTier, salt: Option<ThreeCaSalt>) -> (s:
        DoubleRatchetSession)
        ensures
            s.wf(),
            s.dh_pair_wf(),
            s.root_view() == shared_secret@,
            s.receiving_view() == (chain_from(shared_secret@, "send-chain".spec_bytes(), tier, salt_data(salt)), 0usize, 0usize),
            s.sending_view() == (chain_from(shared_secret@, "recv-chain".spec_bytes(), tier, salt_data(salt)), 0usize, 0usize),
            s.remote_view() is None,
            s.skipped_view() == Map::<usize, Seq<u8>>::empty(),
            s.skip_capacity() == max_skip_spec(tier),
            s.tier_view() == tier,
            s.salt_view() == salt,
            !s.ratcheted_view(),
    {
        Self::new_receiver_with(shared_secret, tier, salt, HybridKeyPair::generate())
    }

    /// Sending chain counters: (message number, previous chain length).
    pub fn send_counters(&self) -> (c: (usize, usize))
        ensures
            c.0 == self.sending_view().1,
            c.1 == self.sending_view().2,
    {
        (self.sending.message_number, self.sending.previous_chain_length)
    }

    /// Current sending chain key.
    pub fn sending_chain_key(&self) -> (k: [u8; 32])
        ensures
            k@ == self.sending_view().0,
    {
        self.sending.chain_key
    }

    /// Current receiving chain key.
    pub fn receiving_chain_key(&self) -> (k: [u8; 32])
        ensures
            k@ == self.receiving_view().0,
    {
        self.receiving.chain_key
    }

    /// Our current DH public key (X25519 part).
    pub fn public_key(&self) -> (pk: [u8; 32])
        ensures
            pk@ == self.dh_public_view(),
    {
        self.dh_key_pair.public_key().x25519
    }

    /// The two sessions hold the same state.
    pub open spec fn same_state(&self, other: &Self) -> bool {
        &&& self.root_view() == other.root_view()
        &&& self.sending_view() == other.sending_view()
        &&& self.receiving_view() == other.receiving_view()
        &&& self.dh_public_view() == other.dh_public_view()
        &&& self.dh_secret_view() == other.dh_secret_view()
        &&& self.dh_kyber_public_view() == other.dh_kyber_public_view()
        &&& self.dh_kyber_secret_view() == other.dh_kyber_secret_view()
        &&& self.remote_view() == other.remote_view()
        &&& self.skipped_view() == other.skipped_view()
        &&& self.skip_capacity() == other.skip_capacity()
        &&& self.tier_view() == other.tier_view()
        &&& self.salt_view() == other.salt_view()
        &&& self.ratcheted_view() == other.ratcheted_view()
    }

    /// DH key, remote key and ratchet flag are as in `other`.
    pub open spec fn same_dh(&self, other: &Self) -> bool {
        &&& self.dh_public_view() == other.dh_public_view()
        &&& self.dh_secret_view() == other.dh_secret_view()
        &&& self.dh_pair_wf() == other.dh_pair_wf()
        &&& self.remote_view() == other.remote_view()
        &&& self.ratcheted_view() == other.ratcheted_view()
    }

    /// DH ratchet with the peer's public key: root and both chains are
    /// re-derived from root || SHA-256(DH output) || salt, a fresh DH key pair
    /// replaces ours, and the peer key is remembered.
    fn perform_dh_ratchet(&mut self, remote_pk: &[u8; 32])
        requires
            old(self).wf(),
        ensures
            ({
                let t = old(self).tier_view();
                let ikm = dh_ikm(
                    old(self).root_view(),
                    old(self).dh_secret_view(),
                    remote_pk@,
                    old(self).salt_bytes_view(),
                );
                &&& final(self).root_view() == ratchet_key(ikm, t, "root".spec_bytes())
                &&& final(self).receiving_view() == (
                    ratchet_key(ikm, t, "recv-ratchet".spec_bytes()),
                    0usize,
                    0usize,
                )
                &&& final(self).sending_view() == (
                    ratchet_key(ikm, t, "send-ratchet".spec_bytes()),
                    0usize,
                    0usize,
                )
            }),
            final(self).dh_pair_wf(),
            final(self).remote_view() == Some(*remote_pk),
            final(self).ratcheted_view(),
            final(self).skipped_view() == old(self).skipped_view(),
            final(self).same_config(old(self)),
    {
        let our_secret = self.dh_key_pair.x25519_secret();
        let dh_raw = x25519_scalar_mult(&our_secret, remote_pk);
        let dh_hash = dh_output_hash(&dh_raw);
        let salt_data = get_salt(&self.salt);
        let label = label_of(self.tier);
        let mut ikm: Vec<u8> = Vec::new();
        append_bytes(&mut ikm, self.root_key.as_bytes());
        append_bytes(&mut ikm, &dh_hash);
        append_bytes(&mut ikm, salt_data.as_slice());
        let empty: Vec<u8> = Vec::new();
        let mut lbl1: Vec<u8> = Vec::new();
        append_bytes(&mut lbl1, label);
        append_bytes(&mut lbl1, "recv-ratchet".as_bytes());
        let recv_new = hkdf_sha256(Some(ikm.as_slice()), empty.as_slice(), lbl1.as_slice(), 32);
        let mut lbl2: Vec<u8> = Vec::new();
        append_bytes(&mut lbl2, label);
        append_bytes(&mut lbl2, "send-ratchet".as_bytes());
        let send_new = hkdf_sha256(Some(ikm.as_slice()), empty.as_slice(), lbl2.as_slice(), 32);
        let mut root_info: Vec<u8> = Vec::new();
        append_bytes(&mut root_info, label);
        append_bytes(&mut root_info, "root".as_bytes());
        let new_root = hkdf_sha256(Some(ikm.as_slice()), empty.as_slice(), root_info.as_slice(), 32);
        assert(empty@ =~= Seq::<u8>::empty());
        self.root_key = RootKey(to_array32(new_root.as_slice()));
        self.receiving = ChainState::new(to_array32(recv_new.as_slice()), self.tier);
        self.sending = ChainState::new(to_array32(send_new.as_slice()), self.tier);
        self.dh_key_pair = HybridKeyPair::generate();
        self.remote_dh_public = Some(*remote_pk);
        self.dh_ratcheted = true;
    }

    /// Encrypts with the next message key of the sending chain; the header
    /// (our public key, message number, previous chain length) is
    /// authenticated as associated data in front of `aad`.
    pub fn encrypt(&mut self, plaintext: &[u8], aad: &[u8]) -> (r: (Vec<u8>, RatchetHeader))
        requires
            old(self).wf(),
            old(self).sending_view().1 < usize::MAX,
            old(self).sending_view().2 < usize::MAX,
            plaintext@.len() <= aead_max_len(),
            aad@.len() + 40 <= aead_max_len(),
        ensures
            encrypt_effect(*old(self), *final(self), plaintext@, aad@, r.0@, r.1),
    {
        let salt_data = get_salt(&self.salt);
        let prev_chain_length = self.sending.previous_chain_length;
        let msg_num = self.sending.message_number;
        let pk = self.public_key();
        let header = RatchetHeader::new(pk, msg_num, prev_chain_length);
        let msg_key = self.sending.derive_message_key(salt_data.as_slice());
        let nonce = self.derive_nonce_send(msg_num, salt_data.as_slice());
        let cipher = AeadCipher::new(msg_key.as_bytes());
        let mut full_aad = header.serialize();
        append_bytes(&mut full_aad, aad);
        let ciphertext = cipher.encrypt(&nonce, full_aad.as_slice(), plaintext);
        self.sending.previous_chain_length = prev_chain_length + 1;
        (ciphertext, header)
    }

    /// Decrypts a message.  A key in the skip buffer for the message number is
    /// used first.  Otherwise the receiving chain is tried; when that fails,
    /// the first peer key seen is only remembered, and a peer key that differs
    /// from the remembered one triggers a DH ratchet followed by a second try
    /// on the new receiving chain.  The header is authenticated in front of
    /// `aad`, as `encrypt` does.
    pub fn decrypt(&mut self, header: &RatchetHeader, ciphertext: &[u8], aad: &[u8]) -> (pt: Option<
        Vec<u8>,
    >)
        requires
            old(self).wf(),
            header.message_number < usize::MAX / 2,
        ensures
            decrypt_effect(*old(self), *final(self), *header, ciphertext@, aad@, opened_view(pt)),
    {
        let salt_data = get_salt(&self.salt);
        let msg_num = header.message_number;
        let mut full_aad = header.serialize();
        append_bytes(&mut full_aad, aad);
        match self.skip_buffer.get(msg_num) {
            Some(key) => {
                let nonce = self.derive_nonce_recv(msg_num, salt_data.as_slice());
                let cipher = AeadCipher::new(key.as_bytes());
                return cipher.decrypt(&nonce, full_aad.as_slice(), ciphertext);
            },
            None => {},
        }
        let pt = self.try_decrypt_with_current_chain(
            header,
            ciphertext,
            full_aad.as_slice(),
            salt_data.as_slice(),
        );
        if pt.is_some() {
            return pt;
        }
        let peer_pk = header.public_key;
        match self.remote_dh_public {
            None => {
                self.remote_dh_public = Some(peer_pk);
                return None;
            },
            Some(prev) => {
                if !bytes_equal(&prev, &peer_pk) {
                    self.perform_dh_ratchet(&peer_pk);
                    return self.try_decrypt_with_current_chain(
                        header,
                        ciphertext,
                        full_aad.as_slice(),
                        salt_data.as_slice(),
                    );
                }
                assert(prev =~= peer_pk) by {
                    assert forall|i: int| 0 <= i < 32 implies prev[i] == peer_pk[i] by {
                        assert(prev@[i] == peer_pk@[i]);
                    }
                }
            },
        }
        None
    }

    /// Nonce of message `msg_num` from the current sending chain key.
    fn derive_nonce_send(&self, msg_num: usize, salt: &[u8]) -> (n: NonceData)
        ensures
            n@ == nonce_at(self.sending_view().0, msg_num, self.tier_view(), salt@),
    {
        derive_nonce(&self.sending.chain_key, self.tier, msg_num, salt)
    }

    /// Nonce of message `msg_num` from the current receiving chain key (the
    /// peer's sending chain).
    fn derive_nonce_recv(&self, msg_num: usize, salt: &[u8]) -> (n: NonceData)
        ensures
            n@ == nonce_at(self.receiving_view().0, msg_num, self.tier_view(), salt@),
    {
        derive_nonce(&self.receiving.chain_key, self.tier, msg_num, salt)
    }

    /// Decrypts message `header.message_number` with the receiving chain,
    /// without a DH ratchet.  A number behind the chain gives `None` and
    /// changes nothing; a number ahead of it first steps the chain forward,
    /// offering each skipped key to the skip buffer.
    fn try_decrypt_with_current_chain(
        &mut self,
        header: &RatchetHeader,
        ciphertext: &[u8],
        aad: &[u8],
        salt: &[u8],
    ) -> (pt: Option<Vec<u8>>)
        requires
            old(self).wf(),
            header.message_number < usize::MAX / 2,
            salt@ == old(self).salt_bytes_view(),
        ensures
            ({
                let r = old(self).receiving_view();
                let t = old(self).tier_view();
                let s = old(self).salt_bytes_view();
                let n = header.message_number;
                &&& opened_view(pt) == try_result(r.0, r.1, n, t, s, aad@, ciphertext@)
                &&& final(self).receiving_view() == try_chain(r.0, r.1, r.2, n, t, s)
                &&& final(self).skipped_view() == try_skips(
                    old(self).skipped_view(),
                    old(self).skip_capacity(),
                    r.0,
                    r.1,
                    n,
                    t,
                    s,
                )
                &&& forall|p: Seq<u8>|
                    r.1 <= n && ciphertext@.len() >= 16 && p.len() <= aead_max_len() && aad@.len()
                        <= aead_max_len() && #[trigger] sealed_message(
                        chain_iter(r.0, t, s, (n - r.1) as nat),
                        n,
                        t,
                        s,
                        aad@,
                        p,
                    ) == ciphertext@ ==> opened_view(pt) == Some(p)
            }),
            final(self).sending_view() == old(self).sending_view(),
            final(self).root_view() == old(self).root_view(),
            final(self).same_dh(old(self)),
            final(self).same_config(old(self)),
    {
        let msg_num = header.message_number;
        let ghost s0 = *self;
        let ghost t = s0.tier;
        let ghost ck0 = s0.receiving.chain_key@;
        let ghost target = try_skips(
            s0.skip_buffer.entries(),
            s0.skip_buffer.capacity(),
            ck0,
            s0.receiving.message_number,
            msg_num,
            t,
            salt@,
        );
        if msg_num > self.receiving.message_number {
            let rn0 = self.receiving.message_number;
            let skip_count = msg_num - rn0;
            let mut i: usize = 0;
            while i < skip_count
                invariant
                    i <= skip_count,
                    skip_count == msg_num - rn0,
                    msg_num < usize::MAX / 2,
                    rn0 == s0.receiving.message_number,
                    t == s0.tier,
                    ck0 == s0.receiving.chain_key@,
                    self.receiving.message_number == rn0 + i,
                    self.receiving.chain_key@ == chain_iter(ck0, t, salt@, i as nat),
                    self.receiving.previous_chain_length == s0.receiving.previous_chain_length,
                    self.receiving.tier == t,
                    self.skip_buffer.capacity() == s0.skip_buffer.capacity(),
                    self.skip_buffer.entries().dom().finite(),
                    self.skip_buffer.entries().len() <= self.skip_buffer.capacity(),
                    skips_from(
                        self.skip_buffer.entries(),
                        s0.skip_buffer.capacity(),
                        ck0,
                        rn0,
                        t,
                        salt@,
                        i as nat,
                        skip_count as nat,
                    ) == target,
                    self.sending == s0.sending,
                    self.root_key == s0.root_key,
                    self.dh_key_pair == s0.dh_key_pair,
                    self.remote_dh_public == s0.remote_dh_public,
                    self.tier == s0.tier,
                    self.salt == s0.salt,
                    self.dh_ratcheted == s0.dh_ratcheted,
                decreases skip_count - i,
            {
                let sn = self.receiving.message_number + i;
                let skip_key = self.receiving.derive_message_key(salt);
                let _ = self.skip_buffer.store(sn, skip_key);
                i = i + 1;
            }
        } else if msg_num < self.receiving.message_number {
            return None;
        }
        let msg_key = self.receiving.derive_message_key(salt);
        let nonce = self.derive_nonce_recv(msg_num, salt);
        let cipher = AeadCipher::new(msg_key.as_bytes());
        cipher.decrypt(&nonce, aad, ciphertext)
    }
}


/// X25519 of our (re-clamped) secret with the peer's point.
fn x25519_scalar_mult(secret: &[u8; 32], public: &[u8; 32]) -> (r: [u8; 32])
    ensures
        r@ == montgomery_mul_output(clamp(secret@), public@),
{
    let sk = clamp_scalar(secret);
    montgomery_mul(&sk, public)
}

/// SHA-256 of the raw DH output.
fn dh_output_hash(dh_raw: &[u8; 32]) -> (h: [u8; 32])
    ensures
        h@ == sha256_output(dh_raw@),
{
    sha256(dh_raw)
}

} // verus!
