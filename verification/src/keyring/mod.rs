//! Key ring: master-key derivation over the three-source salt, with
//! symmetric and DH ratchet counters.

use vstd::prelude::*;
use std::collections::HashMap;
use crate::astro::planets::{salt_bytes, ThreeCaSalt};
use crate::crypto::aesgcm::{nonce_with_counter, NonceData};
use crate::crypto::hkdf::{domain_key, master_key, KeyDeriver};
use crate::tiers::SecurityTier;
use vstd::string::StringSliceAdditionalSpecFns;

verus! {

broadcast use vstd::std_specs::hash::group_hash_axioms;

#[derive(Debug, Clone)]
pub struct RatchetCounters {
    pub symmetric_generation: u32,
    pub dh_generation: u32,
    pub message_counter: u64,
}

impl Default for RatchetCounters {
    fn default() -> (c: RatchetCounters)
        ensures
            c.symmetric_generation == 0,
            c.dh_generation == 0,
            c.message_counter == 0,
    {
        RatchetCounters { symmetric_generation: 0, dh_generation: 0, message_counter: 0 }
    }
}

/// Messages between symmetric generation bumps for a tier (Kan never bumps
/// before the counter would wrap).
pub open spec fn update_interval(t: SecurityTier) -> u64 {
    match t {
        SecurityTier::KanWater => u64::MAX,
        SecurityTier::XunWind => 1000,
        SecurityTier::LiFire => 500,
        SecurityTier::QianHeaven => 100,
    }
}

pub struct ThreeCaKeyRing {
    tier: SecurityTier,
    salt: ThreeCaSalt,
    deriver: Option<KeyDeriver>,
    counters: RatchetCounters,
}

/// A domain key of the ring: derived from the master key, or all zeros
/// before `init`.
pub open spec fn ring_key(master: Option<Seq<u8>>, label: Seq<u8>, len: nat) -> Seq<u8> {
    match master {
        Some(m) => domain_key(m, label, len),
        None => Seq::new(len, |i: int| 0u8),
    }
}

impl ThreeCaKeyRing {
    pub closed spec fn tier_view(&self) -> SecurityTier {
        self.tier
    }

    pub closed spec fn salt_view(&self) -> ThreeCaSalt {
        self.salt
    }

    /// The master key, once initialised.
    pub closed spec fn master_view(&self) -> Option<Seq<u8>> {
        match self.deriver {
            Some(d) => Some(d.master_view()),
            None => None,
        }
    }

    pub closed spec fn counters_view(&self) -> RatchetCounters {
        self.counters
    }

    pub fn new(tier: SecurityTier, salt: ThreeCaSalt) -> (r: ThreeCaKeyRing)
        ensures
            r.tier_view() == tier,
            r.salt_view() == salt,
            r.master_view() is None,
            r.counters_view().symmetric_generation == 0,
            r.counters_view().dh_generation == 0,
            r.counters_view().message_counter == 0,
    {
        ThreeCaKeyRing { tier, salt, deriver: None, counters: RatchetCounters::default() }
    }

    /// Derives the master key from the shared secret and the salt.
    pub fn init(&mut self, shared_secret: &[u8; 64])
        ensures
            final(self).master_view() == Some(master_key(shared_secret@, salt_bytes(old(self).salt_view()))),
            final(self).tier_view() == old(self).tier_view(),
            final(self).salt_view() == old(self).salt_view(),
            final(self).counters_view() == old(self).counters_view(),
    {
        let salt_bytes = self.salt.synthesize();
        self.deriver = Some(KeyDeriver::extract_master(shared_secret, salt_bytes.as_slice()));
    }

    pub fn k2(&self) -> (k: [u8; 32])
        ensures
            k@ == ring_key(self.master_view(), "StarCompass-Content-Encryption".spec_bytes(), 32),
    {
        match &self.deriver {
            Some(d) => d.derive_k2(),
            None => {
                let z = [0u8; 32];
                assert(z@ =~= Seq::new(32, |i: int| 0u8));
                z
            },
        }
    }

    pub fn k_block(&self) -> (k: [u8; 32])
        ensures
            k@ == ring_key(self.master_view(), "StarCompass-Block-Auth".spec_bytes(), 32),
    {
        match &self.deriver {
            Some(d) => d.derive_k_block(),
            None => {
                let z = [0u8; 32];
                assert(z@ =~= Seq::new(32, |i: int| 0u8));
                z
            },
        }
    }

    pub fn k4(&self) -> (k: [u8; 32])
        ensures
            k@ == ring_key(self.master_view(), "StarCompass-Transport-HMAC".spec_bytes(), 32),
    {
        match &self.deriver {
            Some(d) => d.derive_k4(),
            None => {
                let z = [0u8; 32];
                assert(z@ =~= Seq::new(32, |i: int| 0u8));
                z
            },
        }
    }

    pub fn k1(&self) -> (k: [u8; 32])
        ensures
            k@ == ring_key(self.master_view(), "StarCompass-Manifest-Encryption".spec_bytes(), 32),
    {
        match &self.deriver {
            Some(d) => d.derive_k1(),
            None => {
                let z = [0u8; 32];
                assert(z@ =~= Seq::new(32, |i: int| 0u8));
                z
            },
        }
    }

    pub fn nonce_base(&self) -> (n: [u8; 12])
        ensures
            n@ == ring_key(self.master_view(), "StarCompass-Nonce-Base".spec_bytes(), 12),
    {
        match &self.deriver {
            Some(d) => d.derive_nonce_base(),
            None => {
                let z = [0u8; 12];
                assert(z@ =~= Seq::new(12, |i: int| 0u8));
                z
            },
        }
    }

    /// Nonce base XOR the current message counter.
    pub fn message_nonce(&self) -> (n: NonceData)
        ensures
            n@ == nonce_with_counter(
                ring_key(self.master_view(), "StarCompass-Nonce-Base".spec_bytes(), 12),
                self.counters_view().message_counter,
            ),
    {
        let base = self.nonce_base();
        NonceData::with_counter(&base, self.counters.message_counter)
    }

    /// Advances the message counter; every `update_interval` messages the
    /// symmetric generation advances too.
    pub fn symmetric_ratchet(&mut self)
        requires
            old(self).counters_view().message_counter < u64::MAX,
            old(self).counters_view().symmetric_generation < u32::MAX,
        ensures
            final(self).counters_view().message_counter == old(self).counters_view().message_counter
                + 1,
            final(self).counters_view().symmetric_generation == old(
                self,
            ).counters_view().symmetric_generation + if (old(self).counters_view().message_counter
                + 1) % (update_interval(old(self).tier_view()) as int) == 0 {
                1int
            } else {
                0int
            },
            final(self).counters_view().dh_generation == old(self).counters_view().dh_generation,
            final(self).master_view() == old(self).master_view(),
            final(self).tier_view() == old(self).tier_view(),
            final(self).salt_view() == old(self).salt_view(),
    {
        self.counters.message_counter = self.counters.message_counter + 1;
        let update_interval: u64 = match self.tier {
            SecurityTier::KanWater => u64::MAX,
            SecurityTier::XunWind => 1000,
            SecurityTier::LiFire => 500,
            SecurityTier::QianHeaven => 100,
        };
        if self.counters.message_counter % update_interval == 0 {
            self.counters.symmetric_generation = self.counters.symmetric_generation + 1;
        }
    }

    /// Re-derives the master key from a new shared secret.
    pub fn dh_ratchet(&mut self, new_shared: &[u8; 64])
        requires
            old(self).counters_view().dh_generation < u32::MAX,
        ensures
            final(self).counters_view().dh_generation == old(self).counters_view().dh_generation + 1,
            final(self).counters_view().symmetric_generation == old(
                self,
            ).counters_view().symmetric_generation,
            final(self).counters_view().message_counter == old(self).counters_view().message_counter,
            final(self).master_view() == Some(master_key(new_shared@, salt_bytes(old(self).salt_view()))),
            final(self).tier_view() == old(self).tier_view(),
            final(self).salt_view() == old(self).salt_view(),
    {
        self.counters.dh_generation = self.counters.dh_generation + 1;
        let salt_bytes = self.salt.synthesize();
        self.deriver = Some(KeyDeriver::extract_master(new_shared, salt_bytes.as_slice()));
    }

    pub fn salt(&self) -> (s: &ThreeCaSalt)
        ensures
            *s == self.salt_view(),
    {
        &self.salt
    }

    pub fn counters(&self) -> (c: &RatchetCounters)
        ensures
            *c == self.counters_view(),
    {
        &self.counters
    }
}

/// After a symmetric ratchet step, the message nonce differs from the one
/// before (same base, consecutive counters).
pub proof fn lemma_symmetric_ratchet_fresh_nonce(base: Seq<u8>, counter: u64)
    requires
        base.len() == 12,
        counter < u64::MAX,
    ensures
        nonce_with_counter(base, counter) != nonce_with_counter(base, (counter + 1) as u64),
{
    if nonce_with_counter(base, counter) == nonce_with_counter(base, (counter + 1) as u64) {
        crate::crypto::aesgcm::lemma_nonce_counter_injective(base, counter, (counter + 1) as u64);
    }
}

/// Bounded store of skipped message keys, evicting the lowest message number
/// when full.
pub struct SkipBuffer {
    buffer: HashMap<u64, [u8; 32]>,
    max_size: usize,
}

/// The smallest key of a non-empty finite key set.
pub open spec fn is_min_key(m: Map<u64, [u8; 32]>, k: u64) -> bool {
    m.contains_key(k) && forall|j: u64| m.contains_key(j) ==> k <= j
}

impl SkipBuffer {
    pub closed spec fn entries(&self) -> Map<u64, [u8; 32]> {
        self.buffer@
    }

    pub closed spec fn capacity(&self) -> usize {
        self.max_size
    }

    pub fn new(max_size: usize) -> (b: SkipBuffer)
        ensures
            b.entries() == Map::<u64, [u8; 32]>::empty(),
            b.capacity() == max_size,
    {
        SkipBuffer { buffer: HashMap::new(), max_size }
    }

    /// Stores a key; when the buffer is full, the entry with the lowest
    /// message number is evicted first.
    pub fn store(&mut self, message_num: u64, key: [u8; 32])
        ensures
            final(self).capacity() == old(self).capacity(),
            old(self).entries().len() < old(self).capacity() || old(self).entries().len() == 0
                ==> final(self).entries() == old(self).entries().insert(message_num, key),
            old(self).entries().len() >= old(self).capacity() && old(self).entries().len() > 0
                ==> exists|k: u64|
                is_min_key(old(self).entries(), k) && final(self).entries() == old(
                    self,
                ).entries().remove(k).insert(message_num, key),
    {
        if self.buffer.len() >= self.max_size {
            let mut min: Option<u64> = None;
            let ghost keys = self.buffer@.dom();
            let ghost mut covered: nat = 0;
            for k in it: self.buffer.keys()
                invariant
                    keys == self.buffer@.dom(),
                    it.seq().unref().to_set() == keys,
                    match min {
                        None => it.index() == 0,
                        Some(m) => keys.contains(m) && forall|j: int|
                            0 <= j < it.index() ==> m <= *it.seq()[j],
                    },
            {
                assert(keys.contains(*k)) by {
                    assert(it.seq().unref()[it.index() as int] == *k);
                }
                min = match min {
                    None => Some(*k),
                    Some(m) => if *k < m {
                        Some(*k)
                    } else {
                        Some(m)
                    },
                };
            }
            if let Some(m) = min {
                assert(is_min_key(self.buffer@, m));
                self.buffer.remove(&m);
            }
        }
        self.buffer.insert(message_num, key);
    }

    /// Takes the key stored for a message number out of the buffer.
    pub fn get(&mut self, message_num: u64) -> (k: Option<[u8; 32]>)
        ensures
            final(self).entries() == old(self).entries().remove(message_num),
            final(self).capacity() == old(self).capacity(),
            k == (if old(self).entries().contains_key(message_num) {
                Some(old(self).entries()[message_num])
            } else {
                None
            }),
    {
        self.buffer.remove(&message_num)
    }
}

} // verus!
