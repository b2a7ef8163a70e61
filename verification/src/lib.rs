//! Star Compass: an end-to-end encryption toolkit.  Keys are derived from a
//! shared secret salted with three sources (planetary hexagram lines, an
//! event hash and a private trigram sequence); messages travel under a
//! double ratchet, in authenticated fixed-size blocks, optionally obfuscated
//! and shaped to look like other traffic.

pub mod astro;
pub mod bytes;
pub mod crypto;
pub mod error;
pub mod keyring;
pub mod pipeline;
pub mod session;
pub mod text;
pub mod tiers;

pub use error::CryptoError;
pub use astro::planets::{Planet, Hexagram, PlanetCalculator, ThreeCaSalt};
pub use crypto::{AeadCipher, BlockAuth, HmacTransport, NonceData, KeyDeriver, HybridKeyExchange, MerkleTree, VERSION};
pub use keyring::{ThreeCaKeyRing, RatchetCounters, SkipBuffer};
pub use pipeline::{Chunker, MatrixObfuscator, TrafficOrchestrator, MimicProtocol, PacketScheduler, Block, ManifestBlock};
pub use tiers::{SecurityTier, TierConfig};

use vstd::prelude::*;
use vstd::string::StringSliceAdditionalSpecFns;
use crate::astro::planets::salt_bytes;
use crate::crypto::hkdf::master_key;
use crate::crypto::primitives::{sha256, sha256_output};
use crate::tiers::is_default_config;

verus! {

/// A configured instance: a tier, its configuration, and once initialised a
/// key ring.
pub struct StarCompass {
    tier: SecurityTier,
    keyring: Option<ThreeCaKeyRing>,
    tier_config: TierConfig,
}

impl StarCompass {
    pub closed spec fn tier_view(&self) -> SecurityTier {
        self.tier
    }

    pub closed spec fn keyring_view(&self) -> Option<ThreeCaKeyRing> {
        self.keyring
    }

    pub closed spec fn config_view(&self) -> TierConfig {
        self.tier_config
    }

    /// An instance of `tier` with the tier's default configuration and no
    /// key ring yet.
    pub fn new(tier: SecurityTier) -> (s: StarCompass)
        ensures
            s.tier_view() == tier,
            s.keyring_view() is None,
            is_default_config(s.config_view(), tier),
    {
        StarCompass { tier, keyring: None, tier_config: tier.default_config() }
    }

    /// Sets up the key ring with the three-source salt: the planetary lines
    /// for the observation, SHA-256 of the event description, and the
    /// private trigram sequence.  The key ring starts without a master key.
    pub fn init(
        &mut self,
        planet_bits: [u8; 21],
        event_description: &str,
        personal_hexagrams: &[u8; 64],
    ) -> (r: Result<(), CryptoError>)
        ensures
            r is Ok,
            final(self).tier_view() == old(self).tier_view(),
            final(self).config_view() == old(self).config_view(),
            final(self).keyring_view() matches Some(k) && {
                &&& k.tier_view() == old(self).tier_view()
                &&& k.salt_view().planet_bits == planet_bits
                &&& k.salt_view().event_hash@ == sha256_output(event_description.spec_bytes())
                &&& k.salt_view().personal_hex == *personal_hexagrams
                &&& k.master_view() is None
                &&& k.counters_view().symmetric_generation == 0
                &&& k.counters_view().dh_generation == 0
                &&& k.counters_view().message_counter == 0
            },
    {
        let event_hash = sha256(event_description.as_bytes());
        let salt = ThreeCaSalt { planet_bits, event_hash, personal_hex: *personal_hexagrams };
        self.keyring = Some(ThreeCaKeyRing::new(self.tier, salt));
        Ok(())
    }

    /// Derives the master key from a shared secret.  Without a key ring yet,
    /// one is made first with the all-zero salt.
    pub fn init_with_shared_secret(&mut self, shared: &[u8; 64])
        ensures
            final(self).tier_view() == old(self).tier_view(),
            final(self).config_view() == old(self).config_view(),
            final(self).keyring_view() matches Some(k) && {
                &&& k.tier_view() == (match old(self).keyring_view() {
                    Some(o) => o.tier_view(),
                    None => old(self).tier_view(),
                })
                &&& match old(self).keyring_view() {
                    Some(o) => k.salt_view() == o.salt_view() && k.counters_view()
                        == o.counters_view(),
                    None => {
                        &&& k.salt_view().planet_bits@ == Seq::new(21, |i: int| 0u8)
                        &&& k.salt_view().event_hash@ == Seq::new(32, |i: int| 0u8)
                        &&& k.salt_view().personal_hex@ == Seq::new(64, |i: int| 0u8)
                        &&& k.counters_view().symmetric_generation == 0
                        &&& k.counters_view().dh_generation == 0
                        &&& k.counters_view().message_counter == 0
                    },
                }
                &&& k.master_view() == Some(master_key(shared@, salt_bytes(k.salt_view())))
            },
    {
        let mut kr = match self.keyring.take() {
            Some(k) => k,
            None => ThreeCaKeyRing::new(self.tier, ThreeCaSalt::default_for_tier(self.tier)),
        };
        kr.init(shared);
        self.keyring = Some(kr);
    }

    pub fn tier(&self) -> (t: SecurityTier)
        ensures
            t == self.tier_view(),
    {
        self.tier
    }

    pub fn config(&self) -> (c: &TierConfig)
        ensures
            *c == self.config_view(),
    {
        &self.tier_config
    }

    pub fn keyring(&self) -> (k: Option<&ThreeCaKeyRing>)
        ensures
            match self.keyring_view() {
                Some(r) => k == Some(&r),
                None => k is None,
            },
    {
        self.keyring.as_ref()
    }

    /// The key ring's salt, once initialised.
    pub fn salt(&self) -> (s: Option<&ThreeCaSalt>)
        ensures
            match self.keyring_view() {
                Some(r) => s matches Some(x) && *x == r.salt_view(),
                None => s is None,
            },
    {
        match &self.keyring {
            Some(k) => Some(k.salt()),
            None => None,
        }
    }
}

pub const VERSION_MAJOR: u16 = 0;

pub const VERSION_MINOR: u8 = 1;

} // verus!
