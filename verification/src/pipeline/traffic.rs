//! Traffic shaping after a protocol's packet-length profile: target lengths
//! near the profile's typical sizes, tail padding, fake protocol headers
//! and heartbeats.

use vstd::prelude::*;
use crate::bytes::{append_bytes, u16_be};
use crate::crypto::primitives::{random_bytes, random_i32_inclusive, random_usize_inclusive};
use crate::pipeline::{drop_front, padding_bytes, padding_of, prepend, stamp_heartbeat};

pub use crate::pipeline::{MimicProtocol, PacketScheduler};

verus! {

/// Packet-length profile: smallest and largest size, and typical sizes
/// with weights.
#[derive(Debug, Clone)]
pub struct LengthDistribution {
    pub min: usize,
    pub max: usize,
    pub buckets: Vec<(usize, usize)>,
}

/// Typical TLS record sizes.
fn tls_distribution() -> (d: LengthDistribution)
    ensures
        d.min == 40,
        d.max == 16400,
        d.buckets@ == seq![(64usize, 10usize), (128, 20), (256, 25), (512, 20), (1024, 15), (1400, 10)],
{
    LengthDistribution {
        min: 40,
        max: 16400,
        buckets: vec![(64, 10), (128, 20), (256, 25), (512, 20), (1024, 15), (1400, 10)],
    }
}

impl Default for LengthDistribution {
    /// The TLS record-size profile.
    fn default() -> (d: LengthDistribution)
        ensures
            d.min == 40,
            d.max == 16400,
            d.buckets@ == seq![(64usize, 10usize), (128, 20), (256, 25), (512, 20), (1024, 15), (1400, 10)],
    {
        tls_distribution()
    }
}

/// Distance between two sizes.
pub open spec fn size_distance(a: usize, b: usize) -> int {
    if a <= b {
        b - a
    } else {
        a - b
    }
}

/// The typical size nearest to `total` (the first of equally near ones).
pub open spec fn nearest_start(buckets: Seq<(usize, usize)>, total: usize) -> usize
    recommends
        buckets.len() > 0,
    decreases buckets.len(),
{
    if buckets.len() <= 1 {
        buckets[0].0
    } else {
        let r = nearest_start(buckets.drop_last(), total);
        if size_distance(buckets.last().0, total) < size_distance(r, total) {
            buckets.last().0
        } else {
            r
        }
    }
}

/// The size a target is taken around: the nearest typical size, or the
/// largest size when the profile has none.
pub open spec fn target_base(d: LengthDistribution, total: usize) -> usize {
    if d.buckets@.len() == 0 {
        d.max
    } else {
        nearest_start(d.buckets@, total)
    }
}

/// Target length for `total` bytes with the given adjustment: the base
/// size moved by the adjustment, and at least `min(d.min, total)`.
pub open spec fn target_for(d: LengthDistribution, total: usize, adjustment: int) -> int {
    let lo = if d.min <= total {
        d.min as int
    } else {
        total as int
    };
    let v = target_base(d, total) + adjustment;
    if v < lo {
        lo
    } else {
        v
    }
}

/// Fake protocol header put in front of `data`; the DNS header's last two
/// flag bytes are the given random bytes.
pub open spec fn shaped_prefix(p: MimicProtocol, data: Seq<u8>, r: Seq<u8>) -> Seq<u8> {
    match p {
        MimicProtocol::TLS => seq![0x17u8, 0x03u8, 0x03u8] + u16_be(data.len() as u16),
        MimicProtocol::HTTP2 => seq![0u8, 0u8, 1u8, 1u8, 4u8, 0u8, 0u8, 0u8, 1u8],
        MimicProtocol::DNS => seq![0u8, 0u8, 1u8, 0u8, r[0], r[1]],
        _ => Seq::empty(),
    }
}

/// Bytes that `strip_prefix` removes from the front of `data`.
pub open spec fn shaped_strip_len(p: MimicProtocol, data: Seq<u8>) -> int {
    if data.len() < 5 {
        0
    } else {
        match p {
            MimicProtocol::TLS => if data[0] == 0x17u8 && data[1] == 0x03u8 && data[2] == 0x03u8 {
                5
            } else {
                0
            },
            MimicProtocol::HTTP2 => if data.len() >= 9 && (data[3] == 0x01u8 || data[3] == 0x00u8) {
                9
            } else {
                0
            },
            MimicProtocol::DNS => if data.len() >= 12 {
                12
            } else {
                0
            },
            _ => 0,
        }
    }
}

/// Traffic shaper for one protocol's profile.
pub struct TrafficOrchestrator {
    protocol: MimicProtocol,
    distribution: LengthDistribution,
    padding_range: (usize, usize),
    prefix_enabled: bool,
}

impl TrafficOrchestrator {
    pub closed spec fn protocol_view(&self) -> MimicProtocol {
        self.protocol
    }

    pub closed spec fn distribution_view(&self) -> LengthDistribution {
        self.distribution
    }

    pub closed spec fn prefix_view(&self) -> bool {
        self.prefix_enabled
    }

    /// The profile's nominal padding range (inclusive); `add_padding` pads to
    /// the target length and does not read it.
    pub closed spec fn padding_range_view(&self) -> (usize, usize) {
        self.padding_range
    }

    /// Sizes of the profile are small enough for 32-bit signed arithmetic.
    pub closed spec fn wf(&self) -> bool {
        &&& self.distribution.min <= 65535
        &&& self.distribution.max <= 65535
        &&& forall|i: int|
            0 <= i < self.distribution.buckets@.len() ==> (#[trigger] self.distribution.buckets@[i]).0
                <= 65535
    }

    /// The shaper for `protocol` with its length profile (TLS's for custom
    /// traffic).
    pub fn new(protocol: MimicProtocol) -> (t: TrafficOrchestrator)
        ensures
            t.wf(),
            t.protocol_view() == protocol,
            t.prefix_view(),
            t.padding_range_view() == (0usize, 127usize),
            t.distribution_view().min == match protocol {
                MimicProtocol::HTTP2 => 24usize,
                MimicProtocol::DNS => 29,
                MimicProtocol::WebSocket => 2,
                _ => 40,
            },
            t.distribution_view().max == match protocol {
                MimicProtocol::HTTP2 => 16384usize,
                MimicProtocol::DNS => 512,
                MimicProtocol::WebSocket => 65535,
                _ => 16400,
            },
            t.distribution_view().buckets@ == match protocol {
                MimicProtocol::HTTP2 => seq![(24usize, 30usize), (64, 25), (256, 25), (1400, 20)],
                MimicProtocol::DNS => seq![(29usize, 40usize), (64, 30), (128, 20), (512, 10)],
                MimicProtocol::WebSocket => seq![(2usize, 30usize), (64, 30), (1024, 25), (1400, 15)],
                _ => seq![(64usize, 10usize), (128, 20), (256, 25), (512, 20), (1024, 15), (1400, 10)],
            },
    {
        let distribution = match protocol {
            MimicProtocol::HTTP2 => LengthDistribution {
                min: 24,
                max: 16384,
                buckets: vec![(24, 30), (64, 25), (256, 25), (1400, 20)],
            },
            MimicProtocol::DNS => LengthDistribution {
                min: 29,
                max: 512,
                buckets: vec![(29, 40), (64, 30), (128, 20), (512, 10)],
            },
            MimicProtocol::WebSocket => LengthDistribution {
                min: 2,
                max: 65535,
                buckets: vec![(2, 30), (64, 30), (1024, 25), (1400, 15)],
            },
            _ => tls_distribution(),
        };
        TrafficOrchestrator { protocol, distribution, padding_range: (0, 127), prefix_enabled: true }
    }

    /// The base size for `total` bytes (see `target_base`).
    fn base_size(&self, total: usize) -> (b: usize)
        requires
            self.wf(),
        ensures
            b == target_base(self.distribution, total),
            b <= 65535,
    {
        let buckets = &self.distribution.buckets;
        if buckets.len() == 0 {
            return self.distribution.max;
        }
        let mut best = buckets[0].0;
        let mut best_dist = if best <= total {
            total - best
        } else {
            best - total
        };
        let mut i: usize = 1;
        assert(buckets@.take(1).len() == 1);
        while i < buckets.len()
            invariant
                self.wf(),
                buckets == &self.distribution.buckets,
                1 <= i <= buckets@.len(),
                best == nearest_start(buckets@.take(i as int), total),
                best_dist == size_distance(best, total),
                best <= 65535,
            decreases buckets@.len() - i,
        {
            let start = buckets[i].0;
            let d = if start <= total {
                total - start
            } else {
                start - total
            };
            proof {
                let t = buckets@.take(i + 1);
                assert(t.drop_last() =~= buckets@.take(i as int));
                assert(t.last() == buckets@[i as int]);
            }
            if d < best_dist {
                best = start;
                best_dist = d;
            }
            i += 1;
        }
        assert(buckets@.take(buckets@.len() as int) =~= buckets@);
        best
    }

    /// The target length for `total` bytes with a given adjustment, which
    /// lies within a tenth of the base size either way.
    pub fn target_with(&self, payload_size: usize, adjustment: i32) -> (n: usize)
        requires
            self.wf(),
            -((target_base(self.distribution_view(), payload_size) / 10) as int) <= adjustment
                <= target_base(self.distribution_view(), payload_size) / 10,
        ensures
            n == target_for(self.distribution_view(), payload_size, adjustment as int),
    {
        let bucket = self.base_size(payload_size);
        let lo: usize = if self.distribution.min <= payload_size {
            self.distribution.min
        } else {
            payload_size
        };
        let v: i32 = bucket as i32 + adjustment;
        if v < lo as i32 {
            lo
        } else {
            v as usize
        }
    }

    /// A target length near the profile's typical size for `payload_size`,
    /// moved at random by up to a tenth of that size either way.
    pub fn target_length(&self, payload_size: usize) -> (n: usize)
        requires
            self.wf(),
        ensures
            exists|adj: int|
                -((target_base(self.distribution_view(), payload_size) / 10) as int) <= adj
                    <= target_base(self.distribution_view(), payload_size) / 10 && n == target_for(
                    self.distribution_view(),
                    payload_size,
                    adj,
                ),
    {
        let bucket = self.base_size(payload_size);
        let jitter: i32 = (bucket / 10) as i32;
        let adjustment: i32 = if jitter > 0 {
            random_i32_inclusive(-jitter, jitter)
        } else {
            0
        };
        let n = self.target_with(payload_size, adjustment);
        assert(n == target_for(self.distribution_view(), payload_size, adjustment as int));
        n
    }

    /// Pads `data` up to `target_len` with padding of the given kind when it
    /// is shorter; longer data is left as it is.
    pub fn pad_with(&self, data: &mut Vec<u8>, target_len: usize, kind: usize, random: &[u8])
        requires
            kind >= 2 && old(data)@.len() < target_len ==> random@.len() >= target_len - old(
                data,
            )@.len(),
        ensures
            old(data)@.len() < target_len ==> final(data)@ == old(data)@ + padding_of(
                (target_len - old(data)@.len()) as nat,
                kind,
                random@,
            ),
            old(data)@.len() >= target_len ==> final(data)@ == old(data)@,
    {
        if data.len() < target_len {
            let diff = target_len - data.len();
            let pad = padding_bytes(diff, kind, random);
            append_bytes(data, pad.as_slice());
        }
    }

    /// Pads `data` up to `target_len` with tail padding of zeros, 0x80 bytes
    /// or random bytes, chosen at random; data already that long is left as
    /// it is.
    pub fn add_padding(&self, data: &mut Vec<u8>, target_len: usize)
        ensures
            old(data)@.len() < target_len ==> {
                &&& final(data)@.len() == target_len
                &&& exists|kind: usize, r: Seq<u8>|
                    kind <= 2 && (kind == 2 ==> r.len() >= target_len - old(data)@.len())
                        && #[trigger] padding_of((target_len - old(data)@.len()) as nat, kind, r)
                        == final(data)@.subrange(old(data)@.len() as int, target_len as int)
                &&& final(data)@.subrange(0, old(data)@.len() as int) == old(data)@
            },
            old(data)@.len() >= target_len ==> final(data)@ == old(data)@,
    {
        if data.len() < target_len {
            let diff = target_len - data.len();
            let kind = random_usize_inclusive(0, 2);
            let random = if kind >= 2 {
                random_bytes(diff)
            } else {
                Vec::new()
            };
            self.pad_with(data, target_len, kind, random.as_slice());
            proof {
                let o = old(data)@;
                let pad = padding_of(diff as nat, kind, random@);
                assert(data@.subrange(0, o.len() as int) =~= o);
                assert(data@.subrange(o.len() as int, target_len as int) =~= pad);
            }
        }
    }

    /// Puts the protocol's fake header in front of `data`, with the given
    /// random bytes as the DNS header's last two flag bytes.
    pub fn prefix_with(&self, data: &mut Vec<u8>, random: &[u8; 2])
        ensures
            final(data)@ == if self.prefix_view() {
                shaped_prefix(self.protocol_view(), old(data)@, random@) + old(data)@
            } else {
                old(data)@
            },
    {
        if !self.prefix_enabled {
            return;
        }
        match self.protocol {
            MimicProtocol::TLS => {
                let x: u16 = data.len() as u16;
                let p = [0x17u8, 0x03u8, 0x03u8, (x >> 8u16) as u8, (x & 0xffu16) as u8];
                assert(p@ =~= shaped_prefix(self.protocol, data@, random@));
                prepend(data, &p);
            },
            MimicProtocol::HTTP2 => {
                let p = [0u8, 0u8, 1u8, 1u8, 4u8, 0u8, 0u8, 0u8, 1u8];
                assert(p@ =~= shaped_prefix(self.protocol, data@, random@));
                prepend(data, &p);
            },
            MimicProtocol::DNS => {
                let p = [0u8, 0u8, 1u8, 0u8, random[0], random[1]];
                assert(p@ =~= shaped_prefix(self.protocol, data@, random@));
                prepend(data, &p);
            },
            _ => {
                assert(shaped_prefix(self.protocol, data@, random@) + data@ =~= data@);
            },
        }
    }

    /// Puts the protocol's fake header in front of `data` (the DNS header
    /// gets random flag bytes).
    pub fn add_prefix(&self, data: &mut Vec<u8>)
        ensures
            exists|r: Seq<u8>|
                r.len() == 2 && final(data)@ == if self.prefix_view() {
                    shaped_prefix(self.protocol_view(), old(data)@, r) + old(data)@
                } else {
                    old(data)@
                },
    {
        let bytes = random_bytes(2);
        let r = [bytes[0], bytes[1]];
        self.prefix_with(data, &r);
    }

    /// Removes the protocol's header from the front of `data`, when present:
    /// a TLS record header, an HTTP/2 frame header, or 12 DNS header bytes.
    pub fn strip_prefix(&self, data: &mut Vec<u8>)
        ensures
            final(data)@ == old(data)@.subrange(
                shaped_strip_len(self.protocol_view(), old(data)@),
                old(data)@.len() as int,
            ),
    {
        if data.len() < 5 {
            assert(data@.subrange(0, data@.len() as int) =~= data@);
            return;
        }
        let n: usize = match self.protocol {
            MimicProtocol::TLS => if data[0] == 0x17 && data[1] == 0x03 && data[2] == 0x03 {
                5
            } else {
                0
            },
            MimicProtocol::HTTP2 => if data.len() >= 9 && (data[3] == 0x01 || data[3] == 0x00) {
                9
            } else {
                0
            },
            MimicProtocol::DNS => if data.len() >= 12 {
                12
            } else {
                0
            },
            _ => 0,
        };
        drop_front(data, n);
    }

    /// A random heartbeat of 40 to 1400 random bytes (with a TLS record
    /// header for TLS).
    pub fn gen_heartbeat(&self) -> (data: Vec<u8>)
        ensures
            40 <= data@.len() <= 1400,
            self.protocol_view() == MimicProtocol::TLS ==> data@.subrange(0, 5) == seq![
                0x17u8,
                0x03u8,
                0x03u8,
            ] + u16_be((data@.len() - 5) as u16),
    {
        let size = random_usize_inclusive(40, 1400);
        let raw = random_bytes(size);
        let out = stamp_heartbeat(self.protocol, raw);
        proof {
            if self.protocol == MimicProtocol::TLS {
                let hdr = seq![0x17u8, 0x03u8, 0x03u8] + u16_be((raw@.len() - 5) as u16);
                assert(out@.subrange(0, 5) =~= hdr);
            }
        }
        out
    }
}

/// Stripping what `add_prefix` added gives the data back, for every
/// protocol but DNS (whose 6-byte header is stripped as 12 bytes).
pub proof fn lemma_shaped_prefix_roundtrip(t: TrafficOrchestrator, data: Seq<u8>, r: Seq<u8>)
    requires
        t.prefix_view(),
        t.protocol_view() != MimicProtocol::DNS,
        r.len() == 2,
    ensures
        ({
            let added = shaped_prefix(t.protocol_view(), data, r) + data;
            added.subrange(shaped_strip_len(t.protocol_view(), added), added.len() as int) == data
        }),
{
    let p = t.protocol_view();
    let pre = shaped_prefix(p, data, r);
    let added = pre + data;
    assert(added.subrange(pre.len() as int, added.len() as int) =~= data);
    if p == MimicProtocol::TLS {
        assert(added[0] == 0x17u8 && added[1] == 0x03u8 && added[2] == 0x03u8);
    }
    if p == MimicProtocol::HTTP2 {
        assert(added[3] == 0x01u8);
    }
}

} // verus!
