//! HKDF-SHA256 key derivation with strict domain separation.
//!
//! The master key is HKDF(salt = planet salt, ikm = hybrid shared secret);
//! every domain key expands the master key with its own info label.

use vstd::prelude::*;
use crate::bytes::append_bytes;
use vstd::string::StringSliceAdditionalSpecFns;
use crate::crypto::primitives::{hkdf_sha256, hkdf_sha256_output};

verus! {

/// ASCII decimal digits of `n`.
pub open spec fn decimal_ascii(n: nat) -> Seq<u8>
    decreases n,
{
    if n < 10 {
        seq![(48 + n) as u8]
    } else {
        decimal_ascii(n / 10) + seq![(48 + n % 10) as u8]
    }
}

/// The decimal digits of `n`, as `format!("{}", n)` writes them.
pub fn decimal_bytes(n: u32) -> (digits: Vec<u8>)
    ensures
        digits@ == decimal_ascii(n as nat),
    decreases n,
{
    if n < 10 {
        let mut v: Vec<u8> = Vec::new();
        v.push(48u8 + n as u8);
        assert(v@ =~= decimal_ascii(n as nat));
        v
    } else {
        let mut v = decimal_bytes(n / 10);
        v.push(48u8 + (n % 10) as u8);
        assert(v@ =~= decimal_ascii(n as nat));
        v
    }
}

/// A byte that is an ASCII decimal digit.
pub open spec fn is_digit_byte(b: u8) -> bool {
    48 <= b <= 57
}

/// The info label of a ratchet generation: `"{info}-RatchetGen{generation}"`.
pub open spec fn ratchet_label(info: Seq<u8>, generation: nat) -> Seq<u8> {
    info + "-RatchetGen".spec_bytes() + decimal_ascii(generation)
}

proof fn lemma_decimal_digits(n: nat)
    ensures
        decimal_ascii(n).len() >= 1,
        n >= 10 ==> decimal_ascii(n).len() >= 2,
        forall|i: int| 0 <= i < decimal_ascii(n).len() ==> is_digit_byte(#[trigger] decimal_ascii(n)[i]),
    decreases n,
{
    if n >= 10 {
        lemma_decimal_digits(n / 10);
        let d = decimal_ascii(n);
        let p = decimal_ascii(n / 10);
        assert forall|i: int| 0 <= i < d.len() implies is_digit_byte(#[trigger] d[i]) by {
            if i < p.len() {
                assert(d[i] == p[i]);
            }
        }
    }
}

proof fn lemma_decimal_injective(a: nat, b: nat)
    requires
        decimal_ascii(a) == decimal_ascii(b),
    ensures
        a == b,
    decreases a,
{
    lemma_decimal_digits(a);
    lemma_decimal_digits(b);
    let da = decimal_ascii(a);
    let db = decimal_ascii(b);
    if a >= 10 && b >= 10 {
        assert(decimal_ascii(a / 10) =~= da.drop_last());
        assert(decimal_ascii(b / 10) =~= db.drop_last());
        lemma_decimal_injective(a / 10, b / 10);
        assert(da.last() == (48 + a % 10) as u8);
        assert(db.last() == (48 + b % 10) as u8);
        assert(a == (a / 10) * 10 + a % 10);
        assert(b == (b / 10) * 10 + b % 10);
    } else if a < 10 && b < 10 {
        assert(da[0] == (48 + a) as u8);
        assert(db[0] == (48 + b) as u8);
    } else {
        assert(da.len() != db.len());
    }
}

/// Two splits of one byte string into a part that ends in a non-digit and
/// a digit tail are the same split.
proof fn lemma_digit_tail_split(p1: Seq<u8>, d1: Seq<u8>, p2: Seq<u8>, d2: Seq<u8>)
    requires
        p1 + d1 == p2 + d2,
        p1.len() > 0,
        p2.len() > 0,
        !is_digit_byte(p1.last()),
        !is_digit_byte(p2.last()),
        forall|i: int| 0 <= i < d1.len() ==> is_digit_byte(#[trigger] d1[i]),
        forall|i: int| 0 <= i < d2.len() ==> is_digit_byte(#[trigger] d2[i]),
    ensures
        p1 == p2,
        d1 == d2,
{
    let l = p1 + d1;
    let r = p2 + d2;
    assert(l == r);
    assert(l.len() == p1.len() + d1.len());
    assert(r.len() == p2.len() + d2.len());
    if d1.len() < d2.len() {
        let k = p1.len() - 1;
        assert(p2.len() <= k);
        assert(l[k] == p1.last());
        assert(r[k] == d2[k - p2.len()]);
        assert(is_digit_byte(d2[k - p2.len()]));
    } else if d2.len() < d1.len() {
        let k = p2.len() - 1;
        assert(p1.len() <= k);
        assert(r[k] == p2.last());
        assert(l[k] == d1[k - p1.len()]);
        assert(is_digit_byte(d1[k - p1.len()]));
    }
    assert(p1 =~= l.subrange(0, p1.len() as int));
    assert(p2 =~= r.subrange(0, p2.len() as int));
    assert(d1 =~= l.subrange(p1.len() as int, l.len() as int));
    assert(d2 =~= r.subrange(p2.len() as int, l.len() as int));
}

/// Different (info, generation) pairs give different ratchet labels, so
/// every generation of every domain is expanded under its own HKDF info.
pub proof fn lemma_ratchet_labels_distinct(info1: &str, generation1: u32, info2: &str, generation2: u32)
    requires
        info1@ != info2@ || generation1 != generation2,
    ensures
        ratchet_label(info1.spec_bytes(), generation1 as nat) != ratchet_label(
            info2.spec_bytes(),
            generation2 as nat,
        ),
{
    let sep = "-RatchetGen".spec_bytes();
    reveal_strlit("-RatchetGen");
    vstd::utf8::is_ascii_chars_encode_utf8("-RatchetGen"@);
    assert(sep.len() == 11);
    assert(sep.last() == 110u8);
    let p1 = info1.spec_bytes() + sep;
    let p2 = info2.spec_bytes() + sep;
    let d1 = decimal_ascii(generation1 as nat);
    let d2 = decimal_ascii(generation2 as nat);
    lemma_decimal_digits(generation1 as nat);
    lemma_decimal_digits(generation2 as nat);
    assert(ratchet_label(info1.spec_bytes(), generation1 as nat) == p1 + d1);
    assert(ratchet_label(info2.spec_bytes(), generation2 as nat) == p2 + d2);
    if p1 + d1 == p2 + d2 {
        assert(p1.last() == sep.last());
        assert(p2.last() == sep.last());
        lemma_digit_tail_split(p1, d1, p2, d2);
        lemma_decimal_injective(generation1 as nat, generation2 as nat);
        assert(info1.spec_bytes() =~= p1.subrange(0, info1.spec_bytes().len() as int));
        assert(info2.spec_bytes() =~= p2.subrange(0, info2.spec_bytes().len() as int));
        vstd::utf8::encode_utf8_decode_utf8(info1@);
        vstd::utf8::encode_utf8_decode_utf8(info2@);
    }
}

/// The master key for a shared secret and a planet salt.
pub open spec fn master_key(shared: Seq<u8>, salt: Seq<u8>) -> Seq<u8> {
    hkdf_sha256_output(Some(salt), shared, "StarCompass-Master-v1".spec_bytes(), 32)
}

/// Domain key `len` bytes long for an info label under a master key.
pub open spec fn domain_key(master: Seq<u8>, info: Seq<u8>, len: nat) -> Seq<u8> {
    hkdf_sha256_output(None, master, info, len)
}

/// Key deriver holding the master key.
pub struct KeyDeriver {
    master_key: [u8; 32],
}

impl KeyDeriver {
    pub closed spec fn master_view(&self) -> Seq<u8> {
        self.master_key@
    }

    /// HKDF-Extract: master key from the hybrid shared secret and the planet
    /// salt.
    pub fn extract_master(shared_secret: &[u8; 64], salt_planet: &[u8]) -> (d: KeyDeriver)
        ensures
            d.master_view() == master_key(shared_secret@, salt_planet@),
    {
        let okm = hkdf_sha256(Some(salt_planet), shared_secret, "StarCompass-Master-v1".as_bytes(), 32);
        let master = crate::bytes::to_array32(okm.as_slice());
        KeyDeriver { master_key: master }
    }

    /// The domain key for raw info bytes.
    fn derive_bytes(&self, info: &[u8], len: usize) -> (okm: Vec<u8>)
        requires
            len <= 8160,
        ensures
            okm@ == domain_key(self.master_view(), info@, len as nat),
            okm@.len() == len,
    {
        hkdf_sha256(None, &self.master_key, info, len)
    }

    /// HKDF-Expand: fills `output` with the domain key for `info`.  An
    /// output longer than HKDF-SHA256 can give (8160 bytes) is left as it
    /// was.
    pub fn derive(&self, info: &str, output: &mut [u8])
        ensures
            old(output)@.len() <= 8160 ==> final(output)@ == domain_key(
                self.master_view(),
                info.spec_bytes(),
                old(output)@.len(),
            ),
            old(output)@.len() > 8160 ==> final(output)@ == old(output)@,
    {
        let len = output.len();
        if len > 8160 {
            return;
        }
        let okm = self.derive_bytes(info.as_bytes(), len);
        for i in 0..len
            invariant
                len == output@.len(),
                okm@.len() == len,
                forall|k: int| 0 <= k < i ==> output@[k] == okm@[k],
        {
            output[i] = okm[i];
        }
        assert(output@ =~= okm@);
    }

    fn derive32(&self, info: &str) -> (k: [u8; 32])
        ensures
            k@ == domain_key(self.master_view(), info.spec_bytes(), 32),
    {
        let okm = self.derive_bytes(info.as_bytes(), 32);
        crate::bytes::to_array32(okm.as_slice())
    }

    /// K1: manifest encryption key.
    pub fn derive_k1(&self) -> (k: [u8; 32])
        ensures
            k@ == domain_key(self.master_view(), "StarCompass-Manifest-Encryption".spec_bytes(), 32),
    {
        self.derive32("StarCompass-Manifest-Encryption")
    }

    /// K2: content encryption key.
    pub fn derive_k2(&self) -> (k: [u8; 32])
        ensures
            k@ == domain_key(self.master_view(), "StarCompass-Content-Encryption".spec_bytes(), 32),
    {
        self.derive32("StarCompass-Content-Encryption")
    }

    /// K4: transport HMAC key.
    pub fn derive_k4(&self) -> (k: [u8; 32])
        ensures
            k@ == domain_key(self.master_view(), "StarCompass-Transport-HMAC".spec_bytes(), 32),
    {
        self.derive32("StarCompass-Transport-HMAC")
    }

    /// K_block: block authentication key.
    pub fn derive_k_block(&self) -> (k: [u8; 32])
        ensures
            k@ == domain_key(self.master_view(), "StarCompass-Block-Auth".spec_bytes(), 32),
    {
        self.derive32("StarCompass-Block-Auth")
    }

    /// The 12-byte nonce base.
    pub fn derive_nonce_base(&self) -> (n: [u8; 12])
        ensures
            n@ == domain_key(self.master_view(), "StarCompass-Nonce-Base".spec_bytes(), 12),
    {
        let okm = self.derive_bytes("StarCompass-Nonce-Base".as_bytes(), 12);
        crate::bytes::to_array12(okm.as_slice())
    }

    /// Domain key for `info` at a ratchet generation: the label is
    /// `"{info}-RatchetGen{generation}"`.
    pub fn derive_with_ratchet(&self, info: &str, ratchet_generation: u32) -> (k: [u8; 32])
        ensures
            k@ == domain_key(self.master_view(), ratchet_label(info.spec_bytes(), ratchet_generation as nat), 32),
    {
        let mut label: Vec<u8> = Vec::new();
        append_bytes(&mut label, info.as_bytes());
        append_bytes(&mut label, "-RatchetGen".as_bytes());
        let digits = decimal_bytes(ratchet_generation);
        append_bytes(&mut label, digits.as_slice());
        let okm = self.derive_bytes(label.as_slice(), 32);
        crate::bytes::to_array32(okm.as_slice())
    }

    /// 0-RTT key: independent of the planet salt.
    pub fn derive_0rtt(preshared_secret: &[u8; 32]) -> (k: [u8; 32])
        ensures
            k@ == hkdf_sha256_output(None, preshared_secret@, "StarCompass-0RTT-Data".spec_bytes(), 32),
    {
        let okm = hkdf_sha256(None, preshared_secret, "StarCompass-0RTT-Data".as_bytes(), 32);
        crate::bytes::to_array32(okm.as_slice())
    }
}

} // verus!
