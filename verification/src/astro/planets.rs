//! Seven luminaries, eight trigrams, and the three-source salt.
//!
//! The planet part of the salt is 21 binary lines: each of the seven
//! luminaries contributes the three bits of the trigram of its ecliptic
//! palace, lowest bit first.

use vstd::prelude::*;
use crate::bytes::append_bytes;

verus! {

/// The seven luminaries.
#[derive(Debug, Clone, Copy, PartialEq, Eq, Structural)]
pub enum Planet {
    Sun,
    Moon,
    Mercury,
    Venus,
    Mars,
    Jupiter,
    Saturn,
}

impl Planet {
    pub fn all() -> (ps: [Planet; 7])
        ensures
            ps@ == seq![
                Planet::Sun,
                Planet::Moon,
                Planet::Mercury,
                Planet::Venus,
                Planet::Mars,
                Planet::Jupiter,
                Planet::Saturn,
            ],
    {
        let ps = [
            Planet::Sun,
            Planet::Moon,
            Planet::Mercury,
            Planet::Venus,
            Planet::Mars,
            Planet::Jupiter,
            Planet::Saturn,
        ];
        assert(ps@ =~= seq![
            Planet::Sun,
            Planet::Moon,
            Planet::Mercury,
            Planet::Venus,
            Planet::Mars,
            Planet::Jupiter,
            Planet::Saturn,
        ]);
        ps
    }

    /// Planet name (used in HKDF info labels).
    pub fn name(&self) -> (n: &'static str)
        ensures
            n@ == (match *self {
                Planet::Sun => "Sun"@,
                Planet::Moon => "Moon"@,
                Planet::Mercury => "Mercury"@,
                Planet::Venus => "Venus"@,
                Planet::Mars => "Mars"@,
                Planet::Jupiter => "Jupiter"@,
                Planet::Saturn => "Saturn"@,
            }),
    {
        match self {
            Planet::Sun => "Sun",
            Planet::Moon => "Moon",
            Planet::Mercury => "Mercury",
            Planet::Venus => "Venus",
            Planet::Mars => "Mars",
            Planet::Jupiter => "Jupiter",
            Planet::Saturn => "Saturn",
        }
    }
}

/// The eight trigrams, in palace order.
#[derive(Debug, Clone, Copy, PartialEq, Eq, Structural)]
pub enum Hexagram {
    Qian,
    Kun,
    Zhen,
    Xun,
    Kan,
    Li,
    Gen,
    Dui,
}

/// The 3-bit code of a trigram (its palace number).
pub open spec fn hexagram_code(h: Hexagram) -> u8 {
    match h {
        Hexagram::Qian => 0,
        Hexagram::Kun => 1,
        Hexagram::Zhen => 2,
        Hexagram::Xun => 3,
        Hexagram::Kan => 4,
        Hexagram::Li => 5,
        Hexagram::Gen => 6,
        Hexagram::Dui => 7,
    }
}

impl Hexagram {
    /// The trigram whose code is the low three bits of `bits`; every byte
    /// has one.
    pub fn from_bits(bits: u8) -> (h: Option<Hexagram>)
        ensures
            h matches Some(t) && hexagram_code(t) == bits % 8,
    {
        let low = bits & 0x7;
        assert(low == bits % 8) by (bit_vector)
            requires
                low == bits & 0x7,
        ;
        match low {
            0 => Some(Hexagram::Qian),
            1 => Some(Hexagram::Kun),
            2 => Some(Hexagram::Zhen),
            3 => Some(Hexagram::Xun),
            4 => Some(Hexagram::Kan),
            5 => Some(Hexagram::Li),
            6 => Some(Hexagram::Gen),
            7 => Some(Hexagram::Dui),
            _ => None,
        }
    }

    /// The 3-bit code.
    pub fn to_bits(&self) -> (b: u8)
        ensures
            b == hexagram_code(*self),
    {
        match self {
            Hexagram::Qian => 0,
            Hexagram::Kun => 1,
            Hexagram::Zhen => 2,
            Hexagram::Xun => 3,
            Hexagram::Kan => 4,
            Hexagram::Li => 5,
            Hexagram::Gen => 6,
            Hexagram::Dui => 7,
        }
    }

    pub fn name_cn(&self) -> (n: &'static str)
        ensures
            n@ == (match *self {
                Hexagram::Qian => "乾"@,
                Hexagram::Kun => "坤"@,
                Hexagram::Zhen => "震"@,
                Hexagram::Xun => "巽"@,
                Hexagram::Kan => "坎"@,
                Hexagram::Li => "离"@,
                Hexagram::Gen => "艮"@,
                Hexagram::Dui => "兑"@,
            }),
    {
        match self {
            Hexagram::Qian => "乾",
            Hexagram::Kun => "坤",
            Hexagram::Zhen => "震",
            Hexagram::Xun => "巽",
            Hexagram::Kan => "坎",
            Hexagram::Li => "离",
            Hexagram::Gen => "艮",
            Hexagram::Dui => "兑",
        }
    }

    pub fn symbol(&self) -> (s: &'static str)
        ensures
            s@ == (match *self {
                Hexagram::Qian => "☰"@,
                Hexagram::Kun => "☷"@,
                Hexagram::Zhen => "☳"@,
                Hexagram::Xun => "☴"@,
                Hexagram::Kan => "☵"@,
                Hexagram::Li => "☲"@,
                Hexagram::Gen => "☶"@,
                Hexagram::Dui => "☱"@,
            }),
    {
        match self {
            Hexagram::Qian => "☰",
            Hexagram::Kun => "☷",
            Hexagram::Zhen => "☳",
            Hexagram::Xun => "☴",
            Hexagram::Kan => "☵",
            Hexagram::Li => "☲",
            Hexagram::Gen => "☶",
            Hexagram::Dui => "☱",
        }
    }
}

/// The 21 lines for seven trigrams: trigram `p` gives lines `3p..3p+3`,
/// lowest bit first.
pub open spec fn planet_lines(hexes: Seq<Hexagram>) -> Seq<u8> {
    Seq::new(21, |i: int| (hexagram_code(hexes[i / 3]) >> ((i % 3) as u8)) & 1u8)
}

/// Lines `3p`, `3p + 1` and `3p + 2` of `l` are bits (0 or 1).
pub open spec fn planet_lines_are_bits(l: Seq<u8>, p: int) -> bool {
    l[3 * p] <= 1 && l[3 * p + 1] <= 1 && l[3 * p + 2] <= 1
}

/// Lines `3p`, `3p + 1` and `3p + 2` of `l` read as the binary digits of a
/// number, lowest first.
pub open spec fn planet_trigram_read(l: Seq<u8>, p: int) -> int {
    l[3 * p] + 2 * l[3 * p + 1] + 4 * l[3 * p + 2]
}

/// The planet lines read back as the trigrams they came from: for every
/// planet `p`, its three lines are bits and, lowest first, give the code of
/// planet `p`'s trigram.
pub proof fn lemma_planet_lines_read_back(hexes: Seq<Hexagram>)
    requires
        hexes.len() == 7,
    ensures
        planet_lines(hexes).len() == 21,
        forall|p: int|
            0 <= p < 7 ==> #[trigger] planet_lines_are_bits(planet_lines(hexes), p),
        forall|p: int|
            0 <= p < 7 ==> #[trigger] planet_trigram_read(planet_lines(hexes), p) == hexagram_code(
                hexes[p],
            ),
{
    assert forall|p: int| 0 <= p < 7 implies #[trigger] planet_lines_are_bits(planet_lines(hexes), p)
        && planet_trigram_read(planet_lines(hexes), p) == hexagram_code(hexes[p]) by {
        lemma_read_one(hexes, p);
    }
    assert forall|p: int| 0 <= p < 7 implies #[trigger] planet_trigram_read(planet_lines(hexes), p)
        == hexagram_code(hexes[p]) by {
        lemma_read_one(hexes, p);
    }
}

proof fn lemma_read_one(hexes: Seq<Hexagram>, p: int)
    requires
        hexes.len() == 7,
        0 <= p < 7,
    ensures
        ({
            let l = planet_lines(hexes);
            &&& l[3 * p] <= 1
            &&& l[3 * p + 1] <= 1
            &&& l[3 * p + 2] <= 1
            &&& l[3 * p] + 2 * l[3 * p + 1] + 4 * l[3 * p + 2] == hexagram_code(hexes[p])
        }),
{
    let l = planet_lines(hexes);
    let c = hexagram_code(hexes[p]);
    lemma_line_index(p);
    lemma_code_bits(c);
    let a = 3 * p;
    assert(l[a] == (hexagram_code(hexes[a / 3]) >> ((a % 3) as u8)) & 1u8);
    assert(l[a + 1] == (hexagram_code(hexes[(a + 1) / 3]) >> (((a + 1) % 3) as u8)) & 1u8);
    assert(l[a + 2] == (hexagram_code(hexes[(a + 2) / 3]) >> (((a + 2) % 3) as u8)) & 1u8);
    assert(l[a] == (c >> 0u8) & 1u8);
    assert(l[a + 1] == (c >> 1u8) & 1u8);
    assert(l[a + 2] == (c >> 2u8) & 1u8);
}

proof fn lemma_line_index(p: int)
    requires
        0 <= p,
    ensures
        (3 * p) / 3 == p,
        (3 * p + 1) / 3 == p,
        (3 * p + 2) / 3 == p,
        (3 * p) % 3 == 0,
        (3 * p + 1) % 3 == 1,
        (3 * p + 2) % 3 == 2,
{
}

proof fn lemma_code_bits(c: u8)
    requires
        c < 8,
    ensures
        (c >> 0u8) & 1u8 <= 1,
        (c >> 1u8) & 1u8 <= 1,
        (c >> 2u8) & 1u8 <= 1,
        ((c >> 0u8) & 1u8) + 2 * ((c >> 1u8) & 1u8) + 4 * ((c >> 2u8) & 1u8) == c,
{
    assert(((c >> 0u8) & 1u8) <= 1 && ((c >> 1u8) & 1u8) <= 1 && ((c >> 2u8) & 1u8) <= 1
        && ((c >> 0u8) & 1u8) + 2 * ((c >> 1u8) & 1u8) + 4 * ((c >> 2u8) & 1u8) == c) by (bit_vector)
        requires
            c < 8,
    ;
}

/// One byte of the hex rendering: line `2k` in the low nibble, line `2k+1`
/// (zero past the end) shifted into the high nibble.
pub open spec fn packed_line_byte(bits: Seq<u8>, k: int) -> u8 {
    let lo = bits[2 * k] & 0xfu8;
    let hi: u8 = if 2 * k + 1 < bits.len() {
        bits[2 * k + 1]
    } else {
        0u8
    };
    ((hi << 4u8) | lo) as u8
}

/// Hex rendering of 21 lines: 11 bytes, two lowercase digits each.
pub open spec fn lines_hex_string(bits: Seq<u8>) -> Seq<char> {
    Seq::new(
        22,
        |i: int|
            if i % 2 == 0 {
                crate::text::hex_digit(packed_line_byte(bits, i / 2) as int / 16)
            } else {
                crate::text::hex_digit(packed_line_byte(bits, i / 2) as int % 16)
            },
    )
}

/// `String::push`.  Claimed: the character is appended.
#[verifier::external_body]
fn push_char(s: &mut String, c: char)
    ensures
        final(s)@ == old(s)@.push(c),
{
    s.push(c)
}

/// Lowercase hex digit of a value below 16.
fn hex_digit_char(d: u8) -> (c: char)
    requires
        d < 16,
    ensures
        c == crate::text::hex_digit(d as int),
{
    if d < 10 {
        (48u8 + d) as char
    } else {
        (87u8 + d) as char
    }
}

/// Ecliptic palace computations that need no floating point.
pub struct PlanetCalculator;

impl PlanetCalculator {
    pub fn new() -> (c: PlanetCalculator) {
        PlanetCalculator
    }

    /// Lines of the planet trigram: seven trigrams (in `Planet::all` order)
    /// to 21 bits, three per planet, lowest bit first.
    pub fn planet_hexagram_bits(hexes: &[Hexagram; 7]) -> (bits: [u8; 21])
        ensures
            bits@ == planet_lines(hexes@),
            forall|p: int| 0 <= p < 7 ==> #[trigger] planet_lines_are_bits(bits@, p),
            forall|p: int|
                0 <= p < 7 ==> #[trigger] planet_trigram_read(bits@, p) == hexagram_code(hexes@[p]),
    {
        proof {
            lemma_planet_lines_read_back(hexes@);
        }
        let mut bits = [0u8; 21];
        for i in 0..7
            invariant
                forall|k: int| 0 <= k < 3 * i ==> #[trigger] bits@[k] == planet_lines(hexes@)[k],
        {
            let hb = hexes[i].to_bits();
            bits[i * 3] = (hb >> 0u8) & 1;
            bits[i * 3 + 1] = (hb >> 1u8) & 1;
            bits[i * 3 + 2] = (hb >> 2u8) & 1;
            assert((3 * i) / 3 == i && (3 * i + 1) / 3 == i && (3 * i + 2) / 3 == i);
            assert((3 * i) % 3 == 0 && (3 * i + 1) % 3 == 1 && (3 * i + 2) % 3 == 2);
        }
        assert(bits@ =~= planet_lines(hexes@));
        bits
    }

    /// Planet lines as 22 hex characters (two lines per byte, low nibble
    /// first).
    pub fn hexagram_to_hex_string(bits: &[u8; 21]) -> (hex: String)
        ensures
            hex@ == lines_hex_string(bits@),
    {
        let mut hex = String::new();
        let mut k: usize = 0;
        while k < 11
            invariant
                k <= 11,
                hex@.len() == 2 * k,
                forall|i: int| 0 <= i < 2 * k ==> #[trigger] hex@[i] == lines_hex_string(bits@)[i],
            decreases 11 - k,
        {
            let lo = bits[2 * k] & 0xf;
            let hi: u8 = if 2 * k + 1 < 21 {
                bits[2 * k + 1]
            } else {
                0
            };
            let byte: u8 = (hi << 4u8) | lo;
            assert(byte == packed_line_byte(bits@, k as int));
            assert((2 * k) / 2 == k && (2 * k + 1) / 2 == k);
            push_char(&mut hex, hex_digit_char(byte / 16));
            push_char(&mut hex, hex_digit_char(byte % 16));
            k += 1;
        }
        assert(hex@ =~= lines_hex_string(bits@));
        hex
    }

    /// The lines as salt bytes (unchanged).
    pub fn hexagram_to_bytes(bits: &[u8; 21]) -> (out: [u8; 21])
        ensures
            out == *bits,
    {
        *bits
    }
}

impl Default for PlanetCalculator {
    fn default() -> (c: PlanetCalculator) {
        PlanetCalculator::new()
    }
}

/// Three-source salt: planet lines || event hash || private trigram sequence.
#[derive(Clone, Copy)]
pub struct ThreeCaSalt {
    pub planet_bits: [u8; 21],
    pub event_hash: [u8; 32],
    pub personal_hex: [u8; 64],
}

/// The 117 salt bytes.
pub open spec fn salt_bytes(s: ThreeCaSalt) -> Seq<u8> {
    s.planet_bits@ + s.event_hash@ + s.personal_hex@
}

impl ThreeCaSalt {
    /// Planet lines || event hash || private trigrams.
    pub fn synthesize(&self) -> (salt: Vec<u8>)
        ensures
            salt@ == salt_bytes(*self),
    {
        let mut salt: Vec<u8> = Vec::new();
        append_bytes(&mut salt, &self.planet_bits);
        append_bytes(&mut salt, &self.event_hash);
        append_bytes(&mut salt, &self.personal_hex);
        salt
    }

    /// The salt bytes (same as `synthesize`).
    pub fn as_bytes(&self) -> (out: Vec<u8>)
        ensures
            out@ == salt_bytes(*self),
    {
        let mut out: Vec<u8> = Vec::new();
        append_bytes(&mut out, &self.planet_bits);
        append_bytes(&mut out, &self.event_hash);
        append_bytes(&mut out, &self.personal_hex);
        out
    }

    pub fn salt_len(&self) -> (n: usize)
        ensures
            n == 117,
            n == salt_bytes(*self).len(),
    {
        21 + 32 + 64
    }

    /// The salt whose parts are all zero (used when no astronomical data is
    /// available).
    pub fn default_for_tier(_tier: crate::tiers::SecurityTier) -> (s: ThreeCaSalt)
        ensures
            s.planet_bits@ == Seq::new(21, |i: int| 0u8),
            s.event_hash@ == Seq::new(32, |i: int| 0u8),
            s.personal_hex@ == Seq::new(64, |i: int| 0u8),
    {
        let s = ThreeCaSalt { planet_bits: [0u8; 21], event_hash: [0u8; 32], personal_hex: [0u8; 64] };
        assert(s.planet_bits@ =~= Seq::new(21, |i: int| 0u8));
        assert(s.event_hash@ =~= Seq::new(32, |i: int| 0u8));
        assert(s.personal_hex@ =~= Seq::new(64, |i: int| 0u8));
        s
    }

    /// Splits stored salt bytes back into their parts: 21 planet lines, the
    /// 32-byte event hash, then 64 private trigram bytes.
    pub fn from_bytes(bytes: &[u8; 256]) -> (s: ThreeCaSalt)
        ensures
            s.planet_bits@ == bytes@.subrange(0, 21),
            s.event_hash@ == bytes@.subrange(21, 53),
            s.personal_hex@ == bytes@.subrange(53, 117),
    {
        let mut planet_bits = [0u8; 21];
        let mut event_hash = [0u8; 32];
        let mut personal_hex = [0u8; 64];
        for i in 0..21
            invariant
                forall|k: int| 0 <= k < i ==> planet_bits@[k] == bytes@[k],
        {
            planet_bits[i] = bytes[i];
        }
        for i in 0..32
            invariant
                forall|k: int| 0 <= k < i ==> event_hash@[k] == bytes@[21 + k],
        {
            event_hash[i] = bytes[21 + i];
        }
        for i in 0..64
            invariant
                forall|k: int| 0 <= k < i ==> personal_hex@[k] == bytes@[53 + k],
        {
            personal_hex[i] = bytes[53 + i];
        }
        assert(planet_bits@ =~= bytes@.subrange(0, 21));
        assert(event_hash@ =~= bytes@.subrange(21, 53));
        assert(personal_hex@ =~= bytes@.subrange(53, 117));
        ThreeCaSalt { planet_bits, event_hash, personal_hex }
    }
}

/// Splitting the stored bytes of a salt gives the salt back.
pub proof fn lemma_salt_bytes_roundtrip(s: ThreeCaSalt, stored: Seq<u8>)
    requires
        stored.len() == 256,
        stored.subrange(0, 117) == salt_bytes(s),
    ensures
        stored.subrange(0, 21) == s.planet_bits@,
        stored.subrange(21, 53) == s.event_hash@,
        stored.subrange(53, 117) == s.personal_hex@,
{
    assert(stored.subrange(0, 21) =~= salt_bytes(s).subrange(0, 21));
    assert(stored.subrange(21, 53) =~= salt_bytes(s).subrange(21, 53));
    assert(stored.subrange(53, 117) =~= salt_bytes(s).subrange(53, 117));
    assert(salt_bytes(s).subrange(0, 21) =~= s.planet_bits@);
    assert(salt_bytes(s).subrange(21, 53) =~= s.event_hash@);
    assert(salt_bytes(s).subrange(53, 117) =~= s.personal_hex@);
}

} // verus!
