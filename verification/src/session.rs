//! Session-level logic of the command-line and window front ends: roles,
//! saved front-end state, argument parsing, tier mapping, packets, the
//! results handed to the window, and opening a ratchet session.

use vstd::prelude::*;
use vstd::string::{StringExecFns, StringSliceAdditionalSpecFns};
use crate::astro::planets::{lines_hex_string, PlanetCalculator, ThreeCaSalt};
use crate::bytes::append_bytes;
use crate::crypto::primitives::aead_max_len;
use crate::crypto::ratchet::{
    header_bytes, max_skip_spec, DoubleRatchetSession, RatchetHeader, RatchetState, RatchetTier,
};
use crate::text::{
    ascii_lower, ascii_or_cjk, hex_decode, hex_decode_bytes, hex_decode_opt, hex_encode, hex_encode_chars, lowercase_output, str_eq,
    strip_0x, strip_hex_prefix, to_lowercase, trim, trim_output,
};
use crate::tiers::{padding_max_spec, planet_count_spec, tier_name_cn, tier_rank, tier_symbol, SecurityTier};

verus! {

// ============================================================================
// Roles
// ============================================================================

/// Which side of a session this instance plays.
#[derive(Debug, Clone, Copy, PartialEq, Eq, Structural)]
pub enum SessionRole {
    Initiator,
    Responder,
}

/// Role named by already trimmed and lowercased text: the responder by its
/// English or Chinese names, the initiator otherwise.
pub open spec fn role_for(s: Seq<char>) -> SessionRole {
    if s == "responder"@ || s == "响应方"@ || s == "接收方"@ {
        SessionRole::Responder
    } else {
        SessionRole::Initiator
    }
}

impl SessionRole {
    /// Parses a role (trimmed, case-insensitive); anything unknown is the
    /// initiator.
    pub fn from_str(s: &str) -> (r: SessionRole)
        ensures
            r == role_for(lowercase_output(trim_output(s@))),
            (forall|i: int| 0 <= i < trim_output(s@).len() ==> ascii_or_cjk(#[trigger] trim_output(s@)[i]))
                ==> r == role_for(trim_output(s@).map_values(|c: char| ascii_lower(c))),
    {
        let lower = to_lowercase(trim(s));
        let l = lower.as_str();
        if str_eq(l, "responder") || str_eq(l, "响应方") || str_eq(l, "接收方") {
            SessionRole::Responder
        } else {
            SessionRole::Initiator
        }
    }

    pub fn as_str(&self) -> (s: &'static str)
        ensures
            s@ == match *self {
                SessionRole::Initiator => "initiator"@,
                SessionRole::Responder => "responder"@,
            },
    {
        match self {
            SessionRole::Initiator => "initiator",
            SessionRole::Responder => "responder",
        }
    }
}

// ============================================================================
// Saved front-end state
// ============================================================================

/// What the command line keeps between runs.
#[derive(Debug, Clone)]
pub struct PersistentState {
    pub tier: Option<String>,
    pub tier_name: Option<String>,
    pub tier_symbol: Option<String>,
    pub salt: Option<String>,
    pub public_key: Option<String>,
    pub shared_x: Option<String>,
    pub role: Option<String>,
    pub peer_public: Option<String>,
    pub private_key: Option<String>,
}

impl PersistentState {
    /// Empty state: nothing set.
    pub fn new() -> (s: PersistentState)
        ensures
            s.tier is None,
            s.tier_name is None,
            s.tier_symbol is None,
            s.salt is None,
            s.public_key is None,
            s.shared_x is None,
            s.role is None,
            s.peer_public is None,
            s.private_key is None,
    {
        PersistentState {
            tier: None,
            tier_name: None,
            tier_symbol: None,
            salt: None,
            public_key: None,
            shared_x: None,
            role: None,
            peer_public: None,
            private_key: None,
        }
    }
}

// ============================================================================
// Ratchet state file name
// ============================================================================

// The four path names below follow the path rules of the target the crate
// is built for (its separators and prefixes), so they are fixed per target.

/// `Path::file_stem` of a path, as text.
pub uninterp spec fn file_stem_output(p: Seq<char>) -> Option<Seq<char>>;

/// `Path::extension` of a path, as text.
pub uninterp spec fn extension_output(p: Seq<char>) -> Option<Seq<char>>;

/// `Path::parent` of a path, as text.
pub uninterp spec fn parent_output(p: Seq<char>) -> Option<Seq<char>>;

/// `Path::join` of a directory and a file name, as text.
pub uninterp spec fn join_output(dir: Seq<char>, name: Seq<char>) -> Seq<char>;

pub open spec fn opt_text(o: Option<String>) -> Option<Seq<char>> {
    match o {
        Some(s) => Some(s@),
        None => None,
    }
}

/// `std::path::Path::file_stem`, converted to text.  Claimed: the named stem.
#[verifier::external_body]
fn path_file_stem(p: &str) -> (r: Option<String>)
    ensures
        opt_text(r) == file_stem_output(p@),
{
    std::path::Path::new(p).file_stem().and_then(|s| s.to_str()).map(|s| s.to_string())
}

/// `std::path::Path::extension`, converted to text.  Claimed: the named
/// extension.
#[verifier::external_body]
fn path_extension(p: &str) -> (r: Option<String>)
    ensures
        opt_text(r) == extension_output(p@),
{
    std::path::Path::new(p).extension().and_then(|s| s.to_str()).map(|s| s.to_string())
}

/// `std::path::Path::parent`, converted to text.  Claimed: the named parent.
#[verifier::external_body]
fn path_parent(p: &str) -> (r: Option<String>)
    ensures
        opt_text(r) == parent_output(p@),
{
    std::path::Path::new(p).parent().and_then(|s| s.to_str()).map(|s| s.to_string())
}

/// `std::path::Path::join`, converted to text (a join of text is text).
/// Claimed: the named join.
#[verifier::external_body]
fn path_join(dir: &str, name: &str) -> (r: String)
    ensures
        r@ == join_output(dir@, name@),
{
    let joined = std::path::Path::new(dir).join(name);
    joined.to_str().unwrap_or(name).to_string()
}

/// `s` ends with `suffix`, compared by UTF-8 bytes.
pub open spec fn ends_with_bytes(s: Seq<u8>, suffix: Seq<u8>) -> bool {
    s.len() >= suffix.len() && s.subrange(s.len() - suffix.len(), s.len() as int) == suffix
}

/// The ratchet state file that goes with a state file: its stem with
/// `_ratchet` appended (the extension kept, `json` when there is none), in
/// the same directory; a state file whose stem already ends in `_ratchet`
/// is its own ratchet file.
pub open spec fn ratchet_path_spec(p: Seq<char>) -> Seq<char> {
    let stem = match file_stem_output(p) {
        Some(s) => s,
        None => "state"@,
    };
    if ends_with_bytes(vstd::utf8::encode_utf8(stem), "_ratchet".spec_bytes()) {
        p
    } else {
        let ext = match extension_output(p) {
            Some(e) => e,
            None => "json"@,
        };
        let name = stem + "_ratchet."@ + ext;
        match parent_output(p) {
            Some(dir) => join_output(dir, name),
            None => name,
        }
    }
}

fn ends_with_text(s: &str, suffix: &str) -> (b: bool)
    ensures
        b == ends_with_bytes(s.spec_bytes(), suffix.spec_bytes()),
{
    let sb = s.as_bytes();
    let xb = suffix.as_bytes();
    if sb.len() < xb.len() {
        return false;
    }
    let tail = vstd::slice::slice_subrange(sb, sb.len() - xb.len(), sb.len());
    crate::bytes::bytes_equal(tail, xb)
}

/// Path of the ratchet state saved beside `state_file`.
pub fn ratchet_state_path(state_file: &str) -> (r: String)
    ensures
        r@ == ratchet_path_spec(state_file@),
{
    let stem = match path_file_stem(state_file) {
        Some(s) => s,
        None => String::from_str("state"),
    };
    if ends_with_text(stem.as_str(), "_ratchet") {
        return String::from_str(state_file);
    }
    let ext = match path_extension(state_file) {
        Some(e) => e,
        None => String::from_str("json"),
    };
    let mut name = stem;
    name.append("_ratchet.");
    name.append(ext.as_str());
    match path_parent(state_file) {
        Some(dir) => path_join(dir.as_str(), name.as_str()),
        None => name,
    }
}

// ============================================================================
// Tiers
// ============================================================================

/// Ratchet tier of a security tier.
pub open spec fn ratchet_tier_of(t: SecurityTier) -> RatchetTier {
    match t {
        SecurityTier::KanWater => RatchetTier::Kan,
        SecurityTier::XunWind => RatchetTier::Zhi,
        SecurityTier::LiFire => RatchetTier::Ren,
        SecurityTier::QianHeaven => RatchetTier::Tian,
    }
}

pub fn map_tier(tier: SecurityTier) -> (r: RatchetTier)
    ensures
        r == ratchet_tier_of(tier),
{
    match tier {
        SecurityTier::KanWater => RatchetTier::Kan,
        SecurityTier::XunWind => RatchetTier::Zhi,
        SecurityTier::LiFire => RatchetTier::Ren,
        SecurityTier::QianHeaven => RatchetTier::Tian,
    }
}

/// The same mapping, as the window front end uses it.
pub fn tauri_map_tier(tier: SecurityTier) -> (r: RatchetTier)
    ensures
        r == ratchet_tier_of(tier),
{
    map_tier(tier)
}

/// Tier by number: 0 Kan, 1 Xun, 2 Li, anything else Qian.
pub open spec fn tier_of_u8(n: u8) -> SecurityTier {
    if n == 0 {
        SecurityTier::KanWater
    } else if n == 1 {
        SecurityTier::XunWind
    } else if n == 2 {
        SecurityTier::LiFire
    } else {
        SecurityTier::QianHeaven
    }
}

/// Saved tier numbers round-trip: the number a tier is saved as reads back
/// as that tier, and distinct tiers are saved as distinct numbers below 4.
pub proof fn lemma_tier_number_roundtrip(t: SecurityTier, u: SecurityTier)
    ensures
        tier_of_u8(tier_rank(t)) == t,
        tier_rank(t) < 4,
        tier_rank(t) == tier_rank(u) ==> t == u,
{
}

pub fn tier_from_u8(n: u8) -> (t: SecurityTier)
    ensures
        t == tier_of_u8(n),
{
    match n {
        0 => SecurityTier::KanWater,
        1 => SecurityTier::XunWind,
        2 => SecurityTier::LiFire,
        _ => SecurityTier::QianHeaven,
    }
}

pub fn tier_u8(tier: SecurityTier) -> (n: u8)
    ensures
        n == tier_rank(tier),
{
    tier.rank()
}

/// Value of a string of ASCII decimal digits.
pub open spec fn digits_value(d: Seq<char>) -> int
    decreases d.len(),
{
    if d.len() == 0 {
        0
    } else {
        digits_value(d.drop_last()) * 10 + (d.last() as int - 48)
    }
}

/// `str::parse::<u8>` of a string: an optional `+` followed by one or more
/// ASCII digits whose value is at most 255; anything else is an error.
pub open spec fn parse_u8_output(s: Seq<char>) -> Option<u8> {
    let d = if s.len() > 0 && s[0] == '+' {
        s.drop_first()
    } else {
        s
    };
    if d.len() > 0 && (forall|i: int| 0 <= i < d.len() ==> '0' <= #[trigger] d[i] <= '9')
        && digits_value(d) <= 255 {
        Some(digits_value(d) as u8)
    } else {
        None
    }
}

/// `str::parse::<u8>`, with the error dropped.  Claimed, as the
/// documentation of `u8::from_str` states: an optional `+` followed by
/// decimal digits parses to their value when it fits in a `u8`, and every
/// other string is an error.
#[verifier::external_body]
fn parse_u8(s: &str) -> (r: Option<u8>)
    ensures
        r == parse_u8_output(s@),
{
    s.parse::<u8>().ok()
}

/// Tier saved as a decimal number in the state (Kan when absent or not a
/// number).
pub open spec fn saved_tier(t: Option<Seq<char>>) -> SecurityTier {
    match t {
        Some(s) => match parse_u8_output(s) {
            Some(n) => tier_of_u8(n),
            None => SecurityTier::KanWater,
        },
        None => SecurityTier::KanWater,
    }
}

pub fn tier_from_text(t: Option<&str>) -> (tier: SecurityTier)
    ensures
        tier == saved_tier(match t {
            Some(s) => Some(s@),
            None => None,
        }),
{
    match t {
        Some(s) => match parse_u8(s) {
            Some(n) => tier_from_u8(n),
            None => SecurityTier::KanWater,
        },
        None => SecurityTier::KanWater,
    }
}

// ============================================================================
// Shared secrets and hex arguments
// ============================================================================

/// The 32-byte X25519 secret repeated to 64 bytes.
pub open spec fn doubled(x: Seq<u8>) -> Seq<u8> {
    Seq::new(64, |i: int| x[i % 32])
}

pub fn expand_shared(x: &[u8; 32]) -> (s: [u8; 64])
    ensures
        s@ == doubled(x@),
{
    let mut s = [0u8; 64];
    for i in 0..64
        invariant
            forall|k: int| 0 <= k < i ==> s@[k] == x@[k % 32],
    {
        s[i] = x[i % 32];
    }
    assert(s@ =~= doubled(x@));
    s
}

/// The same expansion, as the window front end uses it.
pub fn tauri_expand_shared(x: &[u8; 32]) -> (s: [u8; 64])
    ensures
        s@ == doubled(x@),
{
    expand_shared(x)
}

/// Bytes of an argument with surrounding whitespace and leading "0x" removed.
pub open spec fn clean_arg(s: Seq<char>) -> Seq<u8> {
    strip_0x(vstd::utf8::encode_utf8(trim_output(s)))
}

/// The first `n` bytes of `b`, zero-filled to `n`.
pub open spec fn fit_bytes(b: Seq<u8>, n: nat) -> Seq<u8> {
    Seq::new(n, |i: int| if i < b.len() { b[i] } else { 0u8 })
}

fn clean_arg_bytes(s: &str) -> (b: &[u8])
    ensures
        b@ == clean_arg(s@),
{
    let t = trim(s);
    strip_hex_prefix(t.as_bytes())
}

fn fit32(b: &[u8]) -> (arr: [u8; 32])
    ensures
        arr@ == fit_bytes(b@, 32),
{
    let mut arr = [0u8; 32];
    for i in 0..32
        invariant
            forall|k: int| 0 <= k < i ==> arr@[k] == fit_bytes(b@, 32)[k],
            forall|k: int| i <= k < 32 ==> arr@[k] == 0u8,
    {
        if i < b.len() {
            arr[i] = b[i];
        }
    }
    assert(arr@ =~= fit_bytes(b@, 32));
    arr
}

fn fit64(b: &[u8]) -> (arr: [u8; 64])
    ensures
        arr@ == fit_bytes(b@, 64),
{
    let mut arr = [0u8; 64];
    for i in 0..64
        invariant
            forall|k: int| 0 <= k < i ==> arr@[k] == fit_bytes(b@, 64)[k],
            forall|k: int| i <= k < 64 ==> arr@[k] == 0u8,
    {
        if i < b.len() {
            arr[i] = b[i];
        }
    }
    assert(arr@ =~= fit_bytes(b@, 64));
    arr
}

/// A 32-byte key from hex text: trimmed, "0x" removed, decoded, then cut
/// or zero-filled to 32 bytes.  The text must be hex.
pub fn hex32(s: &str) -> (arr: [u8; 32])
    requires
        hex_decode_bytes(clean_arg(s@)) is Some,
    ensures
        arr@ == fit_bytes(hex_decode_bytes(clean_arg(s@))->0, 32),
{
    let clean = clean_arg_bytes(s);
    match hex_decode_opt(clean) {
        Some(bytes) => fit32(bytes.as_slice()),
        None => [0u8; 32],
    }
}

/// The bytes of a packet given as hex text: trimmed, leading "0x" removed,
/// then decoded; the decoder's error when the text is not hex.
pub fn packet_from_hex(packet: &str) -> (r: Result<Vec<u8>, hex::FromHexError>)
    ensures
        match r {
            Ok(v) => hex_decode_bytes(clean_arg(packet@)) == Some(v@),
            Err(_) => hex_decode_bytes(clean_arg(packet@)) is None,
        },
{
    let clean = clean_arg_bytes(packet);
    hex_decode(clean)
}

/// `hex32` when the text is hex, `None` otherwise.
pub fn try_hex32(s: &str) -> (r: Option<[u8; 32]>)
    ensures
        match hex_decode_bytes(clean_arg(s@)) {
            Some(b) => r matches Some(arr) && arr@ == fit_bytes(b, 32),
            None => r is None,
        },
{
    let clean = clean_arg_bytes(s);
    match hex_decode_opt(clean) {
        Some(_) => Some(hex32(s)),
        None => None,
    }
}

/// The event hash argument: hex text read as `hex32` does.
pub fn parse_event_hash(raw: &str) -> (arr: [u8; 32])
    requires
        hex_decode_bytes(clean_arg(raw@)) is Some,
    ensures
        arr@ == fit_bytes(hex_decode_bytes(clean_arg(raw@))->0, 32),
{
    hex32(raw)
}

/// `parse_event_hash` when the text is hex, `None` otherwise.
pub fn try_parse_event_hash(raw: &str) -> (r: Option<[u8; 32]>)
    ensures
        match hex_decode_bytes(clean_arg(raw@)) {
            Some(b) => r matches Some(arr) && arr@ == fit_bytes(b, 32),
            None => r is None,
        },
{
    let clean = clean_arg_bytes(raw);
    match hex_decode_opt(clean) {
        Some(_) => Some(parse_event_hash(raw)),
        None => None,
    }
}

/// 64 characters each '0' or '1' (as bytes).
pub open spec fn is_line_string(b: Seq<u8>) -> bool {
    b.len() == 64 && forall|i: int| 0 <= i < 64 ==> (#[trigger] b[i] == 48u8 || b[i] == 49u8)
}

/// The private trigram sequence from its argument: 64 characters of '0'
/// and '1' as lines, else hex cut or zero-filled to 64 bytes, else all
/// zeros.
pub open spec fn personal_lines(c: Seq<u8>) -> Seq<u8> {
    if is_line_string(c) {
        Seq::new(64, |i: int| if c[i] == 49u8 { 1u8 } else { 0u8 })
    } else {
        match hex_decode_bytes(c) {
            Some(b) => fit_bytes(b, 64),
            None => Seq::new(64, |i: int| 0u8),
        }
    }
}

/// How an argument is read as the private trigram sequence: exactly the
/// 64-character strings of '0' and '1' are lines (1 for '1', 0 for '0');
/// any other argument (another length, or a character other than '0' and
/// '1') is hex, cut or zero-filled to 64 bytes, or all zeros when it is not
/// hex.
pub proof fn lemma_personal_lines_cases(c: Seq<u8>)
    ensures
        personal_lines(c).len() == 64,
        c.len() == 64 && (forall|i: int| 0 <= i < 64 ==> c[i] == 48u8 || c[i] == 49u8) ==> forall|i: int|
            0 <= i < 64 ==> #[trigger] personal_lines(c)[i] == (if c[i] == 49u8 {
                1u8
            } else {
                0u8
            }),
        c.len() != 64 || (exists|i: int| 0 <= i < c.len() && c[i] != 48u8 && c[i] != 49u8)
            ==> personal_lines(c) == match hex_decode_bytes(c) {
            Some(b) => fit_bytes(b, 64),
            None => Seq::new(64, |i: int| 0u8),
        },
{
    if c.len() == 64 && (forall|i: int| 0 <= i < 64 ==> c[i] == 48u8 || c[i] == 49u8) {
        assert(is_line_string(c));
    }
    if exists|i: int| 0 <= i < c.len() && c[i] != 48u8 && c[i] != 49u8 {
        let i = choose|i: int| 0 <= i < c.len() && c[i] != 48u8 && c[i] != 49u8;
        assert(!(#[trigger] c[i] == 48u8 || c[i] == 49u8));
        assert(!is_line_string(c));
    }
}

pub fn parse_personal_hex(raw: &str) -> (arr: [u8; 64])
    ensures
        arr@ == personal_lines(clean_arg(raw@)),
        ({
            let c = clean_arg(raw@);
            c.len() == 64 && (forall|i: int| 0 <= i < 64 ==> c[i] == 48u8 || c[i] == 49u8) ==> forall|i: int|
                0 <= i < 64 ==> #[trigger] arr@[i] == (if c[i] == 49u8 {
                    1u8
                } else {
                    0u8
                })
        }),
        ({
            let c = clean_arg(raw@);
            c.len() != 64 || (exists|i: int| 0 <= i < c.len() && c[i] != 48u8 && c[i] != 49u8) ==> arr@
                == match hex_decode_bytes(c) {
                Some(b) => fit_bytes(b, 64),
                None => Seq::new(64, |i: int| 0u8),
            }
        }),
{
    proof {
        lemma_personal_lines_cases(clean_arg(raw@));
    }
    let clean = clean_arg_bytes(raw);
    let mut lines = clean.len() == 64;
    let mut i: usize = 0;
    while lines && i < clean.len()
        invariant
            i <= clean@.len(),
            lines ==> forall|k: int| 0 <= k < i ==> (#[trigger] clean@[k] == 48u8 || clean@[k]
                == 49u8),
            lines ==> clean@.len() == 64,
            !lines ==> !is_line_string(clean@),
        decreases clean@.len() - i,
    {
        if clean[i] != 48 && clean[i] != 49 {
            lines = false;
        }
        i += 1;
    }
    if lines {
        let mut arr = [0u8; 64];
        for j in 0..64
            invariant
                clean@.len() == 64,
                forall|k: int|
                    0 <= k < j ==> arr@[k] == (if clean@[k] == 49u8 {
                        1u8
                    } else {
                        0u8
                    }),
        {
            arr[j] = if clean[j] == 49 {
                1
            } else {
                0
            };
        }
        assert(arr@ =~= personal_lines(clean@));
        arr
    } else {
        match hex_decode_opt(clean) {
            Some(bytes) => fit64(bytes.as_slice()),
            None => {
                let arr = [0u8; 64];
                assert(arr@ =~= personal_lines(clean@));
                arr
            },
        }
    }
}

// ============================================================================
// Trigram symbols
// ============================================================================

/// Symbol of a trigram value 0..8.
pub open spec fn trigram_symbol(v: u8) -> Seq<char> {
    if v == 0 {
        "☰"@
    } else if v == 1 {
        "☷"@
    } else if v == 2 {
        "☳"@
    } else if v == 3 {
        "☴"@
    } else if v == 4 {
        "☵"@
    } else if v == 5 {
        "☲"@
    } else if v == 6 {
        "☶"@
    } else {
        "☱"@
    }
}

/// Trigram value of three lines (low line first).
pub open spec fn trigram_value(bits: Seq<u8>, k: int) -> u8 {
    ((bits[3 * k] | (bits[3 * k + 1] << 1u8) | (bits[3 * k + 2] << 2u8)) & 7u8) as u8
}

fn symbol_of(v: u8) -> (s: &'static str)
    requires
        v < 8,
    ensures
        s@ == trigram_symbol(v),
{
    match v {
        0 => "☰",
        1 => "☷",
        2 => "☳",
        3 => "☴",
        4 => "☵",
        5 => "☲",
        6 => "☶",
        _ => "☱",
    }
}

/// The symbols of the seven trigrams of the planet lines.
pub fn hexagram_symbols(bits: &[u8; 21]) -> (syms: Vec<String>)
    ensures
        syms@.len() == 7,
        forall|k: int| 0 <= k < 7 ==> (#[trigger] syms@[k])@ == trigram_symbol(trigram_value(bits@, k)),
{
    let mut syms: Vec<String> = Vec::new();
    for k in 0..7
        invariant
            syms@.len() == k,
            forall|j: int| 0 <= j < k ==> (#[trigger] syms@[j])@ == trigram_symbol(trigram_value(bits@, j)),
    {
        let b0 = bits[3 * k];
        let b1 = bits[3 * k + 1];
        let b2 = bits[3 * k + 2];
        let v = (b0 | (b1 << 1u8) | (b2 << 2u8)) & 7u8;
        assert(v < 8) by (bit_vector)
            requires
                v == (b0 | (b1 << 1u8) | (b2 << 2u8)) & 7u8,
        ;
        assert(v == trigram_value(bits@, k as int));
        syms.push(String::from_str(symbol_of(v)));
    }
    syms
}

// ============================================================================
// Results handed to the window front end
// ============================================================================

#[derive(Debug)]
pub struct CompassInstance {
    pub tier: u8,
    pub tier_name: String,
    pub tier_symbol: String,
}

#[derive(Debug)]
pub struct PlanetHexagramResult {
    pub bits: Vec<u8>,
    pub hex_string: String,
    pub hexagrams: Vec<String>,
}

#[derive(Debug)]
pub struct TierInfo {
    pub name: String,
    pub symbol: String,
    pub planet_count: usize,
    pub has_ratchet: bool,
    pub has_obfuscation: bool,
    pub has_mimicry: bool,
    pub padding_max: usize,
}

#[derive(Debug)]
pub struct EncryptResult {
    pub packet: String,
    pub header_pk_preview: String,
    pub msg_num: usize,
}

#[derive(Debug)]
pub struct DecryptResult {
    pub plaintext: String,
    pub from_pk_preview: String,
    pub msg_num: usize,
}

/// Number, name and symbol of a tier.
pub fn compass_instance(tier: SecurityTier) -> (c: CompassInstance)
    ensures
        c.tier == tier_rank(tier),
        c.tier_name@ == tier_name_cn(tier),
        c.tier_symbol@ == tier_symbol(tier),
{
    CompassInstance {
        tier: tier.rank(),
        tier_name: String::from_str(tier.name_cn()),
        tier_symbol: String::from_str(tier.symbol()),
    }
}

/// The tier's name, symbol and main switches of its default configuration.
pub fn tier_info(tier: SecurityTier) -> (info: TierInfo)
    ensures
        info.name@ == tier_name_cn(tier),
        info.symbol@ == tier_symbol(tier),
        info.planet_count == planet_count_spec(tier),
        info.has_ratchet == (tier_rank(tier) >= 1),
        info.has_obfuscation == (tier_rank(tier) >= 2),
        info.has_mimicry == (tier_rank(tier) >= 2),
        info.padding_max == padding_max_spec(tier),
{
    let cfg = tier.default_config();
    TierInfo {
        name: String::from_str(tier.name_cn()),
        symbol: String::from_str(tier.symbol()),
        planet_count: cfg.planet_count,
        has_ratchet: cfg.ratchet,
        has_obfuscation: cfg.matrix_obfuscation,
        has_mimicry: cfg.traffic_mimicry,
        padding_max: cfg.padding_max,
    }
}

/// The planet lines, their hex text and trigram symbols.
pub fn planet_result(bits: &[u8; 21]) -> (r: PlanetHexagramResult)
    ensures
        r.bits@ == bits@,
        r.hex_string@ == lines_hex_string(bits@),
        r.hexagrams@.len() == 7,
        forall|k: int|
            0 <= k < 7 ==> (#[trigger] r.hexagrams@[k])@ == trigram_symbol(trigram_value(bits@, k)),
{
    let mut v: Vec<u8> = Vec::new();
    append_bytes(&mut v, bits);
    PlanetHexagramResult {
        bits: v,
        hex_string: PlanetCalculator::hexagram_to_hex_string(bits),
        hexagrams: hexagram_symbols(bits),
    }
}

// ============================================================================
// Packets
// ============================================================================

/// A packet: the 40-byte header followed by the ciphertext.
pub fn build_packet(header: &RatchetHeader, ciphertext: &[u8]) -> (packet: Vec<u8>)
    ensures
        packet@ == header_bytes(*header) + ciphertext@,
{
    let mut packet = header.serialize();
    append_bytes(&mut packet, ciphertext);
    packet
}

/// Splits a packet into its header and ciphertext; `None` when it is shorter
/// than a header.
pub fn split_packet(bytes: &[u8]) -> (r: Option<(RatchetHeader, &[u8])>)
    ensures
        bytes@.len() < 40 ==> r is None,
        bytes@.len() >= 40 ==> (r matches Some((h, ct)) && {
            &&& h.public_key@ == bytes@.subrange(0, 32)
            &&& h.message_number == vstd::bytes::spec_u32_from_le_bytes(bytes@.subrange(32, 36)) as usize
            &&& h.previous_chain_length == vstd::bytes::spec_u32_from_le_bytes(
                bytes@.subrange(36, 40),
            ) as usize
            &&& ct@ == bytes@.subrange(40, bytes@.len() as int)
        }),
{
    match RatchetHeader::deserialize(bytes) {
        Some(h) => Some((h, vstd::slice::slice_subrange(bytes, 40, bytes.len()))),
        None => None,
    }
}

/// Hex of the first four bytes of a public key.
pub fn key_preview(pk: &[u8; 32]) -> (s: String)
    ensures
        s@ == hex_encode_chars(pk@.subrange(0, 4)),
{
    hex_encode(vstd::slice::slice_subrange(pk, 0, 4))
}

/// What the window shows for an encrypted message.
pub fn encrypt_result(header: &RatchetHeader, ciphertext: &[u8]) -> (r: EncryptResult)
    ensures
        r.packet@ == hex_encode_chars(header_bytes(*header) + ciphertext@),
        r.header_pk_preview@ == hex_encode_chars(header.public_key@.subrange(0, 4)),
        r.msg_num == header.message_number,
{
    let packet = build_packet(header, ciphertext);
    EncryptResult {
        packet: hex_encode(packet.as_slice()),
        header_pk_preview: key_preview(&header.public_key),
        msg_num: header.message_number,
    }
}

/// What the window shows for a decrypted message.
pub fn decrypt_result(header: &RatchetHeader, plaintext: String) -> (r: DecryptResult)
    ensures
        r.plaintext == plaintext,
        r.from_pk_preview@ == hex_encode_chars(header.public_key@.subrange(0, 4)),
        r.msg_num == header.message_number,
{
    DecryptResult {
        plaintext,
        from_pk_preview: key_preview(&header.public_key),
        msg_num: header.message_number,
    }
}

// ============================================================================
// Opening sessions
// ============================================================================

/// A new session for a role: the initiator sends first, the responder
/// receives first.
pub fn new_session(role: SessionRole, shared_x: [u8; 32], tier: RatchetTier, salt: Option<ThreeCaSalt>) -> (s:
    DoubleRatchetSession)
    ensures
        s.wf(),
        s.dh_pair_wf(),
        s.root_view() == shared_x@,
        s.tier_view() == tier,
        s.salt_view() == salt,
        s.remote_view() is None,
        s.skipped_view() == Map::<usize, Seq<u8>>::empty(),
        s.skip_capacity() == max_skip_spec(tier),
        !s.ratcheted_view(),
        role == SessionRole::Initiator ==> s.sending_view() == (
            crate::crypto::ratchet::chain_from(shared_x@, "send-chain".spec_bytes(), tier, crate::crypto::ratchet::salt_data(salt)),
            0usize,
            0usize,
        ) && s.receiving_view() == (
            crate::crypto::ratchet::chain_from(shared_x@, "recv-chain".spec_bytes(), tier, crate::crypto::ratchet::salt_data(salt)),
            0usize,
            0usize,
        ),
        role == SessionRole::Responder ==> s.receiving_view() == (
            crate::crypto::ratchet::chain_from(shared_x@, "send-chain".spec_bytes(), tier, crate::crypto::ratchet::salt_data(salt)),
            0usize,
            0usize,
        ) && s.sending_view() == (
            crate::crypto::ratchet::chain_from(shared_x@, "recv-chain".spec_bytes(), tier, crate::crypto::ratchet::salt_data(salt)),
            0usize,
            0usize,
        ),
{
    match role {
        SessionRole::Initiator => DoubleRatchetSession::new_sender(shared_x, tier, salt),
        SessionRole::Responder => DoubleRatchetSession::new_receiver(shared_x, tier, salt),
    }
}

/// The session a command works with: the saved one when it restores, else
/// a new one for the role; the flag tells whether it is new.
pub fn open_session(
    role: SessionRole,
    shared_x: [u8; 32],
    tier: RatchetTier,
    salt: Option<ThreeCaSalt>,
    saved: Option<RatchetState>,
) -> (r: (DoubleRatchetSession, bool))
    requires
        saved matches Some(st) ==> st.lengths_fit(),
    ensures
        r.0.wf(),
        match saved {
            Some(st) => if st.restorable() {
                !r.1 && st.restored_as(&r.0)
            } else {
                r.1
            },
            None => r.1,
        },
        r.1 ==> r.0.root_view() == shared_x@ && r.0.tier_view() == tier && r.0.salt_view() == salt
            && r.0.remote_view() is None && !r.0.ratcheted_view(),
        r.1 ==> r.0.skipped_view() == Map::<usize, Seq<u8>>::empty(),
        r.1 && role == SessionRole::Initiator ==> r.0.sending_view() == (
            crate::crypto::ratchet::chain_from(shared_x@, "send-chain".spec_bytes(), tier, crate::crypto::ratchet::salt_data(salt)),
            0usize,
            0usize,
        ) && r.0.receiving_view() == (
            crate::crypto::ratchet::chain_from(shared_x@, "recv-chain".spec_bytes(), tier, crate::crypto::ratchet::salt_data(salt)),
            0usize,
            0usize,
        ),
        r.1 && role == SessionRole::Responder ==> r.0.receiving_view() == (
            crate::crypto::ratchet::chain_from(shared_x@, "send-chain".spec_bytes(), tier, crate::crypto::ratchet::salt_data(salt)),
            0usize,
            0usize,
        ) && r.0.sending_view() == (
            crate::crypto::ratchet::chain_from(shared_x@, "recv-chain".spec_bytes(), tier, crate::crypto::ratchet::salt_data(salt)),
            0usize,
            0usize,
        ),
{
    match saved {
        Some(st) => match st.to_session() {
            Some(sess) => {
                return (sess, false);
            },
            None => {},
        },
        None => {},
    }
    (new_session(role, shared_x, tier, salt), true)
}

/// Self test of a shared secret: a fresh initiator encrypts `sample`, a
/// fresh responder with the same secret, tier and salt decrypts it.  The
/// responder always gets the sample back.
pub fn self_test_exchange(
    shared_x: [u8; 32],
    tier: RatchetTier,
    salt: Option<ThreeCaSalt>,
    sample: &[u8],
) -> (received: Option<Vec<u8>>)
    requires
        sample@.len() <= aead_max_len(),
    ensures
        received matches Some(v) && v@ == sample@,
{
    let mut alice = DoubleRatchetSession::new_sender(shared_x, tier, salt);
    let mut bob = DoubleRatchetSession::new_receiver(shared_x, tier, salt);
    let empty: Vec<u8> = Vec::new();
    let ghost ck = bob.receiving_view().0;
    let ghost sd = crate::crypto::ratchet::salt_data(salt);
    let (ct, hdr) = alice.encrypt(sample, empty.as_slice());
    let received = bob.decrypt(&hdr, ct.as_slice(), empty.as_slice());
    proof {
        assert(crate::crypto::ratchet::chain_iter(ck, tier, sd, 0) == ck);
        assert(hdr.message_number == 0);
        vstd::bytes::lemma_auto_spec_u32_to_from_le_bytes();
        assert((header_bytes(hdr) + empty@).len() == 40);
        assert(crate::crypto::ratchet::sealed_message(
            crate::crypto::ratchet::chain_iter(ck, tier, sd, (hdr.message_number - 0usize) as nat),
            hdr.message_number,
            tier,
            sd,
            header_bytes(hdr) + empty@,
            sample@,
        ) == ct@);
        assert(crate::crypto::primitives::opened_view(received) == Some(sample@));
    }
    received
}

} // verus!
