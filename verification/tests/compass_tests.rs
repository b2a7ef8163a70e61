use star_compass::astro::planets::{Hexagram, Planet, PlanetCalculator, ThreeCaSalt};
use star_compass::crypto::ratchet::{DoubleRatchetSession, RatchetHeader, RatchetState, RatchetTier};
use star_compass::keyring::{SkipBuffer as RingSkipBuffer, ThreeCaKeyRing};
use star_compass::session::{
    build_packet, compass_instance, packet_from_hex, expand_shared, hex32, hexagram_symbols, map_tier,
    open_session, parse_event_hash, parse_personal_hex, planet_result, ratchet_state_path,
    self_test_exchange, split_packet, tauri_expand_shared, tier_from_text, tier_from_u8,
    tier_info, tier_u8, try_hex32, try_parse_event_hash, encrypt_result, decrypt_result,
    PersistentState, SessionRole,
};
use star_compass::tiers::SecurityTier;
use star_compass::{StarCompass, VERSION, VERSION_MAJOR, VERSION_MINOR};

// ---------------------------------------------------------------------------
// Tiers
// ---------------------------------------------------------------------------

#[test]
fn test_tier() {
    assert_eq!(SecurityTier::from_name("坎水"), Some(SecurityTier::KanWater));
    assert_eq!(SecurityTier::from_name("乾极"), Some(SecurityTier::QianHeaven));
    assert!(SecurityTier::QianHeaven.has_ratchet());
    assert!(!SecurityTier::KanWater.has_ratchet());
}

#[test]
fn tier_names_and_configs() {
    assert_eq!(SecurityTier::from_name("  "), None);
    assert_eq!(SecurityTier::from_name("LI"), Some(SecurityTier::LiFire));
    assert_eq!(SecurityTier::from_name("unknown"), None);
    let cfg = SecurityTier::LiFire.default_config();
    assert_eq!(cfg.planet_count, 7);
    assert_eq!(cfg.padding_max, 127);
    assert!(cfg.use_kyber);
    assert_eq!(cfg.mimic_protocol, "tls");
    let kan = SecurityTier::KanWater.default_config();
    assert_eq!(kan.mimic_protocol, "none");
    assert!(!kan.use_x25519);
    assert_eq!(SecurityTier::XunWind.padding_range(), (0, 63));
    assert_eq!(SecurityTier::QianHeaven.symbol(), "☰");
    assert_eq!(SecurityTier::KanWater.name_cn(), "坎水级·艮渊");
}

// ---------------------------------------------------------------------------
// Planets and salt
// ---------------------------------------------------------------------------

#[test]
fn test_hex_conversion() {
    let bits = [1, 0, 0, 1, 1, 0, 0, 1, 0, 1, 1, 0, 0, 1, 0, 1, 0, 0, 1, 1, 0];
    let hex = PlanetCalculator::hexagram_to_hex_string(&bits);
    assert_eq!(hex.len(), 22);
    assert_eq!(&hex[..2], "01");
}

#[test]
fn trigram_codes_and_lines() {
    assert_eq!(Hexagram::from_bits(13), Some(Hexagram::Li));
    assert_eq!(Hexagram::Dui.to_bits(), 7);
    assert_eq!(Hexagram::Kan.symbol(), "☵");
    assert_eq!(Hexagram::Zhen.name_cn(), "震");
    assert_eq!(Planet::all()[6], Planet::Saturn);
    let hexes = [Hexagram::Kun; 7];
    let bits = PlanetCalculator::planet_hexagram_bits(&hexes);
    assert_eq!(&bits[..3], &[1, 0, 0]);
    assert_eq!(PlanetCalculator::hexagram_to_bytes(&bits), bits);
}

#[test]
fn salt_parts_and_roundtrip() {
    let salt = ThreeCaSalt { planet_bits: [1u8; 21], event_hash: [2u8; 32], personal_hex: [3u8; 64] };
    let bytes = salt.synthesize();
    assert_eq!(bytes.len(), 117);
    assert_eq!(salt.salt_len(), 117);
    assert_eq!(salt.as_bytes(), bytes);
    let mut stored = [0u8; 256];
    stored[..117].copy_from_slice(&bytes);
    let back = ThreeCaSalt::from_bytes(&stored);
    assert_eq!(back.planet_bits, salt.planet_bits);
    assert_eq!(back.event_hash, salt.event_hash);
    assert_eq!(back.personal_hex, salt.personal_hex);
    let zero = ThreeCaSalt::default_for_tier(SecurityTier::LiFire);
    assert_eq!(zero.synthesize(), vec![0u8; 117]);
}

// ---------------------------------------------------------------------------
// Key ring
// ---------------------------------------------------------------------------

#[test]
fn test_keyring() {
    let salt = ThreeCaSalt { planet_bits: [0x42u8; 21], event_hash: [0xAAu8; 32], personal_hex: [0x55u8; 64] };
    let mut ring = ThreeCaKeyRing::new(SecurityTier::LiFire, salt);
    ring.init(&[0x99u8; 64]);
    let n1 = ring.message_nonce();
    ring.symmetric_ratchet();
    let n2 = ring.message_nonce();
    assert_ne!(n1.as_bytes(), n2.as_bytes());
}

#[test]
fn keyring_keys_before_and_after_init() {
    let salt = ThreeCaSalt { planet_bits: [0u8; 21], event_hash: [0u8; 32], personal_hex: [0u8; 64] };
    let mut ring = ThreeCaKeyRing::new(SecurityTier::QianHeaven, salt);
    assert_eq!(ring.k2(), [0u8; 32]);
    ring.init(&[1u8; 64]);
    assert_ne!(ring.k2(), [0u8; 32]);
    assert_ne!(ring.k1(), ring.k2());
    assert_ne!(ring.k4(), ring.k_block());
    let before = ring.k2();
    ring.dh_ratchet(&[2u8; 64]);
    assert_ne!(ring.k2(), before);
    assert_eq!(ring.counters().dh_generation, 1);
    for _ in 0..100 {
        ring.symmetric_ratchet();
    }
    assert_eq!(ring.counters().symmetric_generation, 1);
    assert_eq!(ring.counters().message_counter, 100);
}

#[test]
fn keyring_skip_buffer_evicts_smallest() {
    let mut b = RingSkipBuffer::new(2);
    b.store(5, [5u8; 32]);
    b.store(3, [3u8; 32]);
    b.store(9, [9u8; 32]);
    assert_eq!(b.get(3), None);
    assert_eq!(b.get(9), Some([9u8; 32]));
    assert_eq!(b.get(9), None);
    assert_eq!(b.get(5), Some([5u8; 32]));
}

// ---------------------------------------------------------------------------
// Instances
// ---------------------------------------------------------------------------

#[test]
fn test_basic_flow() {
    let mut star = StarCompass::new(SecurityTier::LiFire);
    let bits = PlanetCalculator::planet_hexagram_bits(&[Hexagram::Li; 7]);
    let hexagrams = [0x42u8; 64];
    star.init(bits, "test", &hexagrams).unwrap();
    let shared = [0x99u8; 64];
    star.init_with_shared_secret(&shared);
    assert_eq!(star.tier(), SecurityTier::LiFire);
    assert!(star.keyring().is_some());
}

#[test]
fn init_hashes_event_description() {
    let mut star = StarCompass::new(SecurityTier::KanWater);
    assert!(star.salt().is_none());
    star.init([0u8; 21], "test", &[7u8; 64]).unwrap();
    let salt = star.salt().unwrap();
    assert_eq!(
        hex::encode(salt.event_hash),
        "9f86d081884c7d659a2feaa0c55ad015a3bf4f1b2b0b822cd15d6c15b0f00a08"
    );
    assert_eq!(salt.personal_hex, [7u8; 64]);
    assert!(star.keyring().unwrap().counters().message_counter == 0);
    assert_eq!(star.config().planet_count, 3);
}

#[test]
fn shared_secret_without_init_uses_zero_salt() {
    let mut star = StarCompass::new(SecurityTier::XunWind);
    star.init_with_shared_secret(&[1u8; 64]);
    let salt = star.salt().unwrap();
    assert_eq!(salt.planet_bits, [0u8; 21]);
    assert_ne!(star.keyring().unwrap().k2(), [0u8; 32]);
}

#[test]
fn version_numbers() {
    assert_eq!(VERSION, "0.1.0");
    assert_eq!(VERSION_MAJOR, 0);
    assert_eq!(VERSION_MINOR, 1);
}

// ---------------------------------------------------------------------------
// Session front-end logic
// ---------------------------------------------------------------------------

#[test]
fn roles_parse() {
    assert_eq!(SessionRole::from_str("  Responder "), SessionRole::Responder);
    assert_eq!(SessionRole::from_str("\u{3000}responder\t\n"), SessionRole::Responder);
    assert_eq!(SessionRole::from_str("响应方"), SessionRole::Responder);
    assert_eq!(SessionRole::from_str("接收方"), SessionRole::Responder);
    assert_eq!(SessionRole::from_str("anything"), SessionRole::Initiator);
    assert_eq!(SessionRole::Responder.as_str(), "responder");
    assert_eq!(SessionRole::Initiator.as_str(), "initiator");
}

#[test]
fn persistent_state_starts_empty() {
    let s = PersistentState::new();
    assert!(s.tier.is_none() && s.shared_x.is_none() && s.private_key.is_none());
}

#[test]
fn ratchet_paths() {
    assert_eq!(ratchet_state_path(".star_state.json"), ".star_state_ratchet.json");
    assert_eq!(ratchet_state_path("dir/state.json"), "dir/state_ratchet.json");
    assert_eq!(ratchet_state_path("dir/state"), "dir/state_ratchet.json");
    assert_eq!(ratchet_state_path("dir/a_ratchet.json"), "dir/a_ratchet.json");
}

#[test]
fn tiers_by_number_and_text() {
    assert_eq!(tier_from_u8(2), SecurityTier::LiFire);
    assert_eq!(tier_from_u8(9), SecurityTier::QianHeaven);
    assert_eq!(tier_u8(SecurityTier::XunWind), 1);
    assert_eq!(tier_from_text(Some("1")), SecurityTier::XunWind);
    assert_eq!(tier_from_text(Some("+2")), SecurityTier::LiFire);
    assert_eq!(tier_from_text(Some("007")), SecurityTier::QianHeaven);
    assert_eq!(tier_from_text(Some("256")), SecurityTier::KanWater);
    assert_eq!(tier_from_text(Some(" 1")), SecurityTier::KanWater);
    assert_eq!(tier_from_text(Some("")), SecurityTier::KanWater);
    assert_eq!(tier_from_text(Some("x")), SecurityTier::KanWater);
    assert_eq!(tier_from_text(None), SecurityTier::KanWater);
    assert!(map_tier(SecurityTier::LiFire) == RatchetTier::Ren);
}

#[test]
fn shared_secret_expansion() {
    let mut x = [0u8; 32];
    for (i, b) in x.iter_mut().enumerate() {
        *b = i as u8;
    }
    let s = expand_shared(&x);
    assert_eq!(&s[..32], &x);
    assert_eq!(&s[32..], &x);
    assert_eq!(tauri_expand_shared(&x), s);
}

#[test]
fn hex_arguments() {
    let a = hex32(" 0x0102 ");
    assert_eq!(&a[..3], &[1, 2, 0]);
    assert_eq!(try_hex32("zz"), None);
    assert_eq!(try_hex32("ab").unwrap()[0], 0xab);
    let long = "11".repeat(40);
    assert_eq!(parse_event_hash(&long), [0x11u8; 32]);
    assert_eq!(try_parse_event_hash("0x0"), None);
}

#[test]
fn personal_trigrams() {
    let lines = "01".repeat(32);
    let p = parse_personal_hex(&lines);
    assert_eq!(p[0], 0);
    assert_eq!(p[1], 1);
    assert_eq!(p[63], 1);
    let h = parse_personal_hex("0xff");
    assert_eq!(h[0], 0xff);
    assert_eq!(h[1], 0);
    assert_eq!(parse_personal_hex("not hex"), [0u8; 64]);
}

#[test]
fn trigram_symbols_of_lines() {
    let mut bits = [0u8; 21];
    bits[0] = 1; // first trigram: value 1
    bits[5] = 1; // second trigram: value 4
    let syms = hexagram_symbols(&bits);
    assert_eq!(syms.len(), 7);
    assert_eq!(syms[0], "☷");
    assert_eq!(syms[1], "☵");
    assert_eq!(syms[2], "☰");
    let r = planet_result(&bits);
    assert_eq!(r.bits, bits.to_vec());
    assert_eq!(r.hex_string.len(), 22);
    assert_eq!(r.hexagrams, syms);
}

#[test]
fn front_end_results() {
    let c = compass_instance(SecurityTier::LiFire);
    assert_eq!(c.tier, 2);
    assert_eq!(c.tier_symbol, "☲");
    let info = tier_info(SecurityTier::XunWind);
    assert_eq!(info.planet_count, 5);
    assert!(info.has_ratchet && !info.has_obfuscation);
    let h = RatchetHeader::new([0xAB; 32], 3, 0);
    let e = encrypt_result(&h, &[1, 2]);
    assert_eq!(e.header_pk_preview, "abababab");
    assert_eq!(e.msg_num, 3);
    assert_eq!(e.packet.len(), 2 * 42);
    let d = decrypt_result(&h, "hi".to_string());
    assert_eq!(d.plaintext, "hi");
    assert_eq!(d.from_pk_preview, "abababab");
}

#[test]
fn packets_split_back() {
    let h = RatchetHeader::new([5; 32], 1, 2);
    let packet = build_packet(&h, &[9, 9, 9]);
    assert_eq!(packet.len(), 43);
    let (h2, ct) = split_packet(&packet).unwrap();
    assert!(h2 == h);
    assert_eq!(ct, &[9, 9, 9]);
    assert!(split_packet(&packet[..39]).is_none());
}

#[test]
fn self_test_roundtrip() {
    let got = self_test_exchange([6u8; 32], RatchetTier::Tian, None, "星枢自测".as_bytes());
    assert_eq!(got, Some("星枢自测".as_bytes().to_vec()));
}

#[test]
fn sessions_open_new_or_restored() {
    let (s, fresh) = open_session(SessionRole::Responder, [1u8; 32], RatchetTier::Kan, None, None);
    assert!(fresh);
    let saved = RatchetState::from_session(&s);
    let (r, fresh2) = open_session(SessionRole::Initiator, [2u8; 32], RatchetTier::Zhi, None, Some(saved));
    assert!(!fresh2);
    assert_eq!(r.receiving_chain_key(), s.receiving_chain_key());
    let alice = DoubleRatchetSession::new_sender([1u8; 32], RatchetTier::Kan, None);
    assert_eq!(alice.sending_chain_key(), r.receiving_chain_key());
}

#[test]
fn packet_hex_is_cleaned_then_decoded() {
    assert_eq!(packet_from_hex("  0x0a0B \n").unwrap(), vec![10u8, 11]);
    assert_eq!(packet_from_hex("0x0x").unwrap(), Vec::<u8>::new());
    assert!(packet_from_hex("0x0g").is_err());
    assert!(packet_from_hex("abc").is_err());
}
