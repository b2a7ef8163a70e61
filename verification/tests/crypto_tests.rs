use star_compass::crypto::aesgcm::{AeadCipher, BlockAuth, HmacTransport, NonceData};
use star_compass::crypto::hkdf::KeyDeriver;
use star_compass::crypto::kyber_x25519::{
    Ed25519KeyPair, HybridKeyExchange, HybridPublicKey, HybridKeyPair, KyberKeyPair, X25519KeyPair,
};
use star_compass::crypto::merkle::{LeafNode, MerkleTree};
use star_compass::crypto::ratchet::{
    DoubleRatchetSession, MessageKey, RatchetHeader, RatchetState, RatchetTier, SkipBuffer,
};
use star_compass::tiers::SecurityTier;

type HkdfSha256 = hkdf::Hkdf<sha2::Sha256>;

use hmac::Mac;
use sha2::Digest;
use star_compass::StarCompass;

// ---------------------------------------------------------------------------
// AEAD, block tags, transport MAC
// ---------------------------------------------------------------------------

#[test]
fn test_nonce_counter() {
    let base = [0x01u8; 12];
    let n1 = NonceData::with_counter(&base, 0);
    let n2 = NonceData::with_counter(&base, 1);
    assert_ne!(n1.as_bytes(), n2.as_bytes());
}

#[test]
fn test_gcm_encrypt_decrypt() {
    let key = [0x42u8; 32];
    let cipher = AeadCipher::new(&key);
    let nonce_base = [0xAAu8; 12];
    let nonce = NonceData::with_counter(&nonce_base, 0);
    let aad = b"session_id_123";
    let plaintext = b"Hello, Star Compass!";
    let ciphertext = cipher.encrypt(&nonce, aad, plaintext);
    let decrypted = cipher.decrypt(&nonce, aad, &ciphertext);
    assert_eq!(decrypted, Some(plaintext.to_vec()));
}

#[test]
fn test_block_auth() {
    let key = [0x55u8; 32];
    let auth = BlockAuth::new(&key);
    let data = b"test block data";
    let tag = auth.compute_tag(data);
    assert!(auth.verify_tag(data, &tag));
    assert!(!auth.verify_tag(b"wrong data", &tag));
}

#[test]
fn nonce_counter_xors_low_bytes() {
    let base = [0u8; 12];
    let n = NonceData::with_counter(&base, 0x0102);
    assert_eq!(n.as_bytes(), &[0, 0, 0, 0, 0x02, 0x01, 0, 0, 0, 0, 0, 0]);
}

#[test]
fn gcm_ciphertext_has_tag_and_differs() {
    let cipher = AeadCipher::new(&[7u8; 32]);
    let nonce = NonceData::from_array([9u8; 12]);
    let ct = cipher.encrypt(&nonce, b"", b"abc");
    assert_eq!(ct.len(), 3 + 16);
    assert_ne!(&ct[..3], b"abc");
}

#[test]
fn gcm_rejects_wrong_aad_and_short_input() {
    let cipher = AeadCipher::new(&[7u8; 32]);
    let nonce = NonceData::from_array([9u8; 12]);
    let ct = cipher.encrypt(&nonce, b"aad", b"secret");
    assert_eq!(cipher.decrypt(&nonce, b"other", &ct), None);
    assert_eq!(cipher.decrypt(&nonce, b"aad", &ct[..15]), None);
}

#[test]
fn hmac_sha256_known_vector() {
    // RFC 4231 test case with a 32-byte key is not standard; check the tag is
    // stable, 32 bytes, and verified only for the right data.
    let t = HmacTransport::new(&[0x0bu8; 32]);
    let mac = t.compute(b"Hi There");
    assert_eq!(mac, t.compute(b"Hi There"));
    assert!(t.verify(b"Hi There", &mac));
    assert!(!t.verify(b"Hi there", &mac));
}

// ---------------------------------------------------------------------------
// Key derivation
// ---------------------------------------------------------------------------

#[test]
fn test_domain_separation() {
    let shared = [0x42u8; 64];
    let salt = b"test_planet_salt_21hexagrams";
    let deriver = KeyDeriver::extract_master(&shared, salt);

    let k1 = deriver.derive_k1();
    let k2 = deriver.derive_k2();
    let k4 = deriver.derive_k4();
    let kb = deriver.derive_k_block();

    assert_ne!(k1, k2);
    assert_ne!(k2, k4);
    assert_ne!(k4, kb);
}

#[test]
fn test_0rtt_independent() {
    let psk = [0x99u8; 32];
    let k = KeyDeriver::derive_0rtt(&psk);
    assert_eq!(k.len(), 32);
}

#[test]
fn derive_fills_buffer_like_named_keys() {
    let deriver = KeyDeriver::extract_master(&[1u8; 64], b"salt");
    let mut out = [0u8; 32];
    deriver.derive("StarCompass-Content-Encryption", &mut out);
    assert_eq!(out, deriver.derive_k2());
}

#[test]
fn derive_leaves_oversized_buffer_alone() {
    let deriver = KeyDeriver::extract_master(&[1u8; 64], b"salt");
    let mut out = vec![7u8; 8161];
    deriver.derive("label", &mut out);
    assert!(out.iter().all(|&b| b == 7));
    let mut ok = vec![7u8; 8160];
    deriver.derive("label", &mut ok);
    assert!(ok.iter().any(|&b| b != 7));
}

#[test]
fn ratchet_labels_of_different_pairs_differ() {
    let deriver = KeyDeriver::extract_master(&[2u8; 64], b"salt");
    // "a-RatchetGen1-RatchetGen2" against "a-RatchetGen12".
    assert_ne!(deriver.derive_with_ratchet("a-RatchetGen1", 2), deriver.derive_with_ratchet("a", 12));
    assert_ne!(deriver.derive_with_ratchet("a", 1), deriver.derive_with_ratchet("b", 1));
    assert_ne!(deriver.derive_with_ratchet("a", 0), deriver.derive_with_ratchet("a", 10));
}

#[test]
fn ratchet_generation_changes_key() {
    let deriver = KeyDeriver::extract_master(&[1u8; 64], b"salt");
    let a = deriver.derive_with_ratchet("label", 1);
    let b = deriver.derive_with_ratchet("label", 2);
    assert_ne!(a, b);
    let mut out = [0u8; 32];
    deriver.derive("label-RatchetGen1207", &mut out);
    assert_eq!(deriver.derive_with_ratchet("label", 1207), out);
    deriver.derive("label-RatchetGen0", &mut out);
    assert_eq!(deriver.derive_with_ratchet("label", 0), out);
}

// ---------------------------------------------------------------------------
// Merkle tree
// ---------------------------------------------------------------------------

fn build_tree(leaf_count: usize) -> (MerkleTree, Vec<LeafNode>) {
    let data: Vec<_> = (0..leaf_count).map(|i| (i as u64, 0u32, vec![i as u8; 107])).collect();
    let leaves: Vec<_> = data.iter().map(|(id, off, pay)| LeafNode::new(*id, *off, pay)).collect();
    let tree = MerkleTree::build(data);
    (tree, leaves)
}

#[test]
fn test_merkle_build() {
    let (tree, leaves) = build_tree(3);
    assert_ne!(tree.root(), [0u8; 32]);

    for (i, leaf) in leaves.iter().enumerate() {
        let proof = tree.leaf_proof(i).unwrap();
        assert!(tree.verify(leaf, &proof), "leaf {} should verify", i);
    }
}

#[test]
fn merkle_path_flags_are_index_bits() {
    let (tree, _leaves) = build_tree(8);
    for i in 0..8usize {
        let proof = tree.leaf_proof(i).unwrap();
        assert_eq!(proof.path.len(), 3);
        for (k, entry) in proof.path.iter().enumerate() {
            assert_eq!(entry.0, (i >> k) & 1 == 0);
        }
    }
}

#[test]
fn test_merkle_wrong_leaf() {
    let (tree, leaves) = build_tree(2);
    let wrong = LeafNode::new(99, 0, &vec![0xFF; 107]);
    let proof = tree.leaf_proof(0).unwrap();
    assert!(!tree.verify(&wrong, &proof), "wrong leaf should not verify");
    assert!(tree.verify(&leaves[0], &proof), "correct leaf should verify");
}

#[test]
fn test_merkle_single() {
    let (tree, leaves) = build_tree(1);
    let proof = tree.leaf_proof(0).unwrap();
    assert!(tree.verify(&leaves[0], &proof), "single leaf should verify");
}

#[test]
fn test_merkle_padding() {
    let (tree, leaves) = build_tree(3);
    assert_eq!(tree.leaf_count(), 4);
    let proof = tree.leaf_proof(2).unwrap();
    assert!(tree.verify(&leaves[2], &proof), "padded leaf should verify");
}

#[test]
fn merkle_empty_tree_and_out_of_range_proof() {
    let tree = MerkleTree::build(Vec::new());
    assert_eq!(tree.root(), [0u8; 32]);
    assert_eq!(tree.leaf_count(), 0);
    assert!(tree.leaf_proof(0).is_none());
    let (tree3, _) = build_tree(3);
    assert!(tree3.leaf_proof(4).is_none());
    assert!(tree3.leaf_proof(3).is_some());
}

#[test]
fn merkle_proof_of_other_leaf_fails() {
    let (tree, leaves) = build_tree(4);
    let proof = tree.leaf_proof(1).unwrap();
    assert!(!tree.verify(&leaves[0], &proof));
    assert_eq!(proof.path.len(), 2);
}

// ---------------------------------------------------------------------------
// Key pairs
// ---------------------------------------------------------------------------

#[test]
fn x25519_agreement_is_symmetric() {
    let a = X25519KeyPair::generate();
    let b = X25519KeyPair::generate();
    assert_eq!(a.shared_secret(&b.public), b.shared_secret(&a.public));
}

#[test]
fn x25519_rfc7748_vector() {
    // RFC 7748 section 6.1 (Alice's key pair).
    let sk: [u8; 32] = hex::decode("77076d0a7318a57d3c16c17251b26645df4c2f87ebc0992ab177fba51db92c2a")
        .unwrap()
        .try_into()
        .unwrap();
    let kp = X25519KeyPair::from_seed(&sk);
    assert_eq!(hex::encode(kp.public), "8520f0098930a754748b7ddcb43ef75a0dbf3a0d26381af4eba4a98eaa9b4e6a");
}

#[test]
fn test_hybrid_keypair_not_zero() {
    for seed in 1..=10u64 {
        let kp = HybridKeyPair::generate();
        assert!(kp.public_key().x25519.iter().any(|&b| b != 0), "draw {} generated zero pk", seed);
    }
}

#[test]
fn hybrid_static_dh_agrees() {
    let a = HybridKeyPair::generate();
    let b = HybridKeyPair::generate();
    assert_eq!(a.dh_static(&b.public_key()), b.dh_static(&a.public_key()));
    assert_ne!(a.public_key().x25519, [0u8; 32]);
}

// ---------------------------------------------------------------------------
// Double ratchet
// ---------------------------------------------------------------------------

#[test]
fn test_minimal_aead() {

    let shared = [0x01u8; 32];
    let salt = vec![0u8; 40];
    let tier_label = b"StarCompass-Kan";

    let mut send_info = tier_label.to_vec();
    send_info.extend_from_slice(b"send-chain");
    let mut alice_send_ck = [0u8; 32];
    let hk = HkdfSha256::new(Some(&salt), &shared);
    let _ = hk.expand(&send_info, &mut alice_send_ck);

    let bob_recv_ck = alice_send_ck;

    let mut alice_msg_info = tier_label.to_vec();
    alice_msg_info.extend_from_slice(&0usize.to_le_bytes());
    let mut alice_msg_key = [0u8; 32];
    let hk_a = HkdfSha256::new(Some(&salt), &alice_send_ck);
    let _ = hk_a.expand(&alice_msg_info, &mut alice_msg_key);
    let mut step_info = tier_label.to_vec();
    step_info.extend_from_slice(b"ratchet-step");
    let mut alice_send_ck_after = [0u8; 32];
    let hk_as = HkdfSha256::new(Some(&salt), &alice_send_ck);
    let _ = hk_as.expand(&step_info, &mut alice_send_ck_after);

    let mut alice_nonce_info = tier_label.to_vec();
    alice_nonce_info.extend_from_slice(b"nonce");
    alice_nonce_info.extend_from_slice(&0usize.to_le_bytes());
    let mut alice_nonce = [0u8; 12];
    let hk_an = HkdfSha256::new(Some(&salt), &alice_send_ck);
    let _ = hk_an.expand(&alice_nonce_info, &mut alice_nonce);

    let pt = b"test";
    let cipher = AeadCipher::new(&alice_msg_key);
    let ct = cipher.encrypt(&NonceData::from(alice_nonce), &[], pt);

    let mut bob_msg_info = tier_label.to_vec();
    bob_msg_info.extend_from_slice(&0usize.to_le_bytes());
    let mut bob_msg_key = [0u8; 32];
    let hk_b = HkdfSha256::new(Some(&salt), &bob_recv_ck);
    let _ = hk_b.expand(&bob_msg_info, &mut bob_msg_key);
    let mut bob_nonce_info = tier_label.to_vec();
    bob_nonce_info.extend_from_slice(b"nonce");
    bob_nonce_info.extend_from_slice(&0usize.to_le_bytes());
    let mut bob_nonce = [0u8; 12];
    let hk_bn = HkdfSha256::new(Some(&salt), &bob_recv_ck);
    let _ = hk_bn.expand(&bob_nonce_info, &mut bob_nonce);

    assert_eq!(alice_msg_key, bob_msg_key, "msg_keys must match");
    assert_eq!(alice_nonce, bob_nonce, "nonces must match");

    let bob_cipher = AeadCipher::new(&bob_msg_key);
    let pt2 = bob_cipher.decrypt(&NonceData::from(bob_nonce), &[], &ct);
    assert!(pt2.is_some(), "decrypt must succeed, got {:?}", pt2);
    assert_eq!(pt2.unwrap(), pt);
}

#[test]
fn test_self_test_scenario() {
    let alice_kx = HybridKeyPair::generate();
    let bob_kx = HybridKeyPair::generate();
    let bob_pk = bob_kx.public_key();
    let x_shared = alice_kx.dh_static(&bob_pk);

    let mut shared64 = [0u8; 64];
    shared64[..32].copy_from_slice(&x_shared);
    shared64[32..].copy_from_slice(&x_shared);

    let star_tier = SecurityTier::KanWater;
    let mut star = StarCompass::new(star_tier);
    star.init_with_shared_secret(&shared64);
    let salt = star.salt().cloned();

    let ratchet_tier = match star_tier {
        SecurityTier::KanWater => RatchetTier::Kan,
        SecurityTier::XunWind => RatchetTier::Zhi,
        SecurityTier::LiFire => RatchetTier::Ren,
        SecurityTier::QianHeaven => RatchetTier::Tian,
    };

    let mut alice = DoubleRatchetSession::new_sender(x_shared, ratchet_tier.clone(), salt.clone());
    let mut bob = DoubleRatchetSession::new_receiver(x_shared, ratchet_tier.clone(), salt.clone());

    let sample = b"Star Compass self-test: Double Ratchet Communication";
    let (ct, hdr) = alice.encrypt(sample, &[]);

    let pt = bob.decrypt(&hdr, &ct, &[]);
    assert!(pt.is_some(), "Bob should decrypt Alice's message");
    assert_eq!(pt.unwrap(), sample);
}

#[test]
fn test_basic_ratchet() {
    let shared = [0x01u8; 32];
    let tier = RatchetTier::Kan;

    let mut alice = DoubleRatchetSession::new_sender(shared, tier.clone(), None);
    let mut bob = DoubleRatchetSession::new_receiver(shared, tier.clone(), None);

    let (ct1, hdr1) = alice.encrypt(b"Hello, Bob!", &[]);
    assert!(hdr1.public_key == alice.public_key());

    let pt1 = bob.decrypt(&hdr1, &ct1, &[]);
    assert!(pt1.is_some(), "Bob should decrypt Alice's message");
    assert_eq!(pt1.unwrap(), b"Hello, Bob!");

    let (ct2, hdr2) = bob.encrypt(b"Hi, Alice!", &[]);

    let pt2 = alice.decrypt(&hdr2, &ct2, &[]);
    assert!(pt2.is_some(), "Alice should decrypt Bob's reply");
    assert_eq!(pt2.unwrap(), b"Hi, Alice!");

    let (ct3, hdr3) = alice.encrypt(b"Round 3!", &[]);
    let pt3 = bob.decrypt(&hdr3, &ct3, &[]);
    assert!(pt3.is_some(), "Bob should decrypt message 3");
    assert_eq!(pt3.unwrap(), b"Round 3!");
}

#[test]
fn test_multiple_ratchet_cycles() {
    let shared = [
        0xABu8, 0xCD, 0xEF, 0x01, 0x23, 0x45, 0x67, 0x89, 0xFE, 0xDC, 0xBA, 0x98, 0x76, 0x54, 0x32,
        0x10, 0x11, 0x22, 0x33, 0x44, 0x55, 0x66, 0x77, 0x88, 0x99, 0xAA, 0xBB, 0xCC, 0xDD, 0xEE,
        0xFF, 0x00,
    ];
    let tier = RatchetTier::Zhi;

    let mut alice = DoubleRatchetSession::new_sender(shared, tier.clone(), None);
    let mut bob = DoubleRatchetSession::new_receiver(shared, tier.clone(), None);

    for i in 0..5 {
        let (ct, hdr) = alice.encrypt(format!("Alice msg {}", i).as_bytes(), &[]);
        let dec = bob.decrypt(&hdr, &ct, &[]);
        assert!(dec.is_some(), "Bob should decrypt msg {}", i);
    }

    for i in 0..3 {
        let (ct, hdr) = bob.encrypt(format!("Bob msg {}", i).as_bytes(), &[]);
        let dec = alice.decrypt(&hdr, &ct, &[]);
        assert!(dec.is_some(), "Alice should decrypt msg {}", i);
    }
}

#[test]
fn headers_number_messages_in_turn() {
    let mut alice = DoubleRatchetSession::new_sender([9u8; 32], RatchetTier::Kan, None);
    let pk = alice.public_key();
    for i in 0..4usize {
        let msg = vec![i as u8; i + 1];
        let (ct, h) = alice.encrypt(&msg, b"aad");
        assert_eq!(h.message_number, i);
        assert_eq!(h.public_key, pk);
        assert_eq!(ct.len(), msg.len() + 16);
    }
}

#[test]
fn interleaved_exchange_stays_in_step() {
    let mut alice = DoubleRatchetSession::new_sender([4u8; 32], RatchetTier::Ren, None);
    let mut bob = DoubleRatchetSession::new_receiver([4u8; 32], RatchetTier::Ren, None);
    let order = [true, false, false, true, true, false, true, false];
    for (k, &from_alice) in order.iter().enumerate() {
        let msg = format!("message {}", k).into_bytes();
        if from_alice {
            let (ct, h) = alice.encrypt(&msg, b"x");
            assert_eq!(bob.decrypt(&h, &ct, b"x"), Some(msg));
        } else {
            let (ct, h) = bob.encrypt(&msg, b"x");
            assert_eq!(alice.decrypt(&h, &ct, b"x"), Some(msg));
        }
    }
}

#[test]
fn test_chain_keys_differ_between_parties() {
    let shared = [0x01u8; 32];
    let tier = RatchetTier::Kan;

    let alice = DoubleRatchetSession::new_sender(shared, tier.clone(), None);
    let bob = DoubleRatchetSession::new_receiver(shared, tier.clone(), None);

    assert_ne!(alice.sending_chain_key(), alice.receiving_chain_key());
    assert_ne!(bob.sending_chain_key(), bob.receiving_chain_key());
}

#[test]
fn sender_and_receiver_chains_mirror() {
    let alice = DoubleRatchetSession::new_sender([5u8; 32], RatchetTier::Ren, None);
    let bob = DoubleRatchetSession::new_receiver([5u8; 32], RatchetTier::Ren, None);
    assert_eq!(alice.sending_chain_key(), bob.receiving_chain_key());
    assert_eq!(alice.receiving_chain_key(), bob.sending_chain_key());
}

#[test]
fn out_of_order_message_uses_skipped_chain() {
    let mut alice = DoubleRatchetSession::new_sender([3u8; 32], RatchetTier::Kan, None);
    let mut bob = DoubleRatchetSession::new_receiver([3u8; 32], RatchetTier::Kan, None);
    let (_ct0, _h0) = alice.encrypt(b"zero", &[]);
    let (ct1, h1) = alice.encrypt(b"one", &[]);
    // Message 1 first: the chain is stepped past message 0.
    assert_eq!(bob.decrypt(&h1, &ct1, &[]), Some(b"one".to_vec()));
    // Replaying message 1 is behind the chain and fails.
    assert_eq!(bob.decrypt(&h1, &ct1, &[]), None);
}

#[test]
fn tampered_ciphertext_is_rejected() {
    let mut alice = DoubleRatchetSession::new_sender([4u8; 32], RatchetTier::Kan, None);
    let mut bob = DoubleRatchetSession::new_receiver([4u8; 32], RatchetTier::Kan, None);
    let (mut ct, hdr) = alice.encrypt(b"payload", b"ctx");
    ct[0] ^= 1;
    assert_eq!(bob.decrypt(&hdr, &ct, b"ctx"), None);
}

#[test]
fn header_serialize_roundtrip() {
    let h = RatchetHeader::new([7u8; 32], 5, 9);
    let bytes = h.serialize();
    assert_eq!(bytes.len(), 40);
    assert_eq!(&bytes[32..36], &[5, 0, 0, 0]);
    let back = RatchetHeader::deserialize(&bytes).unwrap();
    assert!(back == h);
    assert!(RatchetHeader::deserialize(&bytes[..39]).is_none());
}

#[test]
fn tier_labels_and_skip_limits() {
    assert_eq!(RatchetTier::Kan.info_label(), Some(&b"StarCompass-Kan"[..]));
    assert_eq!(RatchetTier::Tian.info_label(), Some(&b"StarCompass-Tian"[..]));
    assert_eq!(RatchetTier::Zhi.max_skip(), 500);
    assert_eq!(RatchetTier::Tian.max_skip(), 5000);
}

#[test]
fn skip_buffer_refuses_when_full() {
    let mut b = SkipBuffer::new(2);
    assert!(b.store(5, MessageKey::from_slice(&[1u8; 32])));
    assert!(b.store(1, MessageKey::from_slice(&[2u8; 32])));
    assert!(!b.store(9, MessageKey::from_slice(&[3u8; 32])));
    assert!(b.get(9).is_none());
    assert_eq!(b.get(5).unwrap().as_bytes(), &[1u8; 32]);
    let items = b.iter();
    assert_eq!(items.len(), 2);
    assert_eq!(items[0].0, 1);
    assert_eq!(items[1].0, 5);
}

#[test]
fn saved_state_restores_session() {
    let mut alice = DoubleRatchetSession::new_sender([8u8; 32], RatchetTier::Zhi, None);
    let mut bob = DoubleRatchetSession::new_receiver([8u8; 32], RatchetTier::Zhi, None);
    let (ct0, h0) = alice.encrypt(b"first", &[]);
    assert!(bob.decrypt(&h0, &ct0, &[]).is_some());

    let saved = RatchetState::from_session(&alice);
    assert_eq!(saved.tier, 1);
    assert_eq!(saved.root_key, hex::encode([8u8; 32]));
    assert_eq!(saved.send_message_number, 1);
    let mut restored = saved.to_session().unwrap();
    assert_eq!(restored.sending_chain_key(), alice.sending_chain_key());
    assert_eq!(restored.receiving_chain_key(), alice.receiving_chain_key());
    assert_eq!(restored.public_key(), alice.public_key());

    let (ct1, h1) = restored.encrypt(b"second", &[]);
    assert_eq!(bob.decrypt(&h1, &ct1, &[]), Some(b"second".to_vec()));
}

#[test]
fn saved_state_with_bad_tier_or_hex_is_refused() {
    let alice = DoubleRatchetSession::new_sender([8u8; 32], RatchetTier::Kan, None);
    let mut saved = RatchetState::from_session(&alice);
    saved.tier = 4;
    assert!(saved.to_session().is_none());
    let mut saved = RatchetState::from_session(&alice);
    saved.root_key = "zz".to_string();
    assert!(saved.to_session().is_none());
}

#[test]
fn ed25519_seed_one_gives_base_point() {
    let mut seed = [0u8; 32];
    seed[0] = 1;
    let kp = Ed25519KeyPair::from_seed(&seed);
    assert_eq!(hex::encode(kp.public), "5866666666666666666666666666666666666666666666666666666666666666");
}

#[test]
fn kyber_placeholder_shares_ciphertext_prefix() {
    let mut kp = KyberKeyPair::generate();
    let peer = KyberKeyPair::generate();
    let shared = kp.encapsulate(&peer.public);
    assert_eq!(shared, kp.decapsulate());
    assert_eq!(kp.secret().len(), 1632);
}

#[test]
fn hybrid_exchange_starts_with_x25519_secret() {
    let a = HybridKeyExchange::generate();
    let b = HybridKeyExchange::generate();
    let hybrid = a.shared_secret(&b.x25519.public, &b.kyber.public);
    assert_eq!(&hybrid[..32], &a.x25519.shared_secret(&b.x25519.public));
    let restored = HybridKeyExchange::restore(a.x25519.secret());
    assert_eq!(restored.x25519.public, a.x25519.public);
}

#[test]
fn hybrid_public_key_wraps_x25519() {
    let pk = HybridPublicKey::from_bytes(&[3u8; 32]).unwrap();
    assert_eq!(pk.as_bytes(), &[3u8; 32]);
    assert_eq!(pk.kyber, [0u8; 800]);
}

#[test]
fn transport_mac_matches_hmac_sha256() {
    let key = [0x21u8; 32];
    let t = HmacTransport::new(&key);
    let mut mac = hmac::Hmac::<sha2::Sha256>::new_from_slice(&key).unwrap();
    mac.update(b"message");
    let expected: [u8; 32] = mac.finalize().into_bytes().into();
    assert_eq!(t.compute(b"message"), expected);
    let auth = BlockAuth::new(&key);
    assert_eq!(auth.compute_tag(b"message"), expected[..8]);
}

#[test]
fn leaf_hash_is_sha256_of_record() {
    let leaf = LeafNode::new(1, 2, b"abc");
    let mut data = 1u64.to_le_bytes().to_vec();
    data.extend_from_slice(&2u32.to_le_bytes());
    data.extend_from_slice(b"abc");
    let expected: [u8; 32] = sha2::Sha256::digest(&data).into();
    assert_eq!(leaf.as_bytes(), &expected);
}

#[test]
fn master_key_is_hkdf_extract_expand() {
    let shared = [0x42u8; 64];
    let salt = b"salt";
    let deriver = KeyDeriver::extract_master(&shared, salt);
    let mut master = [0u8; 32];
    HkdfSha256::new(Some(salt), &shared).expand(b"StarCompass-Master-v1", &mut master).unwrap();
    let mut k2 = [0u8; 32];
    HkdfSha256::new(None, &master).expand(b"StarCompass-Content-Encryption", &mut k2).unwrap();
    assert_eq!(deriver.derive_k2(), k2);
}
