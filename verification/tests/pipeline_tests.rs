use rand::RngCore;
use star_compass::error::CryptoError;
use star_compass::pipeline::chunker::{Block, BlockFlag, Chunker, ManifestBlock};
use star_compass::pipeline::traffic::{LengthDistribution, TrafficOrchestrator};
use star_compass::pipeline::{
    padding_bytes, Block as RawBlock, Chunker as RawChunker, ManifestBlock as RawManifest,
    MatrixObfuscator, MimicProtocol, PacketScheduler, TrafficOrchestrator as PrefixShaper,
};

// ---------------------------------------------------------------------------
// Chunking
// ---------------------------------------------------------------------------

#[test]
fn test_chunk_reassemble() {
    let key = [0x42u8; 32];
    let chunker = Chunker::new(&key);

    let msg_id = 12345;
    let plaintext = b"Hello, Star Compass! This is a test message for the chunker.".to_vec();

    let blocks = chunker.chunk(msg_id, &plaintext);
    assert!(!blocks.is_empty());

    let serialized: Vec<[u8; 128]> = blocks.iter().map(|b| b.serialize()).collect();
    let deserialized: Vec<Block> = serialized.iter().map(|d| Block::deserialize(d)).collect();

    let result = chunker.reassemble(deserialized).unwrap();
    assert_eq!(result, plaintext);
}

#[test]
fn test_chunker() {
    let key = [0x42u8; 32];
    let c = RawChunker::new(&key);
    let blocks = c.chunk(123, b"Hello");
    assert!(!blocks.is_empty());
}

#[test]
fn raw_chunk_layout() {
    let c = RawChunker::new(&[1u8; 32]);
    let payload = vec![0xABu8; 200];
    let blocks = c.chunk(7, &payload);
    assert_eq!(blocks.len(), 2);
    let b1 = RawBlock::from_bytes(&blocks[1]);
    assert_eq!(b1.msg_id, 7);
    assert_eq!(b1.offset, 107);
    assert_eq!(b1.flags, 0x01);
    assert_eq!(&b1.payload[..93], &payload[107..]);
    assert!(b1.payload[93..].iter().all(|&x| x == 0));
    assert!(c.chunk(7, b"").is_empty());
}

#[test]
fn multi_block_reassembly_out_of_order_with_padding() {
    let chunker = Chunker::new(&[9u8; 32]);
    let msg: Vec<u8> = (1..=250u32).map(|i| (i % 255 + 1) as u8).collect();
    let mut blocks = chunker.chunk(1, &msg);
    assert_eq!(blocks.len(), 3);
    assert_eq!(blocks[2].offset, 214);
    blocks.reverse();
    blocks.insert(1, chunker.gen_padding_block());
    assert_eq!(chunker.reassemble(blocks).unwrap(), msg);
}

#[test]
fn reassembly_drops_trailing_zeros_of_a_piece() {
    let chunker = Chunker::new(&[9u8; 32]);
    let msg = b"ends in zero\0".to_vec();
    let blocks = chunker.chunk(1, &msg);
    assert_eq!(chunker.reassemble(blocks).unwrap(), b"ends in zero".to_vec());
}

#[test]
fn tampered_block_is_rejected() {
    let chunker = Chunker::new(&[9u8; 32]);
    let mut blocks = chunker.chunk(1, b"payload");
    blocks[0].payload[0] ^= 1;
    assert!(matches!(chunker.reassemble(blocks), Err(CryptoError::BlockTagVerificationFailed)));
    let other = Chunker::new(&[8u8; 32]);
    let blocks = chunker.chunk(1, b"payload");
    assert!(matches!(other.reassemble(blocks), Err(CryptoError::BlockTagVerificationFailed)));
}

#[test]
fn block_wire_roundtrip() {
    let b = Block {
        msg_id: 0x0102030405060708,
        offset: 0x0A0B0C0D,
        flags: BlockFlag::Heartbeat,
        payload: [5u8; 107],
        tag: [6u8; 8],
    };
    let bytes = b.serialize();
    assert_eq!(&bytes[..8], &[8, 7, 6, 5, 4, 3, 2, 1]);
    assert_eq!(bytes[12], 0x08);
    let back = Block::deserialize(&bytes);
    assert_eq!(back.msg_id, b.msg_id);
    assert_eq!(back.offset, b.offset);
    assert_eq!(back.flags, BlockFlag::Heartbeat);
    assert_eq!(back.payload, b.payload);
    assert_eq!(back.tag, b.tag);
    let mut odd = bytes;
    odd[12] = 0xF3;
    assert_eq!(Block::deserialize(&odd).flags, BlockFlag::Data);
}

#[test]
fn padding_block_has_padding_flag() {
    let chunker = Chunker::new(&[9u8; 32]);
    let p = chunker.padding_block([1u8; 107]);
    assert_eq!(p.flags, BlockFlag::Padding);
    assert_eq!(p.msg_id, 0);
    assert_eq!(chunker.reassemble(vec![p]).unwrap(), Vec::<u8>::new());
}

#[test]
fn manifest_layouts() {
    let m = ManifestBlock {
        msg_id: 1,
        total_blocks: 2,
        nonce: [3u8; 12],
        merkle_root: [4u8; 32],
        tier: 5,
        timestamp: 6,
    };
    let v = m.to_bytes();
    assert_eq!(v.len(), 8 + 4 + 12 + 32 + 1 + 8);
    assert_eq!(v[0], 1);
    assert_eq!(v[8], 2);
    assert_eq!(v[56], 5);
    assert_eq!(v[57], 6);
    let r = RawManifest { msg_id: 1, total_blocks: 2, nonce: [3u8; 12], merkle_root: [4u8; 32], tier: 5 };
    let rv = r.to_bytes();
    assert_eq!(rv.len(), 57);
    assert_eq!(&rv[..], &v[..57]);
}

// ---------------------------------------------------------------------------
// Matrix obfuscation
// ---------------------------------------------------------------------------

#[test]
fn test_matrix_obfuscate_changes() {
    let obf = MatrixObfuscator::generate().unwrap();
    let input = [0x42u8; 128];
    let out = obf.obfuscate(&input);
    assert_ne!(out, input);
}

#[test]
fn test_matrix_roundtrip() {
    let obf = MatrixObfuscator::generate().unwrap();
    let input = [0x42u8; 128];
    let obfuscated = obf.obfuscate(&input);
    let deobfuscated = obf.deobfuscate(&obfuscated);
    assert_eq!(input, deobfuscated, "deobfuscate(obfuscate(x)) != x");
}

#[test]
fn test_matrix_roundtrip_random() {
    let mut rng = rand::thread_rng();
    let obf = MatrixObfuscator::generate().unwrap();
    let mut input = [0u8; 128];
    rng.fill_bytes(&mut input);
    let obfuscated = obf.obfuscate(&input);
    let deobfuscated = obf.deobfuscate(&obfuscated);
    assert_eq!(input, deobfuscated, "deobfuscate(obfuscate(random)) != random");
}

#[test]
fn matrix_from_transform_cases() {
    let mut identity = [[0u8; 2]; 16];
    for i in 0..16 {
        identity[i][i / 8] = 1 << (i % 8);
    }
    // The identity is its own inverse: refused.
    assert!(MatrixObfuscator::from_transform(identity).is_none());
    // A singular matrix (all zero) is refused too.
    assert!(MatrixObfuscator::from_transform([[0u8; 2]; 16]).is_none());
    // Adding row 1 to row 0 gives an invertible matrix other than its inverse... over GF(2)
    // (I + E) is its own inverse, so use a 3-cycle of rows instead.
    let mut perm = [[0u8; 2]; 16];
    for i in 0..16 {
        let j = match i {
            0 => 1,
            1 => 2,
            2 => 0,
            k => k,
        };
        perm[i][j / 8] = 1 << (j % 8);
    }
    let obf = MatrixObfuscator::from_transform(perm).unwrap();
    let mut block = [0u8; 128];
    for (i, b) in block.iter_mut().enumerate() {
        *b = i as u8;
    }
    let out = obf.obfuscate(&block);
    // Row 0 of the output is row 1 of the input.
    assert_eq!(&out[..8], &block[8..16]);
    assert_eq!(obf.deobfuscate(&out), block);
}

#[test]
fn matrix_disabled_passes_through() {
    let mut obf = MatrixObfuscator::generate().unwrap();
    obf.set_enabled(false);
    let input = [0x42u8; 128];
    assert_eq!(obf.obfuscate(&input), input);
    assert_eq!(obf.deobfuscate(&input), input);
}

// ---------------------------------------------------------------------------
// Traffic shaping
// ---------------------------------------------------------------------------

#[test]
fn test_prefix_strip() {
    let orch = TrafficOrchestrator::new(MimicProtocol::TLS);
    let mut data = vec![0x17, 0x03, 0x03, 0x00, 0x64, 0x42, 0x42, 0x42];
    orch.strip_prefix(&mut data);
    assert!(data.starts_with(&[0x42, 0x42, 0x42]));
}

#[test]
fn prefix_roundtrip_tls_and_http2() {
    for p in [MimicProtocol::TLS, MimicProtocol::HTTP2, MimicProtocol::WebSocket] {
        let orch = TrafficOrchestrator::new(p);
        let original = vec![1u8, 2, 3, 4, 5, 6];
        let mut data = original.clone();
        orch.add_prefix(&mut data);
        orch.strip_prefix(&mut data);
        assert_eq!(data, original);

        let shaper = PrefixShaper::new(p);
        let mut data = original.clone();
        shaper.add_prefix(&mut data);
        shaper.strip_prefix(&mut data);
        assert_eq!(data, original);
    }
}

#[test]
fn tls_prefix_carries_length() {
    let shaper = PrefixShaper::new(MimicProtocol::TLS);
    let mut data = vec![0u8; 300];
    shaper.add_prefix(&mut data);
    assert_eq!(&data[..5], &[0x17, 0x03, 0x03, 0x01, 0x2C]);
    assert_eq!(data.len(), 305);
}

#[test]
fn dns_prefix_is_not_undone_by_strip() {
    let shaper = PrefixShaper::new(MimicProtocol::DNS);
    let mut data: Vec<u8> = (0..10).collect();
    shaper.add_prefix(&mut data);
    assert_eq!(&data[..6], &[0, 0, 1, 0, 0, 0]);
    shaper.strip_prefix(&mut data);
    // Twelve bytes are taken off: six of the header and six of the data.
    assert_eq!(data, vec![6u8, 7, 8, 9]);

    let orch = TrafficOrchestrator::new(MimicProtocol::DNS);
    let mut d: Vec<u8> = (0..10).collect();
    orch.add_prefix(&mut d);
    assert_eq!(&d[2..4], &[1, 0]);
    orch.strip_prefix(&mut d);
    assert_eq!(d, vec![6u8, 7, 8, 9]);
}

#[test]
fn short_data_is_not_stripped() {
    let orch = TrafficOrchestrator::new(MimicProtocol::TLS);
    let mut data = vec![0x17, 0x03, 0x03, 0x00];
    orch.strip_prefix(&mut data);
    assert_eq!(data.len(), 4);
}

#[test]
fn padding_kinds() {
    assert_eq!(padding_bytes(3, 0, &[]), vec![0u8, 0, 0]);
    assert_eq!(padding_bytes(2, 1, &[]), vec![0x80u8, 0x80]);
    assert_eq!(padding_bytes(2, 2, &[9, 8, 7]), vec![9u8, 8]);
}

#[test]
fn padding_towards_target() {
    let shaper = PrefixShaper::new(MimicProtocol::TLS);
    let mut data = vec![1u8; 10];
    shaper.pad_with(&mut data, 12, 1, &[]);
    assert_eq!(data, vec![1u8, 1, 1, 1, 1, 1, 1, 1, 1, 1, 0x80, 0x80]);
    let mut data = vec![1u8; 10];
    shaper.add_padding(&mut data, 500);
    assert_eq!(data.len(), 10 + 127);
    let mut data = vec![1u8; 10];
    shaper.add_padding(&mut data, 5);
    assert_eq!(data.len(), 10);

    let orch = TrafficOrchestrator::new(MimicProtocol::TLS);
    let mut data = vec![1u8; 100];
    orch.add_padding(&mut data, 250);
    assert_eq!(data.len(), 250);
    assert_eq!(&data[..100], &[1u8; 100][..]);
    let tail = &data[100..];
    assert!(tail.iter().all(|&b| b == 0) || tail.iter().all(|&b| b == 0x80) || tail.len() == 150);
    let mut data = vec![1u8; 100];
    orch.add_padding(&mut data, 60);
    assert_eq!(data, vec![1u8; 100]);
    let mut data = vec![1u8; 100];
    orch.pad_with(&mut data, 150, 0, &[]);
    assert_eq!(data.len(), 150);
    assert!(data[100..].iter().all(|&b| b == 0));
    let mut data = vec![1u8; 3];
    orch.pad_with(&mut data, 5, 2, &[9, 8, 7]);
    assert_eq!(data, vec![1u8, 1, 1, 9, 8]);
}

#[test]
fn test_tls_mimic() {
    let orch = TrafficOrchestrator::new(MimicProtocol::TLS);
    let target = orch.target_length(256);
    assert!(target >= 40);

    let mut data = vec![0x42u8; 100];
    orch.add_padding(&mut data, target);
    assert!(data.len() >= target);
}

#[test]
fn target_lengths_follow_profile() {
    let orch = TrafficOrchestrator::new(MimicProtocol::TLS);
    assert_eq!(orch.target_with(256, 0), 256);
    assert_eq!(orch.target_with(256, -25), 231);
    assert_eq!(orch.target_with(100, 0), 128);
    // 96 is as near to 64 as to 128: the first bucket wins.
    assert_eq!(orch.target_with(96, 0), 64);
    assert_eq!(orch.target_with(5000, 140), 1540);
    let dns = TrafficOrchestrator::new(MimicProtocol::DNS);
    assert_eq!(dns.target_with(30, -2), 29);
    let t = orch.target_length(256);
    assert!((231..=281).contains(&t));
}

#[test]
fn default_distribution_is_tls() {
    let d = LengthDistribution::default();
    assert_eq!(d.min, 40);
    assert_eq!(d.max, 16400);
    assert_eq!(d.buckets.len(), 6);
    assert_eq!(d.buckets[2], (256, 25));
}

#[test]
fn heartbeats() {
    let orch = TrafficOrchestrator::new(MimicProtocol::TLS);
    let hb = orch.gen_heartbeat();
    assert!(hb.len() >= 40 && hb.len() <= 1400);
    assert_eq!(&hb[..3], &[0x17, 0x03, 0x03]);
    let len = ((hb[3] as usize) << 8) | hb[4] as usize;
    assert_eq!(len, hb.len() - 5);
    let shaper = PrefixShaper::new(MimicProtocol::HTTP2);
    let hb2 = shaper.gen_heartbeat();
    assert!(hb2.len() >= 40 && hb2.len() <= 1400);
}

#[test]
fn scheduler_queue() {
    let mut s = PacketScheduler::new(2);
    assert!(s.is_empty());
    assert!(s.dequeue().is_none());
    s.enqueue(vec![1]);
    s.enqueue(vec![2]);
    s.enqueue(vec![3]);
    assert_eq!(s.dequeue_at(5), None);
    assert_eq!(s.dequeue_at(1), Some(vec![2]));
    s.enqueue(vec![4]);
    let p = s.dequeue().unwrap();
    assert!(p == vec![1] || p == vec![4]);
    let rest = s.flush();
    assert_eq!(rest.len(), 1);
    assert!(s.is_empty());
    let mut t = PacketScheduler::new(3);
    t.enqueue(vec![1]);
    t.enqueue(vec![2]);
    assert_eq!(t.flush(), vec![vec![1u8], vec![2u8]]);
}

#[test]
fn scheduler_keeps_first_packets_in_order() {
    let mut s = PacketScheduler::new(3);
    for i in 0..5u8 {
        s.enqueue(vec![i, i]);
    }
    assert_eq!(s.flush(), vec![vec![0u8, 0], vec![1u8, 1], vec![2u8, 2]]);
    assert!(s.is_empty());
}

#[test]
fn obfuscation_is_linear_over_xor() {
    let mut obf = MatrixObfuscator::generate().unwrap();
    let mut a = [0u8; 128];
    let mut b = [0u8; 128];
    for i in 0..128 {
        a[i] = (i * 7 + 3) as u8;
        b[i] = (i * 13 + 101) as u8;
    }
    let mut x = [0u8; 128];
    for i in 0..128 {
        x[i] = a[i] ^ b[i];
    }
    let oa = obf.obfuscate(&a);
    let ob = obf.obfuscate(&b);
    let ox = obf.obfuscate(&x);
    for i in 0..128 {
        assert_eq!(ox[i], oa[i] ^ ob[i]);
    }
    assert_eq!(obf.obfuscate(&[0u8; 128]), [0u8; 128]);
    obf.set_enabled(false);
    assert_eq!(obf.obfuscate(&a), a);
}
