//! Block pipeline with typed flags: chunking a message into authenticated
//! 128-byte blocks, block (de)serialisation, padding blocks, and
//! reassembly (padding dropped, blocks ordered by offset, every tag checked,
//! the zero fill of each payload removed).

use vstd::prelude::*;
use vstd::bytes::{
    spec_u32_from_le_bytes, spec_u32_to_le_bytes, spec_u64_from_le_bytes, spec_u64_to_le_bytes,
    u32_from_le_bytes, u32_to_le_bytes, u64_from_le_bytes, u64_to_le_bytes,
};
use crate::bytes::append_bytes;
use crate::crypto::aesgcm::{block_tag, BlockAuth};
use crate::crypto::primitives::random_bytes;
use crate::error::CryptoError;
use crate::pipeline::blocks::{
    block_array, block_header, chunk_count, chunk_payload, chunk_piece, piece_count, tagged_bytes,
};

verus! {

/// Kind of a block.
#[derive(Debug, Clone, Copy, PartialEq, Eq, Structural)]
pub enum BlockFlag {
    Data,
    Manifest,
    Padding,
    Heartbeat,
}

/// Wire value of a flag.
pub open spec fn flag_value(f: BlockFlag) -> u8 {
    match f {
        BlockFlag::Data => 0x01,
        BlockFlag::Manifest => 0x02,
        BlockFlag::Padding => 0x04,
        BlockFlag::Heartbeat => 0x08,
    }
}

/// Flag read from a wire byte (its low four bits; unknown values read as
/// data).
pub open spec fn flag_of(b: u8) -> BlockFlag {
    let low = b & 0x0fu8;
    if low == 0x01u8 {
        BlockFlag::Data
    } else if low == 0x02u8 {
        BlockFlag::Manifest
    } else if low == 0x04u8 {
        BlockFlag::Padding
    } else if low == 0x08u8 {
        BlockFlag::Heartbeat
    } else {
        BlockFlag::Data
    }
}

fn flag_byte(f: BlockFlag) -> (b: u8)
    ensures
        b == flag_value(f),
{
    match f {
        BlockFlag::Data => 0x01,
        BlockFlag::Manifest => 0x02,
        BlockFlag::Padding => 0x04,
        BlockFlag::Heartbeat => 0x08,
    }
}

/// An atomic block: clear header fields, 107-byte payload, 8-byte tag.
#[derive(Clone, Copy)]
pub struct Block {
    pub msg_id: u64,
    pub offset: u32,
    pub flags: BlockFlag,
    pub payload: [u8; 107],
    pub tag: [u8; 8],
}

/// The 128 wire bytes of a block.
pub open spec fn block_bytes(b: Block) -> Seq<u8> {
    block_header(b.msg_id, b.offset, flag_value(b.flags)) + b.payload@ + b.tag@
}

/// The block's tag is the tag of its header and payload under `key`.
pub open spec fn tag_valid(key: Seq<u8>, b: Block) -> bool {
    block_tag(key, block_header(b.msg_id, b.offset, flag_value(b.flags)) + b.payload@) == b.tag@
}

impl Block {
    /// Packs the block into its 128 wire bytes.
    pub fn serialize(&self) -> (buf: [u8; 128])
        ensures
            buf@ == block_bytes(*self),
    {
        let data = tagged_bytes(self.msg_id, self.offset, flag_byte(self.flags), &self.payload);
        block_array(data.as_slice(), &self.tag)
    }

    /// Unpacks 128 wire bytes.
    pub fn deserialize(data: &[u8; 128]) -> (b: Block)
        ensures
            b.msg_id == spec_u64_from_le_bytes(data@.subrange(0, 8)),
            b.offset == spec_u32_from_le_bytes(data@.subrange(8, 12)),
            b.flags == flag_of(data@[12]),
            b.payload@ == data@.subrange(13, 120),
            b.tag@ == data@.subrange(120, 128),
    {
        let msg_id = u64_from_le_bytes(vstd::slice::slice_subrange(data, 0, 8));
        let offset = u32_from_le_bytes(vstd::slice::slice_subrange(data, 8, 12));
        let low = data[12] & 0x0f;
        let flags = if low == 0x01 {
            BlockFlag::Data
        } else if low == 0x02 {
            BlockFlag::Manifest
        } else if low == 0x04 {
            BlockFlag::Padding
        } else if low == 0x08 {
            BlockFlag::Heartbeat
        } else {
            BlockFlag::Data
        };
        let mut payload = [0u8; 107];
        for i in 0..107
            invariant
                forall|k: int| 0 <= k < i ==> payload@[k] == data@[13 + k],
        {
            payload[i] = data[13 + i];
        }
        let mut tag = [0u8; 8];
        for i in 0..8
            invariant
                forall|k: int| 0 <= k < i ==> tag@[k] == data@[120 + k],
        {
            tag[i] = data[120 + i];
        }
        assert(payload@ =~= data@.subrange(13, 120));
        assert(tag@ =~= data@.subrange(120, 128));
        Block { msg_id, offset, flags, payload, tag }
    }
}

/// Unpacking the wire bytes of a block gives every field of the block back.
pub proof fn lemma_block_roundtrip(b: Block)
    ensures
        ({
            let d = block_bytes(b);
            &&& d.len() == 128
            &&& spec_u64_from_le_bytes(d.subrange(0, 8)) == b.msg_id
            &&& spec_u32_from_le_bytes(d.subrange(8, 12)) == b.offset
            &&& flag_of(d[12]) == b.flags
            &&& d.subrange(13, 120) == b.payload@
            &&& d.subrange(120, 128) == b.tag@
        }),
{
    vstd::bytes::lemma_auto_spec_u64_to_from_le_bytes();
    vstd::bytes::lemma_auto_spec_u32_to_from_le_bytes();
    let d = block_bytes(b);
    let m = spec_u64_to_le_bytes(b.msg_id);
    let o = spec_u32_to_le_bytes(b.offset);
    assert(d.subrange(0, 8) =~= m);
    assert(d.subrange(8, 12) =~= o);
    assert(d.subrange(13, 120) =~= b.payload@);
    assert(d.subrange(120, 128) =~= b.tag@);
    assert(d[12] == flag_value(b.flags));
    assert(0x01u8 & 0x0fu8 == 0x01u8) by (bit_vector);
    assert(0x02u8 & 0x0fu8 == 0x02u8) by (bit_vector);
    assert(0x04u8 & 0x0fu8 == 0x04u8) by (bit_vector);
    assert(0x08u8 & 0x0fu8 == 0x08u8) by (bit_vector);
}

// ============================================================================
// Reassembly order and content
// ============================================================================

/// The blocks that are not padding, in their order.
pub open spec fn without_padding(s: Seq<Block>) -> Seq<Block>
    decreases s.len(),
{
    if s.len() == 0 {
        Seq::empty()
    } else if s.last().flags == BlockFlag::Padding {
        without_padding(s.drop_last())
    } else {
        without_padding(s.drop_last()).push(s.last())
    }
}

/// Where a block with offset `o` goes in offset-ordered `s`: after the
/// leading blocks whose offsets are at most `o`.
pub open spec fn insert_index(s: Seq<Block>, o: u32) -> nat
    decreases s.len(),
{
    if s.len() == 0 {
        0
    } else if s[0].offset <= o {
        1 + insert_index(s.drop_first(), o)
    } else {
        0
    }
}

pub open spec fn insert_by_offset(s: Seq<Block>, b: Block) -> Seq<Block> {
    s.insert(insert_index(s, b.offset) as int, b)
}

/// Stable sort by offset: blocks with equal offsets keep their order.
pub open spec fn sort_by_offset(s: Seq<Block>) -> Seq<Block>
    decreases s.len(),
{
    if s.len() == 0 {
        Seq::empty()
    } else {
        insert_by_offset(sort_by_offset(s.drop_last()), s.last())
    }
}

/// `p` without its trailing zero bytes.
pub open spec fn trim_zeros(p: Seq<u8>) -> Seq<u8>
    decreases p.len(),
{
    if p.len() > 0 && p.last() == 0u8 {
        trim_zeros(p.drop_last())
    } else {
        p
    }
}

/// The payloads of the blocks, each without its trailing zeros, joined.
pub open spec fn joined_payloads(s: Seq<Block>) -> Seq<u8>
    decreases s.len(),
{
    if s.len() == 0 {
        Seq::empty()
    } else {
        joined_payloads(s.drop_last()) + trim_zeros(s.last().payload@)
    }
}

pub open spec fn all_tags_valid(key: Seq<u8>, s: Seq<Block>) -> bool {
    forall|i: int| 0 <= i < s.len() ==> tag_valid(key, #[trigger] s[i])
}

/// `blocks` are the blocks of message `p` as `Chunker::chunk` makes them.
pub open spec fn is_chunking(key: Seq<u8>, msg_id: u64, p: Seq<u8>, blocks: Seq<Block>) -> bool {
    &&& blocks.len() == chunk_count(p.len() as int)
    &&& forall|i: int|
        0 <= i < blocks.len() ==> {
            &&& (#[trigger] blocks[i]).msg_id == msg_id
            &&& blocks[i].offset == (107 * i) as u32
            &&& blocks[i].flags == BlockFlag::Data
            &&& blocks[i].payload@ == chunk_payload(p, i)
            &&& tag_valid(key, blocks[i])
        }
}

proof fn lemma_insert_index(s: Seq<Block>, o: u32, k: int)
    requires
        0 <= k <= s.len(),
        forall|j: int| 0 <= j < k ==> s[j].offset <= o,
        k < s.len() ==> s[k].offset > o,
    ensures
        insert_index(s, o) == k,
    decreases s.len(),
{
    if s.len() > 0 && k > 0 {
        lemma_insert_index(s.drop_first(), o, k - 1);
    }
}

/// Sorts blocks by offset, keeping the order of blocks with equal offsets.
fn sort_blocks(v: &Vec<Block>) -> (sorted: Vec<Block>)
    ensures
        sorted@ == sort_by_offset(v@),
{
    let mut sorted: Vec<Block> = Vec::new();
    for i in 0..v.len()
        invariant
            sorted@ == sort_by_offset(v@.take(i as int)),
    {
        let b = v[i];
        let mut k: usize = 0;
        while k < sorted.len() && sorted[k].offset <= b.offset
            invariant
                k <= sorted@.len(),
                forall|j: int| 0 <= j < k ==> sorted@[j].offset <= b.offset,
            decreases sorted@.len() - k,
        {
            k += 1;
        }
        proof {
            lemma_insert_index(sorted@, b.offset, k as int);
            let t = v@.take(i + 1);
            assert(t.drop_last() =~= v@.take(i as int));
            assert(t.last() == b);
        }
        sorted.insert(k, b);
    }
    assert(v@.take(v@.len() as int) =~= v@);
    sorted
}

/// Length of `p` without its trailing zeros.
fn trimmed_len(p: &[u8; 107]) -> (n: usize)
    ensures
        n <= 107,
        p@.subrange(0, n as int) == trim_zeros(p@),
{
    let mut n: usize = 107;
    assert(p@.subrange(0, 107) =~= p@);
    while n > 0 && p[n - 1] == 0
        invariant
            n <= 107,
            trim_zeros(p@.subrange(0, n as int)) == trim_zeros(p@),
        decreases n,
    {
        assert(p@.subrange(0, n as int).drop_last() =~= p@.subrange(0, n - 1));
        n -= 1;
    }
    n
}

/// Splits messages into authenticated blocks and puts them back together.
pub struct Chunker {
    block_auth: BlockAuth,
}

impl Chunker {
    pub closed spec fn key_view(&self) -> Seq<u8> {
        self.block_auth.key_view()
    }

    pub fn new(block_key: &[u8; 32]) -> (c: Chunker)
        ensures
            c.key_view() == block_key@,
    {
        Chunker { block_auth: BlockAuth::new(block_key) }
    }

    /// One data block per 107-byte piece of `plaintext` (the last one
    /// zero-filled), at offsets 0, 107, 214, ...
    pub fn chunk(&self, msg_id: u64, plaintext: &[u8]) -> (blocks: Vec<Block>)
        requires
            plaintext@.len() <= u32::MAX,
        ensures
            is_chunking(self.key_view(), msg_id, plaintext@, blocks@),
    {
        let count = piece_count(plaintext.len());
        let mut blocks: Vec<Block> = Vec::new();
        for i in 0..count
            invariant
                count == chunk_count(plaintext@.len() as int),
                plaintext@.len() <= u32::MAX,
                blocks@.len() == i,
                forall|j: int|
                    0 <= j < i ==> {
                        &&& (#[trigger] blocks@[j]).msg_id == msg_id
                        &&& blocks@[j].offset == (107 * j) as u32
                        &&& blocks@[j].flags == BlockFlag::Data
                        &&& blocks@[j].payload@ == chunk_payload(plaintext@, j)
                        &&& tag_valid(self.key_view(), blocks@[j])
                    },
        {
            let payload = chunk_piece(plaintext, i);
            let offset = (107 * i) as u32;
            let data = tagged_bytes(msg_id, offset, 0x01, &payload);
            let tag = self.block_auth.compute_tag(data.as_slice());
            blocks.push(Block { msg_id, offset, flags: BlockFlag::Data, payload, tag });
        }
        blocks
    }

    /// Puts a message back together: padding blocks are dropped, the rest
    /// ordered by offset (stably) and each tag checked; the payloads, each
    /// without its trailing zeros, are joined.  Any bad tag gives
    /// `BlockTagVerificationFailed`.
    pub fn reassemble(&self, blocks: Vec<Block>) -> (r: Result<Vec<u8>, CryptoError>)
        ensures
            ({
                let s = sort_by_offset(without_padding(blocks@));
                match r {
                    Ok(v) => all_tags_valid(self.key_view(), s) && v@ == joined_payloads(s),
                    Err(e) => !all_tags_valid(self.key_view(), s)
                        && e is BlockTagVerificationFailed,
                }
            }),
    {
        let mut kept: Vec<Block> = Vec::new();
        for i in 0..blocks.len()
            invariant
                kept@ == without_padding(blocks@.take(i as int)),
        {
            let b = blocks[i];
            proof {
                let t = blocks@.take(i + 1);
                assert(t.drop_last() =~= blocks@.take(i as int));
                assert(t.last() == b);
            }
            if b.flags != BlockFlag::Padding {
                kept.push(b);
            }
        }
        assert(blocks@.take(blocks@.len() as int) =~= blocks@);
        let sorted = sort_blocks(&kept);
        let mut payload: Vec<u8> = Vec::new();
        for i in 0..sorted.len()
            invariant
                sorted@ == sort_by_offset(without_padding(blocks@)),
                payload@ == joined_payloads(sorted@.take(i as int)),
                forall|j: int| 0 <= j < i ==> tag_valid(self.key_view(), #[trigger] sorted@[j]),
        {
            let b = sorted[i];
            let data = tagged_bytes(b.msg_id, b.offset, flag_byte(b.flags), &b.payload);
            if !self.block_auth.verify_tag(data.as_slice(), &b.tag) {
                assert(!tag_valid(self.key_view(), sorted@[i as int]));
                return Err(CryptoError::BlockTagVerificationFailed);
            }
            let end = trimmed_len(&b.payload);
            proof {
                let t = sorted@.take(i + 1);
                assert(t.drop_last() =~= sorted@.take(i as int));
                assert(t.last() == b);
            }
            append_bytes(&mut payload, vstd::slice::slice_subrange(&b.payload, 0, end));
        }
        assert(sorted@.take(sorted@.len() as int) =~= sorted@);
        Ok(payload)
    }

    /// A padding block (id 0, offset 0) carrying the given payload, tagged.
    pub fn padding_block(&self, payload: [u8; 107]) -> (b: Block)
        ensures
            b.msg_id == 0,
            b.offset == 0,
            b.flags == BlockFlag::Padding,
            b.payload == payload,
            tag_valid(self.key_view(), b),
    {
        let data = tagged_bytes(0, 0, 0x04, &payload);
        let tag = self.block_auth.compute_tag(data.as_slice());
        Block { msg_id: 0, offset: 0, flags: BlockFlag::Padding, payload, tag }
    }

    /// A padding block with a random payload.
    pub fn gen_padding_block(&self) -> (b: Block)
        ensures
            b.msg_id == 0,
            b.offset == 0,
            b.flags == BlockFlag::Padding,
            tag_valid(self.key_view(), b),
    {
        let bytes = random_bytes(107);
        let mut payload = [0u8; 107];
        for i in 0..107
            invariant
                bytes@.len() == 107,
        {
            payload[i] = bytes[i];
        }
        self.padding_block(payload)
    }
}

// ============================================================================
// Chunking then reassembling
// ============================================================================

/// Last byte of the 107-byte piece `i` of `p`.
pub open spec fn piece_last(p: Seq<u8>, i: int) -> u8 {
    p[(if 107 * (i + 1) < p.len() {
        107 * (i + 1)
    } else {
        p.len() as int
    }) - 1]
}

/// No 107-byte piece of `p` ends in a zero byte.
pub open spec fn no_piece_ends_in_zero(p: Seq<u8>) -> bool {
    forall|i: int| 0 <= i < chunk_count(p.len() as int) ==> #[trigger] piece_last(p, i) != 0u8
}

proof fn lemma_without_padding_data(s: Seq<Block>)
    requires
        forall|i: int| 0 <= i < s.len() ==> (#[trigger] s[i]).flags == BlockFlag::Data,
    ensures
        without_padding(s) == s,
    decreases s.len(),
{
    if s.len() > 0 {
        lemma_without_padding_data(s.drop_last());
        assert(s.drop_last().push(s.last()) =~= s);
    }
}

/// Sorting blocks that are already in offset order changes nothing.
pub proof fn lemma_sort_sorted(s: Seq<Block>)
    requires
        forall|i: int, j: int| 0 <= i < j < s.len() ==> s[i].offset <= s[j].offset,
    ensures
        sort_by_offset(s) == s,
    decreases s.len(),
{
    if s.len() > 0 {
        let d = s.drop_last();
        lemma_sort_sorted(d);
        lemma_insert_index(d, s.last().offset, d.len() as int);
        assert(d.insert(d.len() as int, s.last()) =~= s);
    }
}

proof fn lemma_trim_zero_fill(x: Seq<u8>, m: nat)
    requires
        x.len() > 0,
        x.last() != 0u8,
    ensures
        trim_zeros(x + Seq::new(m, |k: int| 0u8)) == x,
    decreases m,
{
    if m == 0 {
        assert(x + Seq::new(0, |k: int| 0u8) =~= x);
    } else {
        let y = x + Seq::new(m, |k: int| 0u8);
        assert(y.drop_last() =~= x + Seq::new((m - 1) as nat, |k: int| 0u8));
        lemma_trim_zero_fill(x, (m - 1) as nat);
    }
}

proof fn lemma_joined_prefix(key: Seq<u8>, msg_id: u64, p: Seq<u8>, blocks: Seq<Block>, k: int)
    requires
        p.len() <= u32::MAX,
        is_chunking(key, msg_id, p, blocks),
        no_piece_ends_in_zero(p),
        0 <= k <= blocks.len(),
    ensures
        joined_payloads(blocks.take(k)) == p.take(if 107 * k < p.len() {
            107 * k
        } else {
            p.len() as int
        }),
    decreases k,
{
    if k == 0 {
        assert(blocks.take(0) =~= Seq::<Block>::empty());
        assert(p.take(0) =~= Seq::<u8>::empty());
    } else {
        lemma_joined_prefix(key, msg_id, p, blocks, k - 1);
        let t = blocks.take(k);
        assert(t.drop_last() =~= blocks.take(k - 1));
        let i = k - 1;
        let start = 107 * i;
        let end = if 107 * k < p.len() {
            107 * k
        } else {
            p.len() as int
        };
        assert(start < p.len());
        let piece = p.subrange(start, end);
        let fill = (107 - (end - start)) as nat;
        assert(blocks[i].payload@ == chunk_payload(p, i));
        assert(chunk_payload(p, i) =~= piece + Seq::new(fill, |j: int| 0u8));
        assert(piece.last() == p[end - 1]);
        assert(piece_last(p, i) != 0u8);
        lemma_trim_zero_fill(piece, fill);
        assert(p.take(start) + piece =~= p.take(end));
    }
}

/// Reassembling the blocks that chunking made gives the message back, when
/// no 107-byte piece of it ends in a zero byte (a piece's trailing zeros
/// cannot be told apart from the zero fill).
pub proof fn lemma_chunk_reassemble(key: Seq<u8>, msg_id: u64, p: Seq<u8>, blocks: Seq<Block>)
    requires
        p.len() <= u32::MAX,
        is_chunking(key, msg_id, p, blocks),
        no_piece_ends_in_zero(p),
    ensures
        all_tags_valid(key, sort_by_offset(without_padding(blocks))),
        joined_payloads(sort_by_offset(without_padding(blocks))) == p,
{
    lemma_without_padding_data(blocks);
    assert forall|i: int, j: int| 0 <= i < j < blocks.len() implies blocks[i].offset
        <= blocks[j].offset by {
        assert(107 * i < 107 * j);
        assert(107 * j < p.len());
    }
    lemma_sort_sorted(blocks);
    lemma_joined_prefix(key, msg_id, p, blocks, blocks.len() as int);
    assert(blocks.take(blocks.len() as int) =~= blocks);
    assert(p.take(p.len() as int) =~= p);
}

/// Message manifest with a timestamp.
pub struct ManifestBlock {
    pub msg_id: u64,
    pub total_blocks: u32,
    pub nonce: [u8; 12],
    pub merkle_root: [u8; 32],
    pub tier: u8,
    pub timestamp: u64,
}

impl ManifestBlock {
    /// Id || block count || nonce || Merkle root || tier || timestamp
    /// (integers little-endian).
    pub fn to_bytes(&self) -> (v: Vec<u8>)
        ensures
            v@ == spec_u64_to_le_bytes(self.msg_id) + spec_u32_to_le_bytes(self.total_blocks)
                + self.nonce@ + self.merkle_root@ + seq![self.tier] + spec_u64_to_le_bytes(
                self.timestamp,
            ),
    {
        let mut v = u64_to_le_bytes(self.msg_id);
        let t = u32_to_le_bytes(self.total_blocks);
        append_bytes(&mut v, t.as_slice());
        append_bytes(&mut v, &self.nonce);
        append_bytes(&mut v, &self.merkle_root);
        v.push(self.tier);
        let ts = u64_to_le_bytes(self.timestamp);
        append_bytes(&mut v, ts.as_slice());
        v
    }
}

} // verus!
