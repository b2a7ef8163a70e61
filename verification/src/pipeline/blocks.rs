//! Atomic 128-byte wire blocks: a 13-byte clear header (message id, byte
//! offset, flags), a 107-byte payload and an 8-byte block tag over header
//! and payload.

use vstd::prelude::*;
use vstd::bytes::{spec_u32_to_le_bytes, spec_u64_to_le_bytes, u32_to_le_bytes, u64_to_le_bytes};
use crate::bytes::append_bytes;

verus! {

/// The clear header: message id (LE), byte offset (LE), flags.
pub open spec fn block_header(msg_id: u64, offset: u32, flags: u8) -> Seq<u8> {
    spec_u64_to_le_bytes(msg_id) + spec_u32_to_le_bytes(offset) + seq![flags]
}

/// Number of 107-byte pieces of an `n`-byte message.
pub open spec fn chunk_count(n: int) -> int {
    (n + 106) / 107
}

/// Piece `i` of `p`, zero-filled to 107 bytes.
pub open spec fn chunk_payload(p: Seq<u8>, i: int) -> Seq<u8> {
    Seq::new(107, |k: int| if 107 * i + k < p.len() { p[107 * i + k] } else { 0u8 })
}

/// The 13 header bytes.
pub(crate) fn header_bytes(msg_id: u64, offset: u32, flags: u8) -> (h: Vec<u8>)
    ensures
        h@ == block_header(msg_id, offset, flags),
        h@.len() == 13,
{
    let mut h = u64_to_le_bytes(msg_id);
    let o = u32_to_le_bytes(offset);
    append_bytes(&mut h, o.as_slice());
    h.push(flags);
    h
}

/// Header followed by payload: the bytes a block tag covers.
pub(crate) fn tagged_bytes(msg_id: u64, offset: u32, flags: u8, payload: &[u8; 107]) -> (v: Vec<u8>)
    ensures
        v@ == block_header(msg_id, offset, flags) + payload@,
        v@.len() == 120,
{
    let mut v = header_bytes(msg_id, offset, flags);
    append_bytes(&mut v, payload);
    v
}

/// Piece `i` of `p` zero-filled to 107 bytes.
pub(crate) fn chunk_piece(p: &[u8], i: usize) -> (pl: [u8; 107])
    requires
        107 * i < p@.len(),
    ensures
        pl@ == chunk_payload(p@, i as int),
{
    let n = p.len();
    assert(107 * i < n);
    let start = 107 * i;
    let mut pl = [0u8; 107];
    let mut k: usize = 0;
    while k < 107
        invariant
            start == 107 * i,
            start < p@.len(),
            k <= 107,
            forall|j: int| 0 <= j < k ==> pl@[j] == chunk_payload(p@, i as int)[j],
            forall|j: int| k <= j < 107 ==> pl@[j] == 0u8,
        decreases 107 - k,
    {
        if k < p.len() - start {
            pl[k] = p[start + k];
        }
        k += 1;
    }
    assert(pl@ =~= chunk_payload(p@, i as int));
    pl
}

/// Number of pieces of an `n`-byte message.
pub(crate) fn piece_count(n: usize) -> (c: usize)
    ensures
        c == chunk_count(n as int),
{
    let q = n / 107;
    if n % 107 == 0 {
        q
    } else {
        q + 1
    }
}

/// Header, payload and tag laid out as one block.
pub(crate) fn block_array(auth: &[u8], tag: &[u8; 8]) -> (b: [u8; 128])
    requires
        auth@.len() == 120,
    ensures
        b@ == auth@ + tag@,
{
    let mut b = [0u8; 128];
    let mut k: usize = 0;
    while k < 128
        invariant
            auth@.len() == 120,
            k <= 128,
            forall|j: int| 0 <= j < k ==> b@[j] == (auth@ + tag@)[j],
        decreases 128 - k,
    {
        if k < 120 {
            b[k] = auth[k];
        } else {
            b[k] = tag[k - 120];
        }
        k += 1;
    }
    assert(b@ =~= auth@ + tag@);
    b
}

} // verus!
