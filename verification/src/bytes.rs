//! Small byte-buffer helpers shared by the codecs.

use vstd::prelude::*;

verus! {

/// Appends `s` to `v`.
pub fn append_bytes(v: &mut Vec<u8>, s: &[u8])
    ensures
        final(v)@ == old(v)@ + s@,
{
    let ghost start = v@;
    let mut i: usize = 0;
    while i < s.len()
        invariant
            i <= s@.len(),
            v@ == start + s@.subrange(0, i as int),
        decreases s@.len() - i,
    {
        v.push(s[i]);
        i += 1;
        assert(v@ =~= start + s@.subrange(0, i as int));
    }
    assert(s@.subrange(0, s@.len() as int) =~= s@);
}

/// Whether two byte slices hold the same bytes.
pub fn bytes_equal(a: &[u8], b: &[u8]) -> (same: bool)
    ensures
        same == (a@ == b@),
{
    if a.len() != b.len() {
        return false;
    }
    let mut i: usize = 0;
    while i < a.len()
        invariant
            a@.len() == b@.len(),
            i <= a@.len(),
            forall|k: int| 0 <= k < i ==> a@[k] == b@[k],
        decreases a@.len() - i,
    {
        if a[i] != b[i] {
            return false;
        }
        i += 1;
    }
    assert(a@ =~= b@);
    true
}

/// The 32 bytes of `s` as an array.
pub fn to_array32(s: &[u8]) -> (arr: [u8; 32])
    requires
        s@.len() == 32,
    ensures
        arr@ == s@,
{
    let mut arr = [0u8; 32];
    for i in 0..32
        invariant
            s@.len() == 32,
            forall|k: int| 0 <= k < i ==> arr@[k] == s@[k],
    {
        arr[i] = s[i];
    }
    assert(arr@ =~= s@);
    arr
}

/// The 12 bytes of `s` as an array.
pub fn to_array12(s: &[u8]) -> (arr: [u8; 12])
    requires
        s@.len() == 12,
    ensures
        arr@ == s@,
{
    let mut arr = [0u8; 12];
    for i in 0..12
        invariant
            s@.len() == 12,
            forall|k: int| 0 <= k < i ==> arr@[k] == s@[k],
    {
        arr[i] = s[i];
    }
    assert(arr@ =~= s@);
    arr
}

/// Big-endian encoding of a 16-bit value.
pub open spec fn u16_be(x: u16) -> Seq<u8> {
    seq![(x >> 8u16) as u8, (x & 0xffu16) as u8]
}

} // verus!
