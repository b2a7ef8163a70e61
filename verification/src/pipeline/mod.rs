//! Obfuscation and traffic pipeline.

pub mod blocks;
pub mod chunker;
pub mod gf2;
pub mod traffic;

use vstd::prelude::*;
use std::collections::VecDeque;
use vstd::bytes::{
    spec_u32_from_le_bytes, spec_u32_to_le_bytes, spec_u64_from_le_bytes, spec_u64_to_le_bytes,
    u32_from_le_bytes, u32_to_le_bytes, u64_from_le_bytes, u64_to_le_bytes,
};
use crate::bytes::{append_bytes, u16_be};
use crate::crypto::aesgcm::{block_tag, BlockAuth};
use crate::crypto::primitives::{random_bytes, random_usize_inclusive};
use crate::pipeline::blocks::{
    block_array, block_header, chunk_count, chunk_payload, chunk_piece, piece_count, tagged_bytes,
};
use crate::pipeline::gf2::{
    apply_rows, bit16, combo, identity_rows, invertible, is_left_inverse, is_unit, lemma_bit_unit,
    lemma_bit_xor, lemma_combo_linear, lemma_combo_swap, lemma_combo_unit, lemma_combo_update,
    lemma_involution_unique, lemma_left_inverse_apply, lemma_no_pivot_singular, lemma_unit_shift,
    lemma_xor16, lemma_xor8, lemma_xor_rules, lemma_xor_sum_columns, swap_bits, xor_bytes, xor_sum,
};

verus! {

/// 16x16 GF(2) matrix obfuscator over 128-byte blocks (16 rows of 8 bytes):
/// each of the 8 byte columns is multiplied by the matrix.
pub struct MatrixObfuscator {
    transform: [[u8; 2]; 16],
    inv_transform: [[u8; 2]; 16],
    enabled: bool,
}

/// Row `i` of a packed matrix as a 16-bit mask (bit `j` = column `j`).
pub open spec fn row_mask(m: [[u8; 2]; 16], i: int) -> u16 {
    (m[i][0] as u16) | ((m[i][1] as u16) << 8u16)
}

/// The rows of a packed matrix as masks.
pub open spec fn rows_of(m: [[u8; 2]; 16]) -> Seq<u16> {
    Seq::new(16, |i: int| row_mask(m, i))
}

/// Byte column `c` (0..8) of a 128-byte block laid out as 16 rows of 8 bytes.
pub open spec fn block_column(block: Seq<u8>, c: int) -> Seq<u8> {
    Seq::new(16, |r: int| block[r * 8 + c])
}

/// Every byte column of `block` multiplied by the matrix with rows `rows`.
pub open spec fn transform_block(rows: Seq<u16>, block: Seq<u8>) -> Seq<u8> {
    Seq::new(128, |k: int| xor_sum(rows[k / 8], block_column(block, k % 8), 16))
}

proof fn lemma_byte_bits(b0: u8, b1: u8, j: u16)
    requires
        j < 16,
    ensures
        j < 8 ==> (bit16((b0 as u16) | ((b1 as u16) << 8u16), j) == ((b0 >> (j as u8)) & 1u8
            != 0u8)),
        j >= 8 ==> (bit16((b0 as u16) | ((b1 as u16) << 8u16), j) == ((b1 >> ((j - 8) as u8))
            & 1u8 != 0u8)),
{
    if j < 8 {
        assert((((((b0 as u16) | ((b1 as u16) << 8u16)) >> j) & 1u16) == 1u16) == ((b0 >> (
        j as u8)) & 1u8 != 0u8)) by (bit_vector)
            requires
                j < 8,
        ;
    } else {
        assert((((((b0 as u16) | ((b1 as u16) << 8u16)) >> j) & 1u16) == 1u16) == ((b1 >> ((j
            - 8) as u8)) & 1u8 != 0u8)) by (bit_vector)
            requires
                8 <= j < 16,
        ;
    }
}

proof fn lemma_pack(x: u16)
    ensures
        (((x & 0xffu16) as u8) as u16) | (((((x >> 8u16) & 0xffu16) as u8) as u16) << 8u16) == x,
{
    assert((((x & 0xffu16) as u8) as u16) | (((((x >> 8u16) & 0xffu16) as u8) as u16) << 8u16)
        == x) by (bit_vector);
}

/// GF(2) matrix times a column: `out[i] = XOR_j (M[i][j] & col[j])`.
fn mat_mul_gf2(m: &[[u8; 2]; 16], col: &[u8; 16]) -> (out: [u8; 16])
    ensures
        out@ == apply_rows(rows_of(*m), col@),
{
    let mut out = [0u8; 16];
    for i in 0..16
        invariant
            forall|k: int| 0 <= k < i ==> out@[k] == xor_sum(row_mask(*m, k), col@, 16),
    {
        let mut acc: u8 = 0;
        for j in 0..16
            invariant
                0 <= i < 16,
                acc == xor_sum(row_mask(*m, i as int), col@, j as nat),
        {
            let row = m[i];
            proof {
                lemma_byte_bits(row[0], row[1], j as u16);
                lemma_xor8(acc, 0u8, 0u8, 0u8);
            }
            if (row[j / 8] >> ((j % 8) as u8)) & 1 != 0 {
                acc = acc ^ col[j];
            }
        }
        out[i] = acc;
    }
    assert(out@ =~= apply_rows(rows_of(*m), col@));
    out
}

/// Multiplies every byte column of `block` by `m`.
fn apply_matrix(m: &[[u8; 2]; 16], block: &[u8; 128]) -> (out: [u8; 128])
    ensures
        out@ == transform_block(rows_of(*m), block@),
{
    let mut out = [0u8; 128];
    for col in 0..8
        invariant
            forall|k: int|
                0 <= k < 128 && k % 8 < col ==> #[trigger] out@[k] == transform_block(
                    rows_of(*m),
                    block@,
                )[k],
    {
        let mut col_bits = [0u8; 16];
        for row in 0..16
            invariant
                0 <= col < 8,
                forall|r: int| 0 <= r < row ==> #[trigger] col_bits@[r] == block@[r * 8 + col],
        {
            col_bits[row] = block[row * 8 + col];
        }
        assert(col_bits@ =~= block_column(block@, col as int));
        let out_col = mat_mul_gf2(m, &col_bits);
        for row in 0..16
            invariant
                0 <= col < 8,
                out_col@ == apply_rows(rows_of(*m), block_column(block@, col as int)),
                forall|k: int|
                    0 <= k < 128 && (k % 8 < col || (k % 8 == col && k / 8 < row))
                        ==> #[trigger] out@[k] == transform_block(rows_of(*m), block@)[k],
        {
            let idx = row * 8 + col;
            assert(idx / 8 == row && idx % 8 == col);
            out[idx] = out_col[row];
        }
    }
    assert(out@ =~= transform_block(rows_of(*m), block@));
    out
}

/// Gauss-Jordan inversion over GF(2).  A matrix without a pivot in some column
/// (a singular one) is returned unchanged.
fn compute_inverse_16x16_gf2(m: &[[u8; 2]; 16]) -> (inv: [[u8; 2]; 16])
    ensures
        is_left_inverse(rows_of(inv), rows_of(*m)) || (inv == *m && !invertible(rows_of(*m))),
{
    let ghost mrows = rows_of(*m);
    let mut left: Vec<u16> = Vec::new();
    let mut right: Vec<u16> = Vec::new();
    for i in 0..16
        invariant
            mrows == rows_of(*m),
            left.len() == i,
            right.len() == i,
            forall|r: int| 0 <= r < i ==> #[trigger] left@[r] == combo(right@[r], mrows, 16),
            forall|r: int| 0 <= r < i ==> #[trigger] left@[r] == mrows[r],
    {
        let row = m[i];
        let mask: u16 = (row[0] as u16) | ((row[1] as u16) << 8u16);
        let unit: u16 = 1u16 << (i as u16);
        proof {
            lemma_unit_shift(i as u16);
            lemma_combo_unit(unit, i as int, mrows, 16);
        }
        left.push(mask);
        right.push(unit);
    }
    // Ghost bookkeeping: the original rows as combinations of the current ones.
    let ghost mut t: Seq<u16> = identity_rows();
    proof {
        assert(left@ =~= mrows);
        assert forall|i: int| 0 <= i < 16 implies mrows[i] == #[trigger] combo(t[i], left@, 16) by {
            lemma_unit_shift(i as u16);
            lemma_combo_unit(1u16 << (i as u16), i, left@, 16);
        }
    }
    let mut col: usize = 0;
    while col < 16
        invariant
            mrows == rows_of(*m),
            left.len() == 16,
            right.len() == 16,
            t.len() == 16,
            col <= 16,
            forall|r: int| 0 <= r < 16 ==> #[trigger] left@[r] == combo(right@[r], mrows, 16),
            forall|i: int| 0 <= i < 16 ==> mrows[i] == #[trigger] combo(t[i], left@, 16),
            forall|r: int, j: u16|
                0 <= r < 16 && j < col ==> (#[trigger] bit16(left@[r], j) <==> r == j as int),
        decreases 16 - col,
    {
        let c = col as u16;
        let mut p: usize = col;
        while p < 16 && (left[p] >> c) & 1u16 != 1u16
            invariant
                col < 16,
                c == col,
                col <= p <= 16,
                left.len() == 16,
                forall|r: int| col <= r < p ==> !#[trigger] bit16(left@[r], c),
            decreases 16 - p,
        {
            p += 1;
        }
        if p == 16 {
            proof {
                lemma_no_pivot_singular(left@, t, mrows, c);
            }
            return *m;
        }
        let ghost before_swap = left@;
        let lc = left[col];
        let lp = left[p];
        left.set(col, lp);
        left.set(p, lc);
        let rc = right[col];
        let rp = right[p];
        right.set(col, rp);
        right.set(p, rc);
        proof {
            let t0 = t;
            t = Seq::new(16, |i: int| swap_bits(t0[i], c, p as u16));
            assert(left@ =~= before_swap.update(col as int, before_swap[p as int]).update(
                p as int,
                before_swap[col as int],
            ));
            assert forall|i: int| 0 <= i < 16 implies mrows[i] == #[trigger] combo(t[i], left@, 16) by {
                lemma_combo_swap(t0[i], before_swap, col as int, p as int);
            }
        }
        let pivot_l = left[col];
        let pivot_r = right[col];
        assert(bit16(pivot_l, c));
        for row in 0..16
            invariant
                mrows == rows_of(*m),
                left.len() == 16,
                right.len() == 16,
                t.len() == 16,
                col < 16,
                c == col,
                left@[col as int] == pivot_l,
                right@[col as int] == pivot_r,
                bit16(pivot_l, c),
                forall|j: u16| j < col ==> !#[trigger] bit16(pivot_l, j),
                forall|r: int| 0 <= r < 16 ==> #[trigger] left@[r] == combo(right@[r], mrows, 16),
                forall|i: int| 0 <= i < 16 ==> mrows[i] == #[trigger] combo(t[i], left@, 16),
                forall|r: int, j: u16|
                    0 <= r < 16 && j < col ==> (#[trigger] bit16(left@[r], j) <==> r == j as int),
                forall|r: int| 0 <= r < row && r != col ==> !#[trigger] bit16(left@[r], c),
        {
            if row != col && (left[row] >> c) & 1u16 == 1u16 {
                let old_l = left[row];
                let old_r = right[row];
                let nl = old_l ^ pivot_l;
                let nr = old_r ^ pivot_r;
                let ghost before = left@;
                proof {
                    lemma_combo_linear(old_r, pivot_r, mrows, 16);
                    lemma_bit_xor(old_l, pivot_l, c);
                    assert forall|j: u16| j < col implies (bit16(nl, j) <==> bit16(old_l, j)) by {
                        lemma_bit_xor(old_l, pivot_l, j);
                    }
                }
                left.set(row, nl);
                right.set(row, nr);
                proof {
                    let t0 = t;
                    let e = 1u16 << c;
                    t = Seq::new(16, |i: int| if bit16(t0[i], row as u16) {
                        t0[i] ^ e
                    } else {
                        t0[i]
                    });
                    assert(left@ =~= before.update(row as int, nl));
                    lemma_unit_shift(c);
                    lemma_combo_unit(e, col as int, before, 16);
                    lemma_xor_rules(0u16, old_l, pivot_l);
                    lemma_xor16(pivot_l, 0u16, 0u16, 0u16);
                    lemma_xor16(old_l, 0u16, 0u16, 0u16);
                    assert(old_l ^ nl == pivot_l);
                    assert forall|i: int| 0 <= i < 16 implies mrows[i] == #[trigger] combo(
                        t[i],
                        left@,
                        16,
                    ) by {
                        let ti = t0[i];
                        lemma_combo_update(t[i], before, row as int, nl, 16);
                        lemma_bit_xor(ti, e, row as u16);
                        lemma_bit_unit(c, row as u16);
                        if bit16(ti, row as u16) {
                            lemma_combo_linear(ti, e, before, 16);
                            lemma_xor_rules(mrows[i], pivot_l, pivot_l);
                            lemma_xor16(pivot_l, pivot_l, 0u16, 0u16);
                            lemma_xor_rules(mrows[i], 0u16, 0u16);
                            assert((mrows[i] ^ pivot_l) ^ pivot_l == mrows[i]) by {
                                lemma_xor_rules(mrows[i], pivot_l, 0u16);
                            }
                        } else {
                            lemma_xor_rules(mrows[i], 0u16, 0u16);
                        }
                    }
                }
            }
        }
        col += 1;
    }
    let mut inv = [[0u8; 2]; 16];
    for i in 0..16
        invariant
            right.len() == 16,
            forall|k: int| 0 <= k < i ==> #[trigger] row_mask(inv, k) == right@[k],
    {
        let r = right[i];
        proof {
            lemma_pack(r);
        }
        let b0 = (r & 0xffu16) as u8;
        let b1 = ((r >> 8u16) & 0xffu16) as u8;
        let pair: [u8; 2] = [b0, b1];
        assert(pair[0] == b0 && pair[1] == b1);
        let ghost before = inv;
        inv[i] = pair;
        assert(row_mask(inv, i as int) == r);
        assert forall|k: int| 0 <= k < i implies #[trigger] row_mask(inv, k) == right@[k] by {
            assert(row_mask(before, k) == right@[k]);
            assert(inv[k] == before[k]);
            assert(inv[k][0] == before[k][0] && inv[k][1] == before[k][1]);
        }
    }
    assert(rows_of(inv) =~= right@);
    assert forall|i: int| 0 <= i < 16 implies is_unit(#[trigger] combo(rows_of(inv)[i], mrows, 16), i) by {
        assert(left@[i] == combo(right@[i], mrows, 16));
        assert forall|j: u16| j < 16 implies (#[trigger] bit16(left@[i], j) <==> j as int == i) by {}
    }
    inv
}

/// Packed matrices with the same row masks are the same.
proof fn lemma_rows_injective(a: [[u8; 2]; 16], b: [[u8; 2]; 16])
    requires
        rows_of(a) == rows_of(b),
    ensures
        a == b,
{
    assert forall|i: int| 0 <= i < 16 implies #[trigger] a[i] == b[i] by {
        assert(rows_of(a)[i] == rows_of(b)[i]);
        assert(rows_of(a)[i] == row_mask(a, i));
        assert(rows_of(b)[i] == row_mask(b, i));
        let a0 = a[i][0];
        let a1 = a[i][1];
        let b0 = b[i][0];
        let b1 = b[i][1];
        assert(a0 == b0 && a1 == b1) by (bit_vector)
            requires
                (a0 as u16) | ((a1 as u16) << 8u16) == (b0 as u16) | ((b1 as u16) << 8u16),
        ;
        assert(a[i] =~= b[i]);
    }
    assert(a =~= b);
}

/// Whether two packed matrices hold the same bits.
fn same_matrix(a: &[[u8; 2]; 16], b: &[[u8; 2]; 16]) -> (same: bool)
    ensures
        same == (*a == *b),
{
    let mut i: usize = 0;
    while i < 16
        invariant
            i <= 16,
            forall|k: int| 0 <= k < i ==> #[trigger] a@[k] == b@[k],
        decreases 16 - i,
    {
        let ra = a[i];
        let rb = b[i];
        if ra[0] != rb[0] || ra[1] != rb[1] {
            assert(a@[i as int] != b@[i as int]);
            return false;
        }
        assert(ra@ =~= rb@);
        i += 1;
    }
    assert(a@ =~= b@);
    assert(*a =~= *b);
    true
}

impl MatrixObfuscator {
    /// The obfuscator is usable: the stored inverse undoes the transform.
    pub closed spec fn wf(&self) -> bool {
        is_left_inverse(rows_of(self.inv_transform), rows_of(self.transform))
    }

    pub closed spec fn transform_rows(&self) -> Seq<u16> {
        rows_of(self.transform)
    }

    pub closed spec fn inverse_rows(&self) -> Seq<u16> {
        rows_of(self.inv_transform)
    }

    pub closed spec fn is_enabled(&self) -> bool {
        self.enabled
    }

    /// Builds an enabled obfuscator from a transform matrix.  It succeeds
    /// exactly when the matrix is invertible and not its own inverse (Gauss-
    /// Jordan elimination then yields an inverse other than the matrix).
    pub fn from_transform(transform: [[u8; 2]; 16]) -> (r: Option<MatrixObfuscator>)
        ensures
            r is Some <==> invertible(rows_of(transform)) && !is_left_inverse(
                rows_of(transform),
                rows_of(transform),
            ),
            r matches Some(o) ==> o.wf() && o.is_enabled() && o.transform_rows() == rows_of(
                transform,
            ),
    {
        let inv = compute_inverse_16x16_gf2(&transform);
        let same = same_matrix(&inv, &transform);
        proof {
            let ri = rows_of(inv);
            let rt = rows_of(transform);
            if is_left_inverse(ri, rt) {
                assert(ri.len() == 16);
                assert(invertible(rt));
                if !same && is_left_inverse(rt, rt) {
                    lemma_involution_unique(ri, rt);
                    lemma_rows_injective(inv, transform);
                }
            }
        }
        if same {
            None
        } else {
            Some(MatrixObfuscator { transform, inv_transform: inv, enabled: true })
        }
    }

    /// Draws random matrices until one is invertible (and not its own inverse).
    /// Gives up with `None` only after a large number of singular draws.
    pub fn generate() -> (r: Option<MatrixObfuscator>)
        ensures
            r matches Some(o) ==> o.wf() && o.is_enabled(),
    {
        let mut attempts: usize = 0;
        while attempts < 256
            decreases 256 - attempts,
        {
            let bytes = random_bytes(32);
            let mut transform = [[0u8; 2]; 16];
            for i in 0..16
                invariant
                    bytes@.len() == 32,
            {
                transform[i] = [bytes[2 * i], bytes[2 * i + 1]];
            }
            let candidate = Self::from_transform(transform);
            if candidate.is_some() {
                return candidate;
            }
            attempts += 1;
        }
        None
    }

    pub fn set_enabled(&mut self, enabled: bool)
        ensures
            final(self).is_enabled() == enabled,
            final(self).transform_rows() == old(self).transform_rows(),
            final(self).inverse_rows() == old(self).inverse_rows(),
            old(self).wf() ==> final(self).wf(),
    {
        self.enabled = enabled;
    }

    /// The forward transform of a block (the block itself when disabled).
    pub closed spec fn obfuscate_spec(&self, block: Seq<u8>) -> Seq<u8> {
        if self.enabled {
            transform_block(rows_of(self.transform), block)
        } else {
            block
        }
    }

    /// The inverse transform of a block (the block itself when disabled).
    pub closed spec fn deobfuscate_spec(&self, block: Seq<u8>) -> Seq<u8> {
        if self.enabled {
            transform_block(rows_of(self.inv_transform), block)
        } else {
            block
        }
    }

    pub fn obfuscate(&self, block: &[u8; 128]) -> (out: [u8; 128])
        ensures
            out@ == self.obfuscate_spec(block@),
    {
        if !self.enabled {
            return *block;
        }
        apply_matrix(&self.transform, block)
    }

    pub fn deobfuscate(&self, block: &[u8; 128]) -> (out: [u8; 128])
        ensures
            out@ == self.deobfuscate_spec(block@),
    {
        if !self.enabled {
            return *block;
        }
        apply_matrix(&self.inv_transform, block)
    }
}

/// Deobfuscating an obfuscated block gives the block back, for every block
/// and every well-formed obfuscator (enabled or not).
pub proof fn lemma_obfuscation_roundtrip(o: MatrixObfuscator, block: Seq<u8>)
    requires
        o.wf(),
        block.len() == 128,
    ensures
        o.deobfuscate_spec(o.obfuscate_spec(block)) == block,
{
    if o.enabled {
        let m = rows_of(o.transform);
        let inv = rows_of(o.inv_transform);
        let mid = transform_block(m, block);
        assert forall|c: int| 0 <= c < 8 implies #[trigger] block_column(mid, c) == apply_rows(
            m,
            block_column(block, c),
        ) by {
            assert forall|r: int| 0 <= r < 16 implies block_column(mid, c)[r] == apply_rows(
                m,
                block_column(block, c),
            )[r] by {
                assert((r * 8 + c) / 8 == r && (r * 8 + c) % 8 == c);
            }
            assert(block_column(mid, c) =~= apply_rows(m, block_column(block, c)));
        }
        assert forall|k: int| 0 <= k < 128 implies #[trigger] transform_block(inv, mid)[k]
            == block[k] by {
            let r = k / 8;
            let c = k % 8;
            assert(k == r * 8 + c);
            let col_b = block_column(block, c);
            lemma_left_inverse_apply(inv, m, col_b);
            assert(block_column(mid, c) == apply_rows(m, col_b));
            assert(transform_block(inv, mid)[k] == xor_sum(inv[r], block_column(mid, c), 16));
            assert(transform_block(inv, mid)[k] == apply_rows(inv, apply_rows(m, col_b))[r]);
            assert(col_b[r] == block[r * 8 + c]);
        }
        assert(transform_block(inv, mid) =~= block);
    }
}

/// Obfuscation is linear over XOR: the transform of `a ^ b` is the XOR of
/// the transforms, so the all-zero block is left as it is; and a disabled
/// obfuscator leaves every block as it is.
pub proof fn lemma_obfuscation_linear(o: MatrixObfuscator, a: Seq<u8>, b: Seq<u8>)
    requires
        a.len() == 128,
        b.len() == 128,
    ensures
        o.obfuscate_spec(xor_bytes(a, b)) == xor_bytes(o.obfuscate_spec(a), o.obfuscate_spec(b)),
        o.obfuscate_spec(Seq::new(128, |i: int| 0u8)) == Seq::new(128, |i: int| 0u8),
        !o.is_enabled() ==> o.obfuscate_spec(a) == a,
{
    let z = Seq::new(128, |i: int| 0u8);
    if o.enabled {
        let m = rows_of(o.transform);
        let x = xor_bytes(a, b);
        assert forall|k: int| 0 <= k < 128 implies #[trigger] transform_block(m, x)[k] == xor_bytes(
            transform_block(m, a),
            transform_block(m, b),
        )[k] by {
            let c = k % 8;
            assert(block_column(x, c) =~= xor_bytes(block_column(a, c), block_column(b, c)));
            lemma_xor_sum_columns(m[k / 8], block_column(a, c), block_column(b, c), 16);
        }
        assert(transform_block(m, x) =~= xor_bytes(transform_block(m, a), transform_block(m, b)));
        assert forall|k: int| 0 <= k < 128 implies #[trigger] transform_block(m, z)[k] == 0u8 by {
            let c = k % 8;
            lemma_xor8(0u8, 0u8, 0u8, 0u8);
            assert(block_column(z, c) =~= xor_bytes(block_column(z, c), block_column(z, c)));
            lemma_xor_sum_columns(m[k / 8], block_column(z, c), block_column(z, c), 16);
            lemma_xor8(xor_sum(m[k / 8], block_column(z, c), 16), 0u8, 0u8, 0u8);
        }
        assert(transform_block(m, z) =~= z);
    } else {
        assert(xor_bytes(a, b) =~= xor_bytes(o.obfuscate_spec(a), o.obfuscate_spec(b)));
    }
}

// ============================================================================
// Traffic shaping
// ============================================================================

/// Protocol whose traffic is imitated.
#[derive(Debug, Clone, Copy, PartialEq, Eq, Structural)]
pub enum MimicProtocol {
    TLS,
    HTTP2,
    DNS,
    WebSocket,
    Custom,
}

/// Fake protocol header put in front of `data`: a TLS application-data
/// record header (with `data`'s length cut to 16 bits), a fixed HTTP/2
/// HEADERS frame header, a 6-byte DNS header, or nothing.
pub open spec fn mimic_prefix(p: MimicProtocol, data: Seq<u8>) -> Seq<u8> {
    match p {
        MimicProtocol::TLS => seq![0x17u8, 0x03u8, 0x03u8] + u16_be(data.len() as u16),
        MimicProtocol::HTTP2 => seq![0u8, 0u8, 1u8, 1u8, 4u8, 0u8, 0u8, 0u8, 1u8],
        MimicProtocol::DNS => seq![0u8, 0u8, 1u8, 0u8, 0u8, 0u8],
        _ => Seq::empty(),
    }
}

/// Bytes that `strip_prefix` removes from the front of `data`.
pub open spec fn stripped_len(p: MimicProtocol, data: Seq<u8>) -> int {
    if data.len() < 5 {
        0
    } else {
        match p {
            MimicProtocol::TLS => if data[0] == 0x17u8 { 5 } else { 0 },
            MimicProtocol::HTTP2 => if data.len() >= 9 { 9 } else { 0 },
            MimicProtocol::DNS => if data.len() >= 12 { 12 } else { 0 },
            _ => 0,
        }
    }
}

/// Padding bytes of the given kind: zeros, 0x80 bytes, or the first `len`
/// of the random bytes.
pub open spec fn padding_of(len: nat, kind: usize, random: Seq<u8>) -> Seq<u8> {
    if kind == 0 {
        Seq::new(len, |i: int| 0u8)
    } else if kind == 1 {
        Seq::new(len, |i: int| 0x80u8)
    } else {
        random.subrange(0, len as int)
    }
}

/// A TLS record header stamped over the first five bytes of a heartbeat.
pub open spec fn stamped_heartbeat(p: MimicProtocol, data: Seq<u8>) -> Seq<u8> {
    if p == MimicProtocol::TLS && data.len() >= 5 {
        seq![0x17u8, 0x03u8, 0x03u8] + u16_be((data.len() - 5) as u16) + data.subrange(
            5,
            data.len() as int,
        )
    } else {
        data
    }
}

/// `n` zero bytes, `n` 0x80 bytes, or the first `n` random bytes.
pub fn padding_bytes(len: usize, kind: usize, random: &[u8]) -> (pad: Vec<u8>)
    requires
        kind >= 2 ==> random@.len() >= len,
    ensures
        pad@ == padding_of(len as nat, kind, random@),
{
    if kind >= 2 {
        return vstd::slice::slice_to_vec(vstd::slice::slice_subrange(random, 0, len));
    }
    let b: u8 = if kind == 0 {
        0
    } else {
        0x80
    };
    let mut pad: Vec<u8> = Vec::new();
    for i in 0..len
        invariant
            pad@ == Seq::new(i as nat, |j: int| b),
    {
        pad.push(b);
        assert(pad@ =~= Seq::new((i + 1) as nat, |j: int| b));
    }
    assert(pad@ =~= padding_of(len as nat, kind, random@));
    pad
}

/// Inserts `prefix` in front of `data`.
pub(crate) fn prepend(data: &mut Vec<u8>, prefix: &[u8])
    ensures
        final(data)@ == prefix@ + old(data)@,
{
    let mut out: Vec<u8> = Vec::new();
    append_bytes(&mut out, prefix);
    append_bytes(&mut out, data.as_slice());
    *data = out;
}

/// Removes the first `n` bytes of `data`.
pub(crate) fn drop_front(data: &mut Vec<u8>, n: usize)
    requires
        n <= old(data)@.len(),
    ensures
        final(data)@ == old(data)@.subrange(n as int, old(data)@.len() as int),
{
    let rest = vstd::slice::slice_to_vec(vstd::slice::slice_subrange(data.as_slice(), n, data.len()));
    *data = rest;
}

/// Big-endian bytes of `n` cut to 16 bits.
fn u16_be_bytes(n: usize) -> (b: [u8; 2])
    ensures
        b@ == u16_be(n as u16),
{
    let x: u16 = n as u16;
    let b = [(x >> 8u16) as u8, (x & 0xffu16) as u8];
    assert(b@ =~= u16_be(n as u16));
    b
}

/// Stamps a TLS record header over the first five bytes of a heartbeat
/// (TLS only; other protocols leave it as it is).
pub fn stamp_heartbeat(protocol: MimicProtocol, data: Vec<u8>) -> (out: Vec<u8>)
    ensures
        out@ == stamped_heartbeat(protocol, data@),
{
    let ghost orig = data@;
    let mut data = data;
    if protocol == MimicProtocol::TLS && data.len() >= 5 {
        let len = u16_be_bytes(data.len() - 5);
        data.set(0, 0x17);
        data.set(1, 0x03);
        data.set(2, 0x03);
        data.set(3, len[0]);
        data.set(4, len[1]);
    }
    assert(data@ =~= stamped_heartbeat(protocol, orig));
    data
}

/// Prefix and padding shaping for a mimicked protocol.
pub struct TrafficOrchestrator {
    protocol: MimicProtocol,
    prefix_enabled: bool,
}

impl TrafficOrchestrator {
    pub closed spec fn protocol_view(&self) -> MimicProtocol {
        self.protocol
    }

    /// Whether prefixes are added (always, for orchestrators made by `new`).
    pub closed spec fn prefix_view(&self) -> bool {
        self.prefix_enabled
    }

    pub fn new(protocol: MimicProtocol) -> (t: TrafficOrchestrator)
        ensures
            t.protocol_view() == protocol,
            t.prefix_view(),
    {
        TrafficOrchestrator { protocol, prefix_enabled: true }
    }

    /// Appends `min(target_len - len, 127)` padding bytes of the given kind
    /// when `data` is shorter than `target_len`.
    pub fn pad_with(&self, data: &mut Vec<u8>, target_len: usize, kind: usize, random: &[u8])
        requires
            kind >= 2 ==> random@.len() >= 127,
        ensures
            old(data)@.len() < target_len ==> final(data)@ == old(data)@ + padding_of(
                if target_len - old(data)@.len() < 127 {
                    (target_len - old(data)@.len()) as nat
                } else {
                    127
                },
                kind,
                random@,
            ),
            old(data)@.len() >= target_len ==> final(data)@ == old(data)@,
    {
        if data.len() < target_len {
            let diff = target_len - data.len();
            let actual = if diff < 127 {
                diff
            } else {
                127
            };
            let pad = padding_bytes(actual, kind, random);
            append_bytes(data, pad.as_slice());
        }
    }

    /// Appends up to 127 padding bytes towards `target_len`: zeros, 0x80
    /// bytes or random bytes, chosen at random.
    pub fn add_padding(&self, data: &mut Vec<u8>, target_len: usize)
        ensures
            old(data)@.len() < target_len ==> {
                &&& final(data)@.len() == old(data)@.len() + if target_len - old(data)@.len()
                    < 127 {
                    target_len - old(data)@.len()
                } else {
                    127
                }
                &&& final(data)@.subrange(0, old(data)@.len() as int) == old(data)@
            },
            old(data)@.len() >= target_len ==> final(data)@ == old(data)@,
    {
        if data.len() < target_len {
            let kind = random_usize_inclusive(0, 2);
            let random = if kind >= 2 {
                random_bytes(127)
            } else {
                Vec::new()
            };
            self.pad_with(data, target_len, kind, random.as_slice());
            assert(data@.subrange(0, old(data)@.len() as int) =~= old(data)@);
        }
    }

    /// Puts the protocol's fake header in front of `data`.
    pub fn add_prefix(&self, data: &mut Vec<u8>)
        ensures
            final(data)@ == if self.prefix_view() {
                mimic_prefix(self.protocol_view(), old(data)@) + old(data)@
            } else {
                old(data)@
            },
    {
        if !self.prefix_enabled {
            return;
        }
        match self.protocol {
            MimicProtocol::TLS => {
                let len = u16_be_bytes(data.len());
                let p = [0x17u8, 0x03u8, 0x03u8, len[0], len[1]];
                assert(p@ =~= mimic_prefix(self.protocol, data@));
                prepend(data, &p);
            },
            MimicProtocol::HTTP2 => {
                let p = [0u8, 0u8, 1u8, 1u8, 4u8, 0u8, 0u8, 0u8, 1u8];
                assert(p@ =~= mimic_prefix(self.protocol, data@));
                prepend(data, &p);
            },
            MimicProtocol::DNS => {
                let p = [0u8, 0u8, 1u8, 0u8, 0u8, 0u8];
                assert(p@ =~= mimic_prefix(self.protocol, data@));
                prepend(data, &p);
            },
            _ => {
                assert(mimic_prefix(self.protocol, data@) + data@ =~= data@);
            },
        }
    }

    /// Removes the protocol's header from the front of `data`, when present.
    pub fn strip_prefix(&self, data: &mut Vec<u8>)
        ensures
            final(data)@ == old(data)@.subrange(
                stripped_len(self.protocol_view(), old(data)@),
                old(data)@.len() as int,
            ),
    {
        if data.len() < 5 {
            assert(data@.subrange(0, data@.len() as int) =~= data@);
            return;
        }
        let n: usize = match self.protocol {
            MimicProtocol::TLS => if data[0] == 0x17 {
                5
            } else {
                0
            },
            MimicProtocol::HTTP2 => if data.len() >= 9 {
                9
            } else {
                0
            },
            MimicProtocol::DNS => if data.len() >= 12 {
                12
            } else {
                0
            },
            _ => 0,
        };
        drop_front(data, n);
    }

    /// A random heartbeat of 40 to 1400 random bytes (with a TLS record
    /// header for TLS).
    pub fn gen_heartbeat(&self) -> (data: Vec<u8>)
        ensures
            40 <= data@.len() <= 1400,
            self.protocol_view() == MimicProtocol::TLS ==> data@.subrange(0, 5) == seq![
                0x17u8,
                0x03u8,
                0x03u8,
            ] + u16_be((data@.len() - 5) as u16),
    {
        let size = random_usize_inclusive(40, 1400);
        let raw = random_bytes(size);
        let out = stamp_heartbeat(self.protocol, raw);
        proof {
            if self.protocol == MimicProtocol::TLS {
                let hdr = seq![0x17u8, 0x03u8, 0x03u8] + u16_be((raw@.len() - 5) as u16);
                assert(out@.subrange(0, 5) =~= hdr);
            }
        }
        out
    }
}

/// Stripping what `add_prefix` added gives the data back, for every
/// protocol but DNS (whose 6-byte header is stripped as 12 bytes).
pub proof fn lemma_prefix_roundtrip(t: TrafficOrchestrator, data: Seq<u8>)
    requires
        t.prefix_view(),
        t.protocol_view() != MimicProtocol::DNS,
    ensures
        ({
            let added = mimic_prefix(t.protocol_view(), data) + data;
            added.subrange(stripped_len(t.protocol_view(), added), added.len() as int) == data
        }),
{
    let p = t.protocol_view();
    let added = mimic_prefix(p, data) + data;
    let pre = mimic_prefix(p, data);
    assert(added.subrange(pre.len() as int, added.len() as int) =~= data);
    if p == MimicProtocol::TLS {
        assert(added[0] == 0x17u8);
    }
}

// ============================================================================
// Packet scheduling
// ============================================================================

/// The queue after offering `packet` to a queue of capacity `cap`: it is
/// appended unless the queue is full, in which case it is dropped.
pub open spec fn enqueue_rule(queue: Seq<Vec<u8>>, cap: usize, packet: Vec<u8>) -> Seq<Vec<u8>> {
    if queue.len() < cap {
        queue.push(packet)
    } else {
        queue
    }
}

/// The queue of capacity `cap` after `packets` are offered in turn to an
/// empty queue.
pub open spec fn queue_after(cap: usize, packets: Seq<Vec<u8>>) -> Seq<Vec<u8>>
    decreases packets.len(),
{
    if packets.len() == 0 {
        Seq::empty()
    } else {
        enqueue_rule(queue_after(cap, packets.drop_last()), cap, packets.last())
    }
}

/// First in, first out: offering packets one by one to an empty queue of
/// capacity `cap` keeps the first `cap` of them in their order and drops
/// the rest, so `flush` hands back exactly that prefix.
pub proof fn lemma_enqueue_fifo(cap: usize, packets: Seq<Vec<u8>>)
    ensures
        queue_after(cap, packets) == packets.take(
            if packets.len() < cap {
                packets.len() as int
            } else {
                cap as int
            },
        ),
    decreases packets.len(),
{
    if packets.len() > 0 {
        let prev = packets.drop_last();
        lemma_enqueue_fifo(cap, prev);
        if prev.len() < cap {
            assert(prev.take(prev.len() as int).push(packets.last()) =~= packets.take(packets.len() as int));
        } else {
            assert(prev.take(cap as int) =~= packets.take(cap as int));
        }
    } else {
        assert(packets.take(0) =~= Seq::<Vec<u8>>::empty());
    }
}

/// Bounded queue of packets, sent in random order.
pub struct PacketScheduler {
    queue: VecDeque<Vec<u8>>,
    max_size: usize,
}

impl PacketScheduler {
    pub closed spec fn queue_view(&self) -> Seq<Vec<u8>> {
        self.queue@
    }

    pub closed spec fn capacity(&self) -> usize {
        self.max_size
    }

    pub fn new(max_size: usize) -> (s: PacketScheduler)
        ensures
            s.queue_view() == Seq::<Vec<u8>>::empty(),
            s.capacity() == max_size,
    {
        PacketScheduler { queue: VecDeque::new(), max_size }
    }

    /// Queues a packet unless the queue is full (then it is dropped).
    pub fn enqueue(&mut self, packet: Vec<u8>)
        ensures
            final(self).queue_view() == enqueue_rule(old(self).queue_view(), old(self).capacity(), packet),
            final(self).capacity() == old(self).capacity(),
    {
        if self.queue.len() < self.max_size {
            self.queue.push_back(packet);
        }
    }

    /// Takes the packet at position `idx` out of the queue.
    pub fn dequeue_at(&mut self, idx: usize) -> (p: Option<Vec<u8>>)
        ensures
            idx < old(self).queue_view().len() ==> p == Some(old(self).queue_view()[idx as int])
                && final(self).queue_view() == old(self).queue_view().remove(idx as int),
            idx >= old(self).queue_view().len() ==> p is None && final(self).queue_view() == old(
                self,
            ).queue_view(),
            final(self).capacity() == old(self).capacity(),
    {
        self.queue.remove(idx)
    }

    /// Takes a packet from a random position; `None` when the queue is
    /// empty.
    pub fn dequeue(&mut self) -> (p: Option<Vec<u8>>)
        ensures
            old(self).queue_view().len() == 0 ==> p is None && final(self).queue_view() == old(
                self,
            ).queue_view(),
            old(self).queue_view().len() > 0 ==> exists|i: int|
                0 <= i < old(self).queue_view().len() && p == Some(old(self).queue_view()[i])
                    && final(self).queue_view() == old(self).queue_view().remove(i),
            final(self).capacity() == old(self).capacity(),
    {
        if self.queue.len() == 0 {
            return None;
        }
        let idx = random_usize_inclusive(0, self.queue.len() - 1);
        self.dequeue_at(idx)
    }

    /// Empties the queue, returning its packets in queue order.
    pub fn flush(&mut self) -> (all: Vec<Vec<u8>>)
        ensures
            all@ == old(self).queue_view(),
            final(self).queue_view() == Seq::<Vec<u8>>::empty(),
            final(self).capacity() == old(self).capacity(),
    {
        let mut all: Vec<Vec<u8>> = Vec::new();
        let ghost start = self.queue@;
        while self.queue.len() > 0
            invariant
                all@ + self.queue@ == start,
                self.max_size == old(self).max_size,
            decreases self.queue@.len(),
        {
            match self.queue.pop_front() {
                Some(p) => {
                    all.push(p);
                    assert(all@ + self.queue@ =~= start);
                },
                None => {},
            }
        }
        assert(all@ =~= start);
        all
    }

    pub fn is_empty(&self) -> (e: bool)
        ensures
            e == (self.queue_view().len() == 0),
    {
        self.queue.len() == 0
    }
}

// ============================================================================
// Chunking into wire blocks
// ============================================================================

/// Block `i` of a message as `Chunker::chunk` lays it out: header (flags
/// 0x01), zero-filled piece, tag.
pub open spec fn data_block(key: Seq<u8>, msg_id: u64, p: Seq<u8>, i: int) -> Seq<u8> {
    let auth = block_header(msg_id, (107 * i) as u32, 1u8) + chunk_payload(p, i);
    auth + block_tag(key, auth)
}

/// Splits payloads into authenticated 128-byte blocks.
pub struct Chunker {
    auth_key: [u8; 32],
}

impl Chunker {
    pub closed spec fn key_view(&self) -> Seq<u8> {
        self.auth_key@
    }

    pub fn new(block_key: &[u8; 32]) -> (c: Chunker)
        ensures
            c.key_view() == block_key@,
    {
        Chunker { auth_key: *block_key }
    }

    /// One block per 107-byte piece of `payload` (the last zero-filled),
    /// with offsets 0, 107, 214, ...
    pub fn chunk(&self, msg_id: u64, payload: &[u8]) -> (blocks: Vec<[u8; 128]>)
        requires
            payload@.len() <= u32::MAX,
        ensures
            blocks@.len() == chunk_count(payload@.len() as int),
            forall|i: int|
                0 <= i < blocks@.len() ==> (#[trigger] blocks@[i])@ == data_block(
                    self.key_view(),
                    msg_id,
                    payload@,
                    i,
                ),
    {
        let auth = BlockAuth::new(&self.auth_key);
        let count = piece_count(payload.len());
        let mut blocks: Vec<[u8; 128]> = Vec::new();
        for i in 0..count
            invariant
                count == chunk_count(payload@.len() as int),
                payload@.len() <= u32::MAX,
                auth.key_view() == self.auth_key@,
                blocks@.len() == i,
                forall|j: int|
                    0 <= j < i ==> (#[trigger] blocks@[j])@ == data_block(
                        self.auth_key@,
                        msg_id,
                        payload@,
                        j,
                    ),
        {
            let pl = chunk_piece(payload, i);
            let offset = (107 * i) as u32;
            let data = tagged_bytes(msg_id, offset, 1u8, &pl);
            let tag = auth.compute_tag(data.as_slice());
            blocks.push(block_array(data.as_slice(), &tag));
        }
        blocks
    }
}

/// A parsed wire block.
#[derive(Clone)]
pub struct Block {
    pub msg_id: u64,
    pub offset: u32,
    pub flags: u8,
    pub payload: [u8; 107],
    pub tag: [u8; 8],
}

impl Block {
    /// Parses the 128 bytes of a block.
    pub fn from_bytes(data: &[u8; 128]) -> (b: Block)
        ensures
            b.msg_id == spec_u64_from_le_bytes(data@.subrange(0, 8)),
            b.offset == spec_u32_from_le_bytes(data@.subrange(8, 12)),
            b.flags == data@[12],
            b.payload@ == data@.subrange(13, 120),
            b.tag@ == data@.subrange(120, 128),
    {
        let msg_id = u64_from_le_bytes(vstd::slice::slice_subrange(data, 0, 8));
        let offset = u32_from_le_bytes(vstd::slice::slice_subrange(data, 8, 12));
        let mut payload = [0u8; 107];
        for i in 0..107
            invariant
                forall|k: int| 0 <= k < i ==> payload@[k] == data@[13 + k],
        {
            payload[i] = data[13 + i];
        }
        let mut tag = [0u8; 8];
        for i in 0..8
            invariant
                forall|k: int| 0 <= k < i ==> tag@[k] == data@[120 + k],
        {
            tag[i] = data[120 + i];
        }
        assert(payload@ =~= data@.subrange(13, 120));
        assert(tag@ =~= data@.subrange(120, 128));
        Block { msg_id, offset, flags: data[12], payload, tag }
    }
}

/// Message manifest: id, block count, nonce, Merkle root and tier.
pub struct ManifestBlock {
    pub msg_id: u64,
    pub total_blocks: u32,
    pub nonce: [u8; 12],
    pub merkle_root: [u8; 32],
    pub tier: u8,
}

impl ManifestBlock {
    /// Id (LE) || block count (LE) || nonce || Merkle root || tier.
    pub fn to_bytes(&self) -> (v: Vec<u8>)
        ensures
            v@ == spec_u64_to_le_bytes(self.msg_id) + spec_u32_to_le_bytes(self.total_blocks)
                + self.nonce@ + self.merkle_root@ + seq![self.tier],
    {
        let mut v = u64_to_le_bytes(self.msg_id);
        let t = u32_to_le_bytes(self.total_blocks);
        append_bytes(&mut v, t.as_slice());
        append_bytes(&mut v, &self.nonce);
        append_bytes(&mut v, &self.merkle_root);
        v.push(self.tier);
        v
    }
}

} // verus!
