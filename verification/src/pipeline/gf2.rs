//! Linear algebra over GF(2) for 16x16 bit matrices acting on columns of bytes.
//!
//! A matrix row is a 16-bit mask; row `i` applied to a column `x` of 16 bytes
//! is the XOR of the bytes `x[j]` whose bit `j` is set in the mask.

use vstd::prelude::*;

verus! {

/// Bit `j` of a 16-bit mask.
pub open spec fn bit16(x: u16, j: u16) -> bool {
    (x >> j) & 1u16 == 1u16
}

/// `x` is the `i`-th unit row: exactly bit `i` is set among bits 0..16.
pub open spec fn is_unit(x: u16, i: int) -> bool {
    forall|j: u16| j < 16 ==> (#[trigger] bit16(x, j) <==> j as int == i)
}

/// XOR of the bytes `col[j]`, `j < n`, selected by `mask`.
pub open spec fn xor_sum(mask: u16, col: Seq<u8>, n: nat) -> u8
    decreases n,
{
    if n == 0 {
        0u8
    } else {
        xor_sum(mask, col, (n - 1) as nat) ^ (if bit16(mask, (n - 1) as u16) {
            col[n - 1]
        } else {
            0u8
        })
    }
}

/// XOR of the rows `rows[j]`, `j < n`, selected by `mask`: the row of the
/// product `mask * rows`.
pub open spec fn combo(mask: u16, rows: Seq<u16>, n: nat) -> u16
    decreases n,
{
    if n == 0 {
        0u16
    } else {
        combo(mask, rows, (n - 1) as nat) ^ (if bit16(mask, (n - 1) as u16) {
            rows[n - 1]
        } else {
            0u16
        })
    }
}

/// Matrix (given by its rows) times a column of 16 bytes.
pub open spec fn apply_rows(rows: Seq<u16>, col: Seq<u8>) -> Seq<u8> {
    Seq::new(16, |i: int| xor_sum(rows[i], col, 16))
}

/// `inv * m` is the identity matrix.
pub open spec fn is_left_inverse(inv: Seq<u16>, m: Seq<u16>) -> bool {
    forall|i: int| 0 <= i < 16 ==> is_unit(#[trigger] combo(inv[i], m, 16), i)
}

pub proof fn lemma_bit_xor(a: u16, b: u16, j: u16)
    requires
        j < 16,
    ensures
        bit16(a ^ b, j) == (bit16(a, j) != bit16(b, j)),
{
    assert(((a ^ b) >> j) & 1u16 == 1u16 <==> (((a >> j) & 1u16 == 1u16) != ((b >> j) & 1u16
        == 1u16))) by (bit_vector)
        requires
            j < 16,
    ;
}

pub proof fn lemma_bit_zero(j: u16)
    requires
        j < 16,
    ensures
        !bit16(0u16, j),
{
    assert(!((0u16 >> j) & 1u16 == 1u16)) by (bit_vector);
}

pub proof fn lemma_bit_unit(i: u16, j: u16)
    requires
        i < 16,
        j < 16,
    ensures
        bit16(1u16 << i, j) <==> i == j,
{
    assert((((1u16 << i) >> j) & 1u16 == 1u16) <==> i == j) by (bit_vector)
        requires
            i < 16,
            j < 16,
    ;
}

pub proof fn lemma_unit_shift(i: u16)
    requires
        i < 16,
    ensures
        is_unit(1u16 << i, i as int),
{
    assert forall|j: u16| j < 16 implies (#[trigger] bit16(1u16 << i, j) <==> j as int == i) by {
        lemma_bit_unit(i, j);
    }
}

pub proof fn lemma_xor8(w: u8, x: u8, y: u8, z: u8)
    ensures
        (w ^ x) ^ (y ^ z) == (w ^ y) ^ (x ^ z),
        w ^ 0u8 == w,
        0u8 ^ w == w,
        w ^ w == 0u8,
{
    assert((w ^ x) ^ (y ^ z) == (w ^ y) ^ (x ^ z)) by (bit_vector);
    assert(w ^ 0u8 == w) by (bit_vector);
    assert(0u8 ^ w == w) by (bit_vector);
    assert(w ^ w == 0u8) by (bit_vector);
}

pub proof fn lemma_xor16(w: u16, x: u16, y: u16, z: u16)
    ensures
        (w ^ x) ^ (y ^ z) == (w ^ y) ^ (x ^ z),
        w ^ 0u16 == w,
        0u16 ^ w == w,
        w ^ w == 0u16,
{
    assert((w ^ x) ^ (y ^ z) == (w ^ y) ^ (x ^ z)) by (bit_vector);
    assert(w ^ 0u16 == w) by (bit_vector);
    assert(0u16 ^ w == w) by (bit_vector);
    assert(w ^ w == 0u16) by (bit_vector);
}

/// Applying a mask is linear in the mask.
pub proof fn lemma_xor_sum_linear(a: u16, b: u16, col: Seq<u8>, n: nat)
    requires
        n <= 16,
    ensures
        xor_sum(a ^ b, col, n) == xor_sum(a, col, n) ^ xor_sum(b, col, n),
    decreases n,
{
    if n == 0 {
        lemma_xor8(0u8, 0u8, 0u8, 0u8);
    } else {
        lemma_xor_sum_linear(a, b, col, (n - 1) as nat);
        let k = (n - 1) as u16;
        lemma_bit_xor(a, b, k);
        let pa = xor_sum(a, col, (n - 1) as nat);
        let pb = xor_sum(b, col, (n - 1) as nat);
        let c = col[n - 1];
        let ca = if bit16(a, k) {
            c
        } else {
            0u8
        };
        let cb = if bit16(b, k) {
            c
        } else {
            0u8
        };
        lemma_xor8(pa, pb, ca, cb);
        lemma_xor8(c, 0u8, 0u8, 0u8);
        lemma_xor8(0u8, c, 0u8, 0u8);
        assert((if bit16(a ^ b, k) {
            c
        } else {
            0u8
        }) == ca ^ cb);
    }
}

/// Bytewise XOR of two byte strings of one length.
pub open spec fn xor_bytes(a: Seq<u8>, b: Seq<u8>) -> Seq<u8> {
    Seq::new(a.len(), |i: int| a[i] ^ b[i])
}

/// Applying a mask is linear in the column.
pub proof fn lemma_xor_sum_columns(mask: u16, a: Seq<u8>, b: Seq<u8>, n: nat)
    requires
        n <= a.len(),
        a.len() == b.len(),
    ensures
        xor_sum(mask, xor_bytes(a, b), n) == xor_sum(mask, a, n) ^ xor_sum(mask, b, n),
    decreases n,
{
    if n == 0 {
        lemma_xor8(0u8, 0u8, 0u8, 0u8);
    } else {
        lemma_xor_sum_columns(mask, a, b, (n - 1) as nat);
        let k = (n - 1) as u16;
        let pa = xor_sum(mask, a, (n - 1) as nat);
        let pb = xor_sum(mask, b, (n - 1) as nat);
        let x = a[n - 1];
        let y = b[n - 1];
        assert(xor_bytes(a, b)[n - 1] == x ^ y);
        if bit16(mask, k) {
            lemma_xor8(pa, pb, x, y);
        } else {
            lemma_xor8(pa, pb, 0u8, 0u8);
            lemma_xor8(pa ^ pb, 0u8, 0u8, 0u8);
            lemma_xor8(pa, 0u8, 0u8, 0u8);
            lemma_xor8(pb, 0u8, 0u8, 0u8);
        }
    }
}

pub proof fn lemma_xor_sum_zero(col: Seq<u8>, n: nat)
    requires
        n <= 16,
    ensures
        xor_sum(0u16, col, n) == 0u8,
    decreases n,
{
    if n > 0 {
        lemma_xor_sum_zero(col, (n - 1) as nat);
        lemma_bit_zero((n - 1) as u16);
        lemma_xor8(0u8, 0u8, 0u8, 0u8);
    }
}

/// Combining rows is linear in the mask.
pub proof fn lemma_combo_linear(a: u16, b: u16, rows: Seq<u16>, n: nat)
    requires
        n <= 16,
    ensures
        combo(a ^ b, rows, n) == combo(a, rows, n) ^ combo(b, rows, n),
    decreases n,
{
    if n == 0 {
        lemma_xor16(0u16, 0u16, 0u16, 0u16);
    } else {
        lemma_combo_linear(a, b, rows, (n - 1) as nat);
        let k = (n - 1) as u16;
        lemma_bit_xor(a, b, k);
        let pa = combo(a, rows, (n - 1) as nat);
        let pb = combo(b, rows, (n - 1) as nat);
        let c = rows[n - 1];
        let ca = if bit16(a, k) {
            c
        } else {
            0u16
        };
        let cb = if bit16(b, k) {
            c
        } else {
            0u16
        };
        lemma_xor16(pa, pb, ca, cb);
        lemma_xor16(c, 0u16, 0u16, 0u16);
        lemma_xor16(0u16, c, 0u16, 0u16);
        assert((if bit16(a ^ b, k) {
            c
        } else {
            0u16
        }) == ca ^ cb);
    }
}

/// A unit mask selects exactly one byte.
pub proof fn lemma_xor_sum_unit(mask: u16, i: int, col: Seq<u8>, n: nat)
    requires
        n <= 16,
        0 <= i < 16,
        is_unit(mask, i),
    ensures
        xor_sum(mask, col, n) == (if i < n {
            col[i]
        } else {
            0u8
        }),
    decreases n,
{
    if n > 0 {
        lemma_xor_sum_unit(mask, i, col, (n - 1) as nat);
        let k = (n - 1) as u16;
        assert(bit16(mask, k) <==> k as int == i);
        lemma_xor8(col[i], 0u8, 0u8, 0u8);
        lemma_xor8(0u8, col[n - 1], 0u8, 0u8);
        lemma_xor8(xor_sum(mask, col, (n - 1) as nat), 0u8, 0u8, 0u8);
    }
}

/// A unit mask selects exactly one row.
pub proof fn lemma_combo_unit(mask: u16, i: int, rows: Seq<u16>, n: nat)
    requires
        n <= 16,
        0 <= i < 16,
        is_unit(mask, i),
    ensures
        combo(mask, rows, n) == (if i < n {
            rows[i]
        } else {
            0u16
        }),
    decreases n,
{
    if n > 0 {
        lemma_combo_unit(mask, i, rows, (n - 1) as nat);
        let k = (n - 1) as u16;
        assert(bit16(mask, k) <==> k as int == i);
        lemma_xor16(rows[i], 0u16, 0u16, 0u16);
        lemma_xor16(0u16, rows[n - 1], 0u16, 0u16);
        lemma_xor16(combo(mask, rows, (n - 1) as nat), 0u16, 0u16, 0u16);
    }
}

/// Applying a combined row equals combining the applied rows:
/// `(r * M) x == r (M x)`.
pub proof fn lemma_combo_apply(r: u16, rows: Seq<u16>, x: Seq<u8>, n: nat)
    requires
        n <= 16,
        rows.len() == 16,
    ensures
        xor_sum(combo(r, rows, n), x, 16) == xor_sum(r, apply_rows(rows, x), n),
    decreases n,
{
    if n == 0 {
        lemma_xor_sum_zero(x, 16);
    } else {
        lemma_combo_apply(r, rows, x, (n - 1) as nat);
        let k = (n - 1) as u16;
        let prev = combo(r, rows, (n - 1) as nat);
        let t = if bit16(r, k) {
            rows[n - 1]
        } else {
            0u16
        };
        lemma_xor_sum_linear(prev, t, x, 16);
        lemma_xor_sum_zero(x, 16);
    }
}

/// If `inv * m` is the identity, then `inv (m x) == x`.
pub proof fn lemma_left_inverse_apply(inv: Seq<u16>, m: Seq<u16>, x: Seq<u8>)
    requires
        inv.len() == 16,
        m.len() == 16,
        x.len() == 16,
        is_left_inverse(inv, m),
    ensures
        apply_rows(inv, apply_rows(m, x)) == x,
{
    assert forall|i: int| 0 <= i < 16 implies #[trigger] apply_rows(inv, apply_rows(m, x))[i]
        == x[i] by {
        lemma_combo_apply(inv[i], m, x, 16);
        assert(is_unit(combo(inv[i], m, 16), i));
        lemma_xor_sum_unit(combo(inv[i], m, 16), i, x, 16);
    }
    assert(apply_rows(inv, apply_rows(m, x)) =~= x);
}


// ---------------------------------------------------------------------------
// Bits, parity and invertibility
// ---------------------------------------------------------------------------

/// Parity of the low `n` bits of `x`.
pub open spec fn parity(x: u16, n: nat) -> bool
    decreases n,
{
    if n == 0 {
        false
    } else {
        parity(x, (n - 1) as nat) != bit16(x, (n - 1) as u16)
    }
}

/// GF(2) dot product of a row and a column, both as bit masks.
pub open spec fn dot(a: u16, v: u16) -> bool {
    parity(a & v, 16)
}

/// The matrix (given by its rows) has a left inverse.
pub open spec fn invertible(m: Seq<u16>) -> bool {
    exists|l: Seq<u16>| l.len() == 16 && #[trigger] is_left_inverse(l, m)
}

/// The identity matrix.
pub open spec fn identity_rows() -> Seq<u16> {
    Seq::new(16, |k: int| 1u16 << (k as u16))
}

/// Rows of the product `a * b`.
pub open spec fn product_rows(a: Seq<u16>, b: Seq<u16>) -> Seq<u16> {
    Seq::new(16, |k: int| combo(a[k], b, 16))
}

/// `x` with bits `c` and `p` exchanged.
pub open spec fn swap_bits(x: u16, c: u16, p: u16) -> u16 {
    if bit16(x, c) == bit16(x, p) {
        x
    } else {
        x ^ (1u16 << c) ^ (1u16 << p)
    }
}

pub proof fn lemma_bit_and(a: u16, b: u16, j: u16)
    requires
        j < 16,
    ensures
        bit16(a & b, j) == (bit16(a, j) && bit16(b, j)),
        bit16(a | b, j) == (bit16(a, j) || bit16(b, j)),
{
    assert(((a & b) >> j) & 1u16 == 1u16 <==> (((a >> j) & 1u16 == 1u16) && ((b >> j) & 1u16
        == 1u16))) by (bit_vector)
        requires
            j < 16,
    ;
    assert(((a | b) >> j) & 1u16 == 1u16 <==> (((a >> j) & 1u16 == 1u16) || ((b >> j) & 1u16
        == 1u16))) by (bit_vector)
        requires
            j < 16,
    ;
}

/// Masks with the same sixteen bits are equal.
pub proof fn lemma_bits_eq(x: u16, y: u16)
    requires
        forall|j: u16| j < 16 ==> #[trigger] bit16(x, j) == bit16(y, j),
    ensures
        x == y,
{
    assert(bit16(x, 0) == bit16(y, 0));
    assert(bit16(x, 1) == bit16(y, 1));
    assert(bit16(x, 2) == bit16(y, 2));
    assert(bit16(x, 3) == bit16(y, 3));
    assert(bit16(x, 4) == bit16(y, 4));
    assert(bit16(x, 5) == bit16(y, 5));
    assert(bit16(x, 6) == bit16(y, 6));
    assert(bit16(x, 7) == bit16(y, 7));
    assert(bit16(x, 8) == bit16(y, 8));
    assert(bit16(x, 9) == bit16(y, 9));
    assert(bit16(x, 10) == bit16(y, 10));
    assert(bit16(x, 11) == bit16(y, 11));
    assert(bit16(x, 12) == bit16(y, 12));
    assert(bit16(x, 13) == bit16(y, 13));
    assert(bit16(x, 14) == bit16(y, 14));
    assert(bit16(x, 15) == bit16(y, 15));
    assert(x == y) by (bit_vector)
        requires
            ((x >> 0u16) & 1u16 == 1u16) == ((y >> 0u16) & 1u16 == 1u16),
            ((x >> 1u16) & 1u16 == 1u16) == ((y >> 1u16) & 1u16 == 1u16),
            ((x >> 2u16) & 1u16 == 1u16) == ((y >> 2u16) & 1u16 == 1u16),
            ((x >> 3u16) & 1u16 == 1u16) == ((y >> 3u16) & 1u16 == 1u16),
            ((x >> 4u16) & 1u16 == 1u16) == ((y >> 4u16) & 1u16 == 1u16),
            ((x >> 5u16) & 1u16 == 1u16) == ((y >> 5u16) & 1u16 == 1u16),
            ((x >> 6u16) & 1u16 == 1u16) == ((y >> 6u16) & 1u16 == 1u16),
            ((x >> 7u16) & 1u16 == 1u16) == ((y >> 7u16) & 1u16 == 1u16),
            ((x >> 8u16) & 1u16 == 1u16) == ((y >> 8u16) & 1u16 == 1u16),
            ((x >> 9u16) & 1u16 == 1u16) == ((y >> 9u16) & 1u16 == 1u16),
            ((x >> 10u16) & 1u16 == 1u16) == ((y >> 10u16) & 1u16 == 1u16),
            ((x >> 11u16) & 1u16 == 1u16) == ((y >> 11u16) & 1u16 == 1u16),
            ((x >> 12u16) & 1u16 == 1u16) == ((y >> 12u16) & 1u16 == 1u16),
            ((x >> 13u16) & 1u16 == 1u16) == ((y >> 13u16) & 1u16 == 1u16),
            ((x >> 14u16) & 1u16 == 1u16) == ((y >> 14u16) & 1u16 == 1u16),
            ((x >> 15u16) & 1u16 == 1u16) == ((y >> 15u16) & 1u16 == 1u16),
    ;
}

/// A unit row is the shifted one.
pub proof fn lemma_unit_eq(x: u16, i: int)
    requires
        0 <= i < 16,
        is_unit(x, i),
    ensures
        x == 1u16 << (i as u16),
{
    assert forall|j: u16| j < 16 implies #[trigger] bit16(x, j) == bit16(1u16 << (i as u16), j) by {
        lemma_bit_unit(i as u16, j);
    }
    lemma_bits_eq(x, 1u16 << (i as u16));
}

pub proof fn lemma_parity_xor(x: u16, y: u16, n: nat)
    requires
        n <= 16,
    ensures
        parity(x ^ y, n) == (parity(x, n) != parity(y, n)),
    decreases n,
{
    if n > 0 {
        lemma_parity_xor(x, y, (n - 1) as nat);
        lemma_bit_xor(x, y, (n - 1) as u16);
    }
}

/// Parity of a mask whose set bits are exactly `p` and `q` (one bit when
/// they coincide).
pub proof fn lemma_parity_bits(x: u16, p: int, q: int, n: nat)
    requires
        n <= 16,
        0 <= p < 16,
        0 <= q < 16,
        forall|j: u16| j < 16 ==> (#[trigger] bit16(x, j) <==> (j as int == p || j as int == q)),
    ensures
        parity(x, n) == if p == q {
            p < n
        } else {
            (p < n) != (q < n)
        },
    decreases n,
{
    if n > 0 {
        lemma_parity_bits(x, p, q, (n - 1) as nat);
        assert(bit16(x, (n - 1) as u16) <==> (n - 1 == p || n - 1 == q));
    }
}

/// Parity of a mask with no bits set.
pub proof fn lemma_parity_none(x: u16, n: nat)
    requires
        n <= 16,
        forall|j: u16| j < 16 ==> !#[trigger] bit16(x, j),
    ensures
        !parity(x, n),
    decreases n,
{
    if n > 0 {
        lemma_parity_none(x, (n - 1) as nat);
        assert(!bit16(x, (n - 1) as u16));
    }
}

pub proof fn lemma_dot_xor(a: u16, b: u16, v: u16)
    ensures
        dot(a ^ b, v) == (dot(a, v) != dot(b, v)),
{
    assert((a ^ b) & v == (a & v) ^ (b & v)) by (bit_vector);
    lemma_parity_xor(a & v, b & v, 16);
}

pub proof fn lemma_dot_zero(v: u16)
    ensures
        !dot(0u16, v),
{
    assert forall|j: u16| j < 16 implies !#[trigger] bit16(0u16 & v, j) by {
        lemma_bit_and(0u16, v, j);
        lemma_bit_zero(j);
    }
    lemma_parity_none(0u16 & v, 16);
}

/// A unit row picks one bit of the column.
pub proof fn lemma_dot_unit(x: u16, i: int, v: u16)
    requires
        0 <= i < 16,
        is_unit(x, i),
    ensures
        dot(x, v) == bit16(v, i as u16),
{
    if bit16(v, i as u16) {
        assert forall|j: u16| j < 16 implies (#[trigger] bit16(x & v, j) <==> (j as int == i
            || j as int == i)) by {
            lemma_bit_and(x, v, j);
        }
        lemma_parity_bits(x & v, i, i, 16);
    } else {
        assert forall|j: u16| j < 16 implies !#[trigger] bit16(x & v, j) by {
            lemma_bit_and(x, v, j);
        }
        lemma_parity_none(x & v, 16);
    }
}

/// Every combination of rows orthogonal to `v` is orthogonal to `v`.
pub proof fn lemma_combo_dot(t: u16, rows: Seq<u16>, v: u16, n: nat)
    requires
        n <= 16,
        rows.len() == 16,
        forall|k: int| 0 <= k < 16 ==> !dot(#[trigger] rows[k], v),
    ensures
        !dot(combo(t, rows, n), v),
    decreases n,
{
    if n == 0 {
        lemma_dot_zero(v);
    } else {
        lemma_combo_dot(t, rows, v, (n - 1) as nat);
        let prev = combo(t, rows, (n - 1) as nat);
        if bit16(t, (n - 1) as u16) {
            lemma_dot_xor(prev, rows[n - 1], v);
        } else {
            lemma_xor16(prev, 0u16, 0u16, 0u16);
        }
    }
}

pub proof fn lemma_combo_zero(rows: Seq<u16>, n: nat)
    requires
        n <= 16,
    ensures
        combo(0u16, rows, n) == 0u16,
    decreases n,
{
    if n > 0 {
        lemma_combo_zero(rows, (n - 1) as nat);
        lemma_bit_zero((n - 1) as u16);
        lemma_xor16(0u16, 0u16, 0u16, 0u16);
    }
}

/// XOR identities used by the row-operation proofs.
pub proof fn lemma_xor_rules(a: u16, x: u16, y: u16)
    ensures
        x ^ y == y ^ x,
        a ^ 0u16 == a,
        (a ^ (x ^ y)) ^ (x ^ y) == a,
        (a ^ x) ^ y == (a ^ y) ^ x,
        (a ^ x) ^ (x ^ y) == a ^ y,
        (a ^ x) ^ y == a ^ (x ^ y),
{
    assert(x ^ y == y ^ x && a ^ 0u16 == a && (a ^ (x ^ y)) ^ (x ^ y) == a && (a ^ x) ^ y == (a
        ^ y) ^ x && (a ^ x) ^ (x ^ y) == a ^ y && (a ^ x) ^ y == a ^ (x ^ y)) by (bit_vector);
}

/// Replacing row `k` changes a combination by the difference when `k` is
/// selected.
pub proof fn lemma_combo_update(t: u16, rows: Seq<u16>, k: int, x: u16, n: nat)
    requires
        n <= 16,
        rows.len() == 16,
        0 <= k < 16,
    ensures
        combo(t, rows.update(k, x), n) == combo(t, rows, n) ^ (if k < n && bit16(t, k as u16) {
            rows[k] ^ x
        } else {
            0u16
        }),
    decreases n,
{
    let r2 = rows.update(k, x);
    if n == 0 {
        lemma_xor16(0u16, 0u16, 0u16, 0u16);
    } else {
        lemma_combo_update(t, rows, k, x, (n - 1) as nat);
        let j = n - 1;
        let a = combo(t, rows, (n - 1) as nat);
        let d = if k < n - 1 && bit16(t, k as u16) {
            rows[k] ^ x
        } else {
            0u16
        };
        let sel = bit16(t, j as u16);
        if j == k {
            let rk = rows[k];
            lemma_xor_rules(a, rk, x);
            lemma_xor_rules(a, 0u16, 0u16);
        } else {
            assert(r2[j] == rows[j]);
            let c = if sel {
                rows[j]
            } else {
                0u16
            };
            lemma_xor_rules(a, d, c);
        }
    }
}

/// Combining rows of the identity gives the mask back.
pub proof fn lemma_combo_identity(a: u16)
    ensures
        combo(a, identity_rows(), 16) == a,
{
    lemma_combo_identity_bits(a, 16);
    lemma_bits_eq(combo(a, identity_rows(), 16), a);
}

proof fn lemma_combo_identity_bits(a: u16, n: nat)
    requires
        n <= 16,
    ensures
        forall|j: u16| j < 16 ==> #[trigger] bit16(combo(a, identity_rows(), n), j) == (j < n
            && bit16(a, j)),
    decreases n,
{
    if n == 0 {
        assert forall|j: u16| j < 16 implies #[trigger] bit16(combo(a, identity_rows(), 0), j)
            == (j < 0 && bit16(a, j)) by {
            lemma_bit_zero(j);
        }
    } else {
        lemma_combo_identity_bits(a, (n - 1) as nat);
        let k = (n - 1) as u16;
        let prev = combo(a, identity_rows(), (n - 1) as nat);
        let c = if bit16(a, k) {
            1u16 << k
        } else {
            0u16
        };
        assert(identity_rows()[n - 1] == 1u16 << k);
        assert forall|j: u16| j < 16 implies #[trigger] bit16(combo(a, identity_rows(), n), j)
            == (j < n && bit16(a, j)) by {
            lemma_bit_xor(prev, c, j);
            lemma_bit_unit(k, j);
            lemma_bit_zero(j);
        }
    }
}

/// `(a * m) * n == a * (m * n)` for one row `a`.
pub proof fn lemma_combo_assoc(a: u16, m: Seq<u16>, nn: Seq<u16>, n: nat)
    requires
        n <= 16,
        m.len() == 16,
        nn.len() == 16,
    ensures
        combo(combo(a, m, n), nn, 16) == combo(a, product_rows(m, nn), n),
    decreases n,
{
    if n == 0 {
        lemma_combo_zero(nn, 16);
    } else {
        lemma_combo_assoc(a, m, nn, (n - 1) as nat);
        let k = (n - 1) as u16;
        let prev = combo(a, m, (n - 1) as nat);
        if bit16(a, k) {
            lemma_combo_linear(prev, m[n - 1], nn, 16);
        } else {
            lemma_xor16(prev, 0u16, 0u16, 0u16);
            lemma_xor16(combo(a, product_rows(m, nn), (n - 1) as nat), 0u16, 0u16, 0u16);
        }
    }
}

/// A matrix that is its own inverse is the only left inverse it has.
pub proof fn lemma_involution_unique(l: Seq<u16>, m: Seq<u16>)
    requires
        l.len() == 16,
        m.len() == 16,
        is_left_inverse(l, m),
        is_left_inverse(m, m),
    ensures
        l == m,
{
    assert(product_rows(m, m) =~= identity_rows()) by {
        assert forall|k: int| 0 <= k < 16 implies #[trigger] product_rows(m, m)[k]
            == identity_rows()[k] by {
            lemma_unit_eq(combo(m[k], m, 16), k);
        }
    }
    assert forall|i: int| 0 <= i < 16 implies #[trigger] l[i] == m[i] by {
        lemma_combo_identity(l[i]);
        lemma_combo_assoc(l[i], m, m, 16);
        lemma_unit_eq(combo(l[i], m, 16), i);
        lemma_combo_unit(1u16 << (i as u16), i, m, 16);
        lemma_unit_shift(i as u16);
    }
    assert(l =~= m);
}

/// Exchanging rows `c` and `p` and the matching bits of the mask keeps the
/// combination.
pub proof fn lemma_combo_swap(t: u16, rows: Seq<u16>, c: int, p: int)
    requires
        rows.len() == 16,
        0 <= c < 16,
        0 <= p < 16,
    ensures
        combo(swap_bits(t, c as u16, p as u16), rows.update(c, rows[p]).update(p, rows[c]), 16)
            == combo(t, rows, 16),
{
    let cc = c as u16;
    let pp = p as u16;
    let t2 = swap_bits(t, cc, pp);
    let r1 = rows.update(c, rows[p]);
    let r2 = r1.update(p, rows[c]);
    if c == p {
        assert(r2 =~= rows);
    } else {
        let bc = bit16(t, cc);
        let bp = bit16(t, pp);
        lemma_unit_shift(cc);
        lemma_unit_shift(pp);
        assert(bit16(t2, cc) == bp && bit16(t2, pp) == bc) by {
            if bc != bp {
                assert(t2 == t ^ (1u16 << cc) ^ (1u16 << pp));
                lemma_bit_xor(t ^ (1u16 << cc), 1u16 << pp, cc);
                lemma_bit_xor(t, 1u16 << cc, cc);
                lemma_bit_xor(t ^ (1u16 << cc), 1u16 << pp, pp);
                lemma_bit_xor(t, 1u16 << cc, pp);
                lemma_bit_unit(cc, cc);
                lemma_bit_unit(cc, pp);
                lemma_bit_unit(pp, cc);
                lemma_bit_unit(pp, pp);
            }
        }
        lemma_combo_update(t2, r1, p, rows[c], 16);
        lemma_combo_update(t2, rows, c, rows[p], 16);
        assert(r1[p] == rows[p]);
        let a = combo(t, rows, 16);
        let x = rows[c];
        let y = rows[p];
        lemma_xor_rules(a, x, y);
        lemma_xor_rules(a ^ (x ^ y), 0u16, 0u16);
        lemma_xor_rules(a, 0u16, 0u16);
        if bc != bp {
            let e = (1u16 << cc) ^ (1u16 << pp);
            lemma_xor_rules(t, 1u16 << cc, 1u16 << pp);
            lemma_combo_linear(t, e, rows, 16);
            lemma_combo_linear(1u16 << cc, 1u16 << pp, rows, 16);
            lemma_combo_unit(1u16 << cc, c, rows, 16);
            lemma_combo_unit(1u16 << pp, p, rows, 16);
        }
    }
}


/// Column mask of a null vector of a partly reduced matrix: column `c` plus
/// every earlier pivot column `j` whose row has bit `c`.
pub open spec fn null_vector(left: Seq<u16>, c: u16, n: nat) -> u16
    decreases n,
{
    if n == 0 {
        1u16 << c
    } else {
        let prev = null_vector(left, c, (n - 1) as nat);
        if n - 1 < c && bit16(left[n - 1], c) {
            prev | (1u16 << ((n - 1) as u16))
        } else {
            prev
        }
    }
}

proof fn lemma_null_vector_bits(left: Seq<u16>, c: u16, n: nat)
    requires
        c < 16,
        n <= 16,
    ensures
        forall|j: u16|
            j < 16 ==> (#[trigger] bit16(null_vector(left, c, n), j) <==> (j == c || (j < n && j
                < c && bit16(left[j as int], c)))),
    decreases n,
{
    if n == 0 {
        assert forall|j: u16| j < 16 implies (#[trigger] bit16(null_vector(left, c, 0), j) <==> (j
            == c || (j < 0 && j < c && bit16(left[j as int], c)))) by {
            lemma_bit_unit(c, j);
        }
    } else {
        lemma_null_vector_bits(left, c, (n - 1) as nat);
        let k = (n - 1) as u16;
        let prev = null_vector(left, c, (n - 1) as nat);
        assert forall|j: u16| j < 16 implies (#[trigger] bit16(null_vector(left, c, n), j) <==> (j
            == c || (j < n && j < c && bit16(left[j as int], c)))) by {
            lemma_bit_and(prev, 1u16 << k, j);
            lemma_bit_unit(k, j);
        }
    }
}

/// Gauss-Jordan elimination that finds no pivot in column `col` has met a
/// matrix without a left inverse: the rows reduced so far, which the
/// original rows are combinations of (`mrows[i] == t[i] * left`), all
/// vanish on a nonzero vector.
pub proof fn lemma_no_pivot_singular(left: Seq<u16>, t: Seq<u16>, mrows: Seq<u16>, col: u16)
    requires
        left.len() == 16,
        t.len() == 16,
        mrows.len() == 16,
        col < 16,
        forall|i: int| 0 <= i < 16 ==> mrows[i] == #[trigger] combo(t[i], left, 16),
        forall|r: int, j: u16|
            0 <= r < 16 && j < col ==> (#[trigger] bit16(left[r], j) <==> r == j as int),
        forall|r: int| col <= r < 16 ==> !#[trigger] bit16(left[r], col),
    ensures
        !invertible(mrows),
{
    let v = null_vector(left, col, 16);
    lemma_null_vector_bits(left, col, 16);
    assert forall|r: int| 0 <= r < 16 implies !dot(#[trigger] left[r], v) by {
        let x = left[r] & v;
        if r < col && bit16(left[r], col) {
            assert forall|j: u16| j < 16 implies (#[trigger] bit16(x, j) <==> (j as int == r || j
                == col)) by {
                lemma_bit_and(left[r], v, j);
                if j < col {
                    assert(bit16(left[r], j) <==> r == j as int);
                }
            }
            lemma_parity_bits(x, r, col as int, 16);
        } else {
            assert forall|j: u16| j < 16 implies !#[trigger] bit16(x, j) by {
                lemma_bit_and(left[r], v, j);
                if j < col {
                    assert(bit16(left[r], j) <==> r == j as int);
                    if r == j as int {
                        assert(bit16(left[j as int], col) == bit16(left[r], col));
                    }
                }
            }
            lemma_parity_none(x, 16);
        }
    }
    assert forall|i: int| 0 <= i < 16 implies !dot(#[trigger] mrows[i], v) by {
        lemma_combo_dot(t[i], left, v, 16);
    }
    assert forall|l: Seq<u16>| l.len() == 16 implies !#[trigger] is_left_inverse(l, mrows) by {
        if is_left_inverse(l, mrows) {
            let c = col as int;
            assert(is_unit(combo(l[c], mrows, 16), c));
            lemma_dot_unit(combo(l[c], mrows, 16), c, v);
            lemma_combo_dot(l[c], mrows, v, 16);
        }
    }
}

} // verus!
