//! Computes Morton Z-order codes for point clustering.
//!
//! A point is quantized into a grid of `2^precision` cells per axis; the two cell indices are
//! then interleaved bit by bit (x bits at even positions, y bits at odd positions).

use vstd::prelude::*;
use vstd::arithmetic::power2::*;
use vstd::arithmetic::div_mod::*;
use vstd::bits::*;

verus! {

/// Stores the default number of quantization bits per point coordinate axis.
pub const DEFAULT_COORDINATE_PRECISION: u32 = 20;

/// Bit `i` of `v`.
pub open spec fn bit_of(v: nat, i: nat) -> nat {
    (v / pow2(i)) % 2
}

/// The Morton code of the low `n` bits of `x` and `y`: bit `i` of `x` lands at position `2i`
/// and bit `i` of `y` at position `2i + 1`.
pub open spec fn interleave(x: nat, y: nat, n: nat) -> nat
    decreases n,
{
    if n == 0 {
        0
    } else {
        x % 2 + 2 * (y % 2) + 4 * interleave(x / 2, y / 2, (n - 1) as nat)
    }
}

/// The low `n` bits of `v` spread to the even bit positions.
pub open spec fn spread_bits(v: nat, n: nat) -> nat
    decreases n,
{
    if n == 0 {
        0
    } else {
        v % 2 + 4 * spread_bits(v / 2, (n - 1) as nat)
    }
}

/// Gathers the even bit positions `0, 2, .., 2n - 2` of `code` into an `n`-bit value.
pub open spec fn even_bits(code: nat, n: nat) -> nat
    decreases n,
{
    if n == 0 {
        0
    } else {
        code % 2 + 2 * even_bits(code / 4, (n - 1) as nat)
    }
}

/// Gathers the odd bit positions `1, 3, .., 2n - 1` of `code` into an `n`-bit value.
pub open spec fn odd_bits(code: nat, n: nat) -> nat {
    even_bits(code / 2, n)
}

/// The effective number of interleaved bits for a requested precision.
pub open spec fn effective_precision(coordinate_precision: u32) -> nat {
    if coordinate_precision < 32 {
        coordinate_precision as nat
    } else {
        32
    }
}

proof fn lemma_interleave_bound(x: nat, y: nat, n: nat)
    ensures
        interleave(x, y, n) < pow2(2 * n),
    decreases n,
{
    reveal(pow2);
    if n == 0 {
        lemma2_to64();
    } else {
        lemma_interleave_bound(x / 2, y / 2, (n - 1) as nat);
        lemma_pow2_adds(2, 2 * (n - 1) as nat);
        lemma2_to64();
        assert(2 + 2 * (n - 1) == 2 * n);
    }
}

proof fn lemma_interleave_extend(x: nat, y: nat, k: nat)
    ensures
        interleave(x, y, k + 1) == interleave(x, y, k) + bit_of(x, k) * pow2(2 * k) + bit_of(
            y,
            k,
        ) * pow2(2 * k + 1),
    decreases k,
{
    if k == 0 {
        lemma2_to64();
        assert(interleave(x / 2, y / 2, 0) == 0);
        assert(interleave(x, y, 1) == x % 2 + 2 * (y % 2) + 4 * interleave(x / 2, y / 2, 0));
        assert(x / 1 == x && y / 1 == y);
        assert(bit_of(x, 0) == x % 2);
        assert(bit_of(y, 0) == y % 2);
        assert(interleave(x, y, 0) == 0);
        assert(bit_of(x, 0) * pow2(0) == bit_of(x, 0));
        assert(bit_of(y, 0) * pow2(1) == 2 * bit_of(y, 0));
    } else {
        let km = (k - 1) as nat;
        lemma_interleave_extend(x / 2, y / 2, km);
        // bit k of x is bit k-1 of x/2
        lemma_pow2_pos(km);
        lemma_div_denominator(x as int, 2, pow2(km) as int);
        lemma_div_denominator(y as int, 2, pow2(km) as int);
        lemma_pow2_adds(1, km);
        lemma2_to64();
        assert(1 + km == k);
        assert(pow2(k) == 2 * pow2(km));
        assert(bit_of(x / 2, km) == bit_of(x, k));
        assert(bit_of(y / 2, km) == bit_of(y, k));
        lemma_pow2_adds(2, 2 * km);
        lemma_pow2_adds(2, 2 * km + 1);
        assert(2 + 2 * km == 2 * k);
        assert(2 + (2 * km + 1) == 2 * k + 1);
        let a = bit_of(x, k);
        let b = bit_of(y, k);
        let p = pow2(2 * km);
        let q = pow2(2 * km + 1);
        assert(pow2(2 * k) == 4 * p);
        assert(pow2(2 * k + 1) == 4 * q);
        assert(4 * (a * p) == a * (4 * p)) by (nonlinear_arith);
        assert(4 * (b * q) == b * (4 * q)) by (nonlinear_arith);
        let r1 = interleave(x / 2, y / 2, km);
        let r2 = interleave(x / 2, y / 2, k);
        assert(r2 == r1 + a * p + b * q);
        assert(interleave(x, y, k + 1) == x % 2 + 2 * (y % 2) + 4 * r2);
        assert(interleave(x, y, k) == x % 2 + 2 * (y % 2) + 4 * r1);
        assert(a * pow2(2 * k) == 4 * (a * p));
        assert(b * pow2(2 * k + 1) == 4 * (b * q));
    }
}

proof fn lemma_bit_of_u32(v: u32, i: u32)
    requires
        i < 32,
    ensures
        ((v >> i) & 1u32) as nat == bit_of(v as nat, i as nat),
{
    lemma_u32_shr_is_div(v, i);
    let s = v >> i;
    assert(s & 1u32 == s % 2) by (bit_vector);
}

proof fn lemma_or_is_add(c: u64, b: u64, k: u64)
    requires
        k < 64,
        b <= 1,
        (c as nat) < pow2(k as nat),
    ensures
        (c | (b << k)) == c + b * pow2(k as nat),
        c + b * pow2(k as nat) < pow2((k + 1) as nat),
{
    lemma_u64_pow2_no_overflow(k as nat);
    lemma_u64_shl_is_mul(1u64, k);
    assert(c < (1u64 << k));
    assert((c | (b << k)) == c + (b << k)) by (bit_vector)
        requires
            k < 64,
            b <= 1,
            c < (1u64 << k),
    ;
    assert(b * pow2(k as nat) <= pow2(k as nat)) by {
        if b == 0 {
        } else {
            assert(b == 1);
        }
    }
    lemma_u64_shl_is_mul(b, k);
    lemma_pow2_adds(k as nat, 1);
    lemma2_to64();
}

/// Interleave x and y bits into one Morton-order code.
///
/// Only the low `min(coordinate_precision, 32)` bits of each coordinate are read.
pub fn swizzle_bits(x: u32, y: u32, coordinate_precision: u32) -> (code: u64)
    ensures
        code == interleave(x as nat, y as nat, effective_precision(coordinate_precision)),
        (code as nat) < pow2(2 * effective_precision(coordinate_precision)),
{
    let limit = if coordinate_precision < 32 {
        coordinate_precision
    } else {
        32
    };
    let mut code: u64 = 0;
    let mut bit: u32 = 0;
    while bit < limit
        invariant
            limit <= 32,
            limit as nat == effective_precision(coordinate_precision),
            bit <= limit,
            code == interleave(x as nat, y as nat, bit as nat),
        decreases limit - bit,
    {
        proof {
            lemma_interleave_bound(x as nat, y as nat, bit as nat);
            lemma_interleave_extend(x as nat, y as nat, bit as nat);
            lemma_bit_of_u32(x, bit);
            lemma_bit_of_u32(y, bit);
        }
        let x_bit = ((x >> bit) & 1) as u64;
        let y_bit = ((y >> bit) & 1) as u64;
        let shift = 2 * (bit as u64);
        proof {
            lemma_or_is_add(code, x_bit, shift);
        }
        code = code | (x_bit << shift);
        proof {
            lemma_or_is_add(code, y_bit, (shift + 1) as u64);
            lemma_pow2_adds(shift as nat, 1);
        }
        code = code | (y_bit << (shift + 1));
        bit = bit + 1;
    }
    proof {
        lemma_interleave_bound(x as nat, y as nat, bit as nat);
    }
    code
}

/// Clamp a quantized grid position into the `2^min(precision, 32)` cells of one axis.
///
/// Negative positions fall into cell 0 and positions past the grid into the last cell.
pub fn clamp_to_cells(quantized: i64, coordinate_precision: u32) -> (cell: u32)
    ensures
        quantized < 0 ==> cell == 0,
        0 <= quantized < pow2(effective_precision(coordinate_precision)) ==> cell == quantized,
        quantized >= pow2(effective_precision(coordinate_precision)) ==> cell == pow2(
            effective_precision(coordinate_precision),
        ) - 1,
{
    let bits: u64 = if coordinate_precision < 32 {
        coordinate_precision as u64
    } else {
        32
    };
    proof {
        lemma_u64_pow2_no_overflow(bits as nat);
        lemma_u64_shl_is_mul(1u64, bits);
        if bits < 32 {
            lemma_pow2_strictly_increases(bits as nat, 32);
        }
        lemma2_to64();
    }
    let cell_count: u64 = 1u64 << bits;
    let last: i64 = (cell_count - 1) as i64;
    if quantized < 0 {
        0
    } else if quantized > last {
        last as u32
    } else {
        quantized as u32
    }
}

/// The low `n` bits of `v` are `v % 2^n`.
proof fn lemma_low_bits(v: nat, n: nat)
    requires
        n > 0,
    ensures
        v % 2 + 2 * ((v / 2) % pow2((n - 1) as nat)) == v % pow2(n),
{
    lemma_pow2_pos((n - 1) as nat);
    lemma_pow2_adds(1, (n - 1) as nat);
    lemma2_to64();
    lemma_mod_breakdown(v as int, 2, pow2((n - 1) as nat) as int);
}

/// Law: the x coordinate is recovered from the even bits and the y coordinate from the odd
/// bits of a Morton code, up to the `n` interleaved bits.
pub proof fn lemma_interleave_roundtrip(x: nat, y: nat, n: nat)
    ensures
        even_bits(interleave(x, y, n), n) == x % pow2(n),
        odd_bits(interleave(x, y, n), n) == y % pow2(n),
    decreases n,
{
    if n == 0 {
        lemma2_to64();
    } else {
        lemma_interleave_roundtrip(x / 2, y / 2, (n - 1) as nat);
        let c = interleave(x, y, n);
        let rest = interleave(x / 2, y / 2, (n - 1) as nat);
        assert(c == x % 2 + 2 * (y % 2) + 4 * rest);
        assert(c % 2 == x % 2);
        assert(c / 4 == rest);
        assert(c / 2 == y % 2 + 2 * rest);
        assert((c / 2) % 2 == y % 2);
        assert((c / 2) / 4 == rest / 2) by {
            lemma_div_denominator(c as int, 2, 4);
            lemma_div_denominator(c as int, 4, 2);
        }
        assert(odd_bits(rest, (n - 1) as nat) == even_bits(rest / 2, (n - 1) as nat));
        lemma_low_bits(x, n);
        lemma_low_bits(y, n);
    }
}

/// A Morton code splits into the spread x bits plus twice the spread y bits.
pub proof fn lemma_interleave_spread(x: nat, y: nat, n: nat)
    ensures
        interleave(x, y, n) == spread_bits(x, n) + 2 * spread_bits(y, n),
    decreases n,
{
    if n > 0 {
        lemma_interleave_spread(x / 2, y / 2, (n - 1) as nat);
    }
}

proof fn lemma_spread_strict(a: nat, b: nat, n: nat)
    requires
        a < b < pow2(n),
    ensures
        spread_bits(a, n) < spread_bits(b, n),
    decreases n,
{
    if n == 0 {
        lemma2_to64();
    } else {
        lemma_pow2_adds(1, (n - 1) as nat);
        lemma2_to64();
        lemma_pow2_pos((n - 1) as nat);
        assert(b / 2 < pow2((n - 1) as nat)) by {
            lemma_div_is_ordered(b as int, (2 * pow2((n - 1) as nat) - 1) as int, 2);
        }
        if a / 2 == b / 2 {
            assert(a % 2 < b % 2);
        } else {
            assert(a / 2 < b / 2) by {
                lemma_div_is_ordered(a as int, b as int, 2);
            }
            lemma_spread_strict(a / 2, b / 2, (n - 1) as nat);
        }
    }
}

proof fn lemma_spread_monotonic(a: nat, b: nat, n: nat)
    requires
        a <= b < pow2(n),
    ensures
        spread_bits(a, n) <= spread_bits(b, n),
{
    if a < b {
        lemma_spread_strict(a, b, n);
    }
}

/// Law: Morton order preserves coordinate dominance. A cell that is at least as far along both
/// axes as another never gets a smaller code.
pub proof fn lemma_interleave_monotonic(x1: nat, y1: nat, x2: nat, y2: nat, n: nat)
    requires
        x1 <= x2 < pow2(n),
        y1 <= y2 < pow2(n),
    ensures
        interleave(x1, y1, n) <= interleave(x2, y2, n),
{
    lemma_interleave_spread(x1, y1, n);
    lemma_interleave_spread(x2, y2, n);
    lemma_spread_monotonic(x1, x2, n);
    lemma_spread_monotonic(y1, y2, n);
}

/// Law: different cells within the grid get different codes.
pub proof fn lemma_interleave_injective(x1: nat, y1: nat, x2: nat, y2: nat, n: nat)
    requires
        x1 < pow2(n),
        y1 < pow2(n),
        x2 < pow2(n),
        y2 < pow2(n),
        interleave(x1, y1, n) == interleave(x2, y2, n),
    ensures
        x1 == x2,
        y1 == y2,
{
    lemma_interleave_roundtrip(x1, y1, n);
    lemma_interleave_roundtrip(x2, y2, n);
    lemma_small_mod(x1, pow2(n));
    lemma_small_mod(x2, pow2(n));
    lemma_small_mod(y1, pow2(n));
    lemma_small_mod(y2, pow2(n));
}

} // verus!
