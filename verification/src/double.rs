//! IEEE 754 doubles by their bits: how they compare, how they are limited to a percentage, and how
//! they are cut to an integer.
use vstd::prelude::*;
use vstd::arithmetic::power2::{lemma_pow2_adds, lemma_pow2_pos, lemma_pow2_unfold, pow2};

verus! {

/// The bits of the double 100.
pub const HUNDRED: u64 = 4636737291354636288;

pub open spec fn negative(bits: u64) -> bool {
    bits >= 0x8000_0000_0000_0000
}

/// The bits without the sign.
pub open spec fn unsigned(bits: u64) -> nat {
    bits as nat % 0x8000_0000_0000_0000
}

pub open spec fn is_nan(bits: u64) -> bool {
    unsigned(bits) > 0x7ff0_0000_0000_0000
}

pub open spec fn is_finite(bits: u64) -> bool {
    unsigned(bits) < 0x7ff0_0000_0000_0000
}

/// The magnitude that unsigned bits denote, in units of 2 to the power of -1074.
pub open spec fn magnitude(u: nat) -> nat {
    if u < 0x10_0000_0000_0000 {
        u
    } else {
        (0x10_0000_0000_0000 + u % 0x10_0000_0000_0000) * pow2(
            (u / 0x10_0000_0000_0000 - 1) as nat,
        )
    }
}

/// The number that the bits of a finite double denote, in units of 2 to the power of -1074.
pub open spec fn scaled(bits: u64) -> int {
    if negative(bits) {
        -(magnitude(unsigned(bits)) as int)
    } else {
        magnitude(unsigned(bits)) as int
    }
}

/// The place of a double among all that are numbers, both zeros in one place.
pub open spec fn order(bits: u64) -> int {
    if negative(bits) {
        -(unsigned(bits) as int)
    } else {
        unsigned(bits) as int
    }
}

proof fn magnitude_steps(u: nat)
    ensures
        magnitude(u) < magnitude(u + 1),
{
    let block: nat = 0x10_0000_0000_0000;
    if u + 1 < block {
    } else if u + 1 == block {
        assert((u + 1) / block == 1);
        assert((u + 1) % block == 0);
        vstd::arithmetic::power2::lemma2_to64();
        assert((block + (u + 1) % block) * pow2(0) == block) by (nonlinear_arith)
            requires
                pow2(0) == 1,
                (u + 1) % block == 0,
        ;
    } else {
        let e = (u / block - 1) as nat;
        let f = u % block;
        lemma_pow2_pos(e);
        if f + 1 < block {
            assert((u + 1) / block == u / block && (u + 1) % block == f + 1);
            assert((block + f) * pow2(e) < (block + f + 1) * pow2(e)) by (nonlinear_arith)
                requires
                    pow2(e) > 0,
            ;
        } else {
            assert((u + 1) / block == u / block + 1 && (u + 1) % block == 0);
            lemma_pow2_unfold(e + 1);
            assert(pow2(e + 1) == 2 * pow2(e));
            assert((block + f) * pow2(e) < block * (2 * pow2(e))) by (nonlinear_arith)
                requires
                    pow2(e) > 0,
                    f + 1 == block,
            ;
        }
    }
}

proof fn magnitude_grows(u: nat, v: nat)
    requires
        u < v,
    ensures
        magnitude(u) < magnitude(v),
    decreases v - u,
{
    magnitude_steps((v - 1) as nat);
    if u + 1 < v {
        magnitude_grows(u, (v - 1) as nat);
    }
}

/// Doubles are ordered as the numbers that they denote.
pub proof fn order_is_numeric(a: u64, b: u64)
    requires
        is_finite(a),
        is_finite(b),
    ensures
        order(a) < order(b) <==> scaled(a) < scaled(b),
        order(a) == order(b) <==> scaled(a) == scaled(b),
{
    let (u, v) = (unsigned(a), unsigned(b));
    if u < v {
        magnitude_grows(u, v);
    } else if v < u {
        magnitude_grows(v, u);
    }
    if u > 0 {
        magnitude_grows(0, u);
    }
    if v > 0 {
        magnitude_grows(0, v);
    }
}

pub fn nan(bits: u64) -> (r: bool)
    ensures
        r == is_nan(bits),
{
    bits % 0x8000_0000_0000_0000 > 0x7ff0_0000_0000_0000
}

fn place(bits: u64) -> (r: i128)
    ensures
        r == order(bits),
{
    let u: i128 = (bits % 0x8000_0000_0000_0000) as i128;
    if bits >= 0x8000_0000_0000_0000 {
        -u
    } else {
        u
    }
}

/// `a >= b` on doubles: false where one of them is no number.
pub fn at_least(a: u64, b: u64) -> (r: bool)
    ensures
        r == (!is_nan(a) && !is_nan(b) && order(a) >= order(b)),
{
    !nan(a) && !nan(b) && place(a) >= place(b)
}

/// `a > b` on doubles: false where one of them is no number.
pub fn above(a: u64, b: u64) -> (r: bool)
    ensures
        r == (!is_nan(a) && !is_nan(b) && order(a) > order(b)),
{
    !nan(a) && !nan(b) && place(a) > place(b)
}

/// Whether a double comes before another in the order of their places.
pub fn precedes(a: u64, b: u64) -> (r: bool)
    ensures
        r == (order(a) < order(b)),
{
    place(a) < place(b)
}

/// A double limited to 0 and 100; what is no number stays as it is.
pub open spec fn percent(bits: u64) -> u64 {
    if is_nan(bits) {
        bits
    } else if order(bits) < 0 {
        0
    } else if order(bits) > HUNDRED {
        HUNDRED
    } else {
        bits
    }
}

pub fn limit_percent(bits: u64) -> (r: u64)
    ensures
        r == percent(bits),
        !is_nan(bits) ==> 0 <= order(r) <= order(HUNDRED),
{
    if nan(bits) {
        bits
    } else if place(bits) < 0 {
        0
    } else if place(bits) > HUNDRED as i128 {
        HUNDRED
    } else {
        bits
    }
}

/// The bits of a whole number from 0 to 100.
pub open spec fn is_whole(bits: u64, n: nat) -> bool {
    !negative(bits) && is_finite(bits) && magnitude(unsigned(bits)) == n * pow2(1074)
}

/// The double of a whole number.
pub open spec fn whole(n: nat) -> u64 {
    choose|bits: u64| is_whole(bits, n)
}

proof fn one_whole(bits: u64, n: nat)
    requires
        is_whole(bits, n),
    ensures
        bits == whole(n),
{
    let other = whole(n);
    assert(is_whole(other, n));
    if unsigned(bits) < unsigned(other) {
        magnitude_grows(unsigned(bits), unsigned(other));
    } else if unsigned(other) < unsigned(bits) {
        magnitude_grows(unsigned(other), unsigned(bits));
    }
}

/// The double of a whole number, limited to 0 and 100.
pub fn whole_percent(n: i128) -> (r: u64)
    ensures
        r == whole(
            if n < 0 {
                0
            } else if n > 100 {
                100
            } else {
                n as nat
            },
        ),
{
    let m: u64 = if n < 0 {
        0
    } else if n > 100 {
        100
    } else {
        n as u64
    };
    if m == 0 {
        proof {
            assert(0nat * pow2(1074) == 0) by (nonlinear_arith);
            one_whole(0, 0);
        }
        return 0;
    }
    // The number as a one-bit-led fraction: `f` is `m` shifted so that it fills 53 bits.
    let mut f: u64 = m;
    let mut e: u64 = 1075;
    proof {
        vstd::arithmetic::power2::lemma2_to64();
    }
    while f < 0x10_0000_0000_0000
        invariant
            0 < f < 0x20_0000_0000_0000,
            m <= 100,
            1000 <= e <= 1075,
            f * pow2((e - 1) as nat) == m * pow2(1074),
            f >= pow2((1075 - e) as nat),
        decreases 0x20_0000_0000_0000 - f,
    {
        proof {
            lemma_pow2_unfold((e - 1) as nat);
            lemma_pow2_unfold((1076 - e) as nat);
            assert((2 * f) * pow2((e - 2) as nat) == f * (2 * pow2((e - 2) as nat)))
                by (nonlinear_arith);
            if e == 1000 {
                vstd::arithmetic::power2::lemma_pow2_strictly_increases(52, 75);
                vstd::arithmetic::power2::lemma2_to64_rest();
                assert(false);
            }
        }
        f = f * 2;
        e = e - 1;
    }
    let r: u64 = e * 0x10_0000_0000_0000 + (f - 0x10_0000_0000_0000);
    proof {
        let u = unsigned(r);
        assert(u == r);
        assert(u / 0x10_0000_0000_0000 == e as nat);
        assert(u % 0x10_0000_0000_0000 == (f - 0x10_0000_0000_0000) as nat);
        one_whole(r, m as nat);
    }
    r
}

/// The double of a whole number up to 100 is a finite number.
pub proof fn whole_is_number(n: nat)
    requires
        n <= 100,
    ensures
        is_whole(whole(n), n),
        !is_nan(whole(n)),
{
    whole_exists(n);
}

proof fn whole_exists(n: nat)
    requires
        n <= 100,
    ensures
        exists|bits: u64| is_whole(bits, n),
{
    if n == 0 {
        assert(0nat * pow2(1074) == 0) by (nonlinear_arith);
        assert(is_whole(0, 0));
    } else {
        vstd::arithmetic::power2::lemma2_to64();
        whole_fills(n, n, 1075);
    }
}

/// A number shifted up until it fills 53 bits is a double.
proof fn whole_fills(n: nat, f: nat, e: nat)
    requires
        0 < n <= 100,
        0 < f < 0x20_0000_0000_0000,
        f >= pow2((1075 - e) as nat),
        1000 <= e <= 1075,
        f * pow2((e - 1) as nat) == n * pow2(1074),
    ensures
        exists|bits: u64| is_whole(bits, n),
    decreases 0x20_0000_0000_0000 - f,
{
    if f < 0x10_0000_0000_0000 {
        lemma_pow2_unfold((e - 1) as nat);
        lemma_pow2_unfold((1076 - e) as nat);
        assert((2 * f) * pow2((e - 2) as nat) == f * (2 * pow2((e - 2) as nat)))
            by (nonlinear_arith);
        if e == 1000 {
            vstd::arithmetic::power2::lemma_pow2_strictly_increases(52, 75);
            vstd::arithmetic::power2::lemma2_to64_rest();
        }
        whole_fills(n, 2 * f, (e - 1) as nat);
    } else {
        let r = (e * 0x10_0000_0000_0000 + (f - 0x10_0000_0000_0000)) as u64;
        assert(unsigned(r) == r);
        assert(unsigned(r) / 0x10_0000_0000_0000 == e);
        assert(unsigned(r) % 0x10_0000_0000_0000 == (f - 0x10_0000_0000_0000) as nat);
        assert(is_whole(r, n));
    }
}

/// The number that a finite double denotes, without its fraction.
pub open spec fn truncated(bits: u64) -> int {
    let whole = magnitude(unsigned(bits)) / pow2(1074);
    if negative(bits) {
        -(whole as int)
    } else {
        whole as int
    }
}

/// The bits of the double 2 to the power of 63.
const TWO_TO_63: u64 = 0x43e0_0000_0000_0000;

pub open spec fn in_i64_range(bits: u64) -> bool {
    is_finite(bits) && -(pow2(63) * pow2(1074)) <= scaled(bits) <= pow2(63) * pow2(1074)
}

proof fn two_to_63()
    ensures
        is_finite(TWO_TO_63),
        unsigned(TWO_TO_63) == TWO_TO_63,
        scaled(TWO_TO_63) == pow2(63) * pow2(1074),
{
    let block: nat = 0x10_0000_0000_0000;
    let u = unsigned(TWO_TO_63);
    assert(u == 0x43e0_0000_0000_0000);
    assert(u / block == 1086 && u % block == 0);
    vstd::arithmetic::power2::lemma2_to64_rest();
    assert(block == pow2(52));
    lemma_pow2_adds(52, 1085);
    lemma_pow2_adds(63, 1074);
    assert((block + 0) * pow2(1085) == pow2(52) * pow2(1085));
}

/// A double cut to an integer, where it is a finite number from -2^63 to 2^63; 2^63 itself gives the
/// largest `i64`.
pub open spec fn cut(bits: u64) -> Option<i64> {
    if !in_i64_range(bits) {
        None
    } else if truncated(bits) > i64::MAX {
        Some(i64::MAX)
    } else {
        Some(truncated(bits) as i64)
    }
}

pub fn cut_to_i64(bits: u64) -> (r: Option<i64>)
    ensures
        r == cut(bits),
{
    let u: u64 = bits % 0x8000_0000_0000_0000;
    if u >= 0x7ff0_0000_0000_0000 {
        return None;
    }
    proof {
        two_to_63();
        let v: u64 = u;
        assert(unsigned(v) == u && unsigned(bits) == u);
        order_is_numeric(v, TWO_TO_63);
    }
    if u > TWO_TO_63 {
        return None;
    }
    let e: u64 = u / 0x10_0000_0000_0000;
    let whole: u64 = if e < 1023 {
        proof {
            small_is_zero(u as nat);
        }
        0
    } else {
        let f: u64 = u % 0x10_0000_0000_0000 + 0x10_0000_0000_0000;
        if e < 1075 {
            proof {
                shifted_down(f as nat, e as nat);
                vstd::bits::lemma_u64_shr_is_div(f, (1075 - e) as u64);
            }
            f >> (1075 - e)
        } else {
            proof {
                shifted_up(f as nat, e as nat);
                assert(e <= 1086);
                shift_bound(f, (e - 1075) as nat);
                vstd::bits::lemma_u64_shl_is_mul(f, (e - 1075) as u64);
            }
            f << (e - 1075)
        }
    };
    proof {
        assert(whole == magnitude(u as nat) / pow2(1074));
        whole_is_bounded(u as nat);
    }
    if bits >= 0x8000_0000_0000_0000 {
        Some((-(whole as i128)) as i64)
    } else if whole > 9223372036854775807 {
        Some(9223372036854775807)
    } else {
        Some(whole as i64)
    }
}

proof fn whole_is_bounded(u: nat)
    requires
        u <= TWO_TO_63,
    ensures
        magnitude(u) / pow2(1074) <= 0x8000_0000_0000_0000,
{
    two_to_63();
    if u < TWO_TO_63 {
        magnitude_grows(u, TWO_TO_63 as nat);
    }
    lemma_pow2_pos(1074);
    vstd::arithmetic::power2::lemma2_to64_rest();
    vstd::arithmetic::div_mod::lemma_div_is_ordered(
        magnitude(u) as int,
        (pow2(63) * pow2(1074)) as int,
        pow2(1074) as int,
    );
    vstd::arithmetic::div_mod::lemma_div_by_multiple(pow2(63) as int, pow2(1074) as int);
}

proof fn shift_bound(f: u64, k: nat)
    requires
        f < 0x20_0000_0000_0000,
        k <= 11,
    ensures
        f * pow2(k) <= u64::MAX,
{
    if k < 11 {
        vstd::arithmetic::power2::lemma_pow2_strictly_increases(k, 11);
    }
    vstd::arithmetic::power2::lemma2_to64();
    assert(f * pow2(k) <= 0x1f_ffff_ffff_ffff * 2048) by (nonlinear_arith)
        requires
            f < 0x20_0000_0000_0000,
            pow2(k) <= 2048,
    ;
}

proof fn small_is_zero(u: nat)
    requires
        u / 0x10_0000_0000_0000 < 1023,
    ensures
        magnitude(u) / pow2(1074) == 0,
{
    let one: nat = 1023 * 0x10_0000_0000_0000;
    magnitude_grows(u, one);
    vstd::arithmetic::power2::lemma2_to64_rest();
    assert(one / 0x10_0000_0000_0000 == 1023 && one % 0x10_0000_0000_0000 == 0);
    lemma_pow2_adds(52, 1022);
    assert(magnitude(one) == pow2(1074));
    vstd::arithmetic::div_mod::lemma_basic_div(magnitude(u) as int, pow2(1074) as int);
}

proof fn shifted_down(f: nat, e: nat)
    requires
        1 <= e < 1075,
    ensures
        (f * pow2((e - 1) as nat)) / pow2(1074) == f / pow2((1075 - e) as nat),
{
    let k = pow2((e - 1) as nat);
    let d = pow2((1075 - e) as nat);
    lemma_pow2_adds((e - 1) as nat, (1075 - e) as nat);
    lemma_pow2_pos((e - 1) as nat);
    lemma_pow2_pos((1075 - e) as nat);
    vstd::arithmetic::div_mod::lemma_div_denominator((f * k) as int, k as int, d as int);
    vstd::arithmetic::div_mod::lemma_div_by_multiple(f as int, k as int);
}

proof fn shifted_up(f: nat, e: nat)
    requires
        1075 <= e,
    ensures
        (f * pow2((e - 1) as nat)) / pow2(1074) == f * pow2((e - 1075) as nat),
{
    let k = pow2((e - 1075) as nat);
    lemma_pow2_adds((e - 1075) as nat, 1074);
    lemma_pow2_pos(1074);
    assert(f * (k * pow2(1074)) == (f * k) * pow2(1074)) by (nonlinear_arith);
    vstd::arithmetic::div_mod::lemma_div_by_multiple((f * k) as int, pow2(1074) as int);
}

/// The place of a double in the total order of IEEE 754.
pub open spec fn total(bits: u64) -> int {
    if negative(bits) {
        -(unsigned(bits) as int) - 1
    } else {
        unsigned(bits) as int
    }
}

fn total_place(bits: u64) -> (r: i128)
    ensures
        r == total(bits),
{
    let u: i128 = (bits % 0x8000_0000_0000_0000) as i128;
    if bits >= 0x8000_0000_0000_0000 {
        -u - 1
    } else {
        u
    }
}

/// Whether a double comes before another in the total order.
pub fn totally_precedes(a: u64, b: u64) -> (r: bool)
    ensures
        r == (total(a) < total(b)),
{
    total_place(a) < total_place(b)
}

/// The integer nearest to a double that is not negative, the greater of two that are as near.
pub open spec fn near(bits: u64) -> nat {
    (2 * magnitude(unsigned(bits)) + pow2(1074)) / (2 * pow2(1074))
}

/// The bits of the double 2 to the power of 31.
const TWO_TO_31: u64 = 0x41e0_0000_0000_0000;

proof fn two_to_31()
    ensures
        magnitude(TWO_TO_31 as nat) == pow2(31) * pow2(1074),
{
    let block: nat = 0x10_0000_0000_0000;
    let u = TWO_TO_31 as nat;
    assert(u / block == 1054 && u % block == 0);
    vstd::arithmetic::power2::lemma2_to64_rest();
    lemma_pow2_adds(52, 1053);
    lemma_pow2_adds(31, 1074);
    assert((block + 0) * pow2(1053) == pow2(52) * pow2(1053));
}

/// Half up is the same by way of whole halves.
proof fn near_by_halves(m: nat)
    ensures
        (2 * m + pow2(1074)) / (2 * pow2(1074)) == ((2 * m) / pow2(1074) + 1) / 2,
{
    let d = pow2(1074);
    lemma_pow2_pos(1074);
    let h = (2 * m) / d;
    vstd::arithmetic::div_mod::lemma_fundamental_div_mod((2 * m) as int, d as int);
    vstd::arithmetic::div_mod::lemma_div_denominator((2 * m + d) as int, d as int, 2);
    assert(d * 2 == 2 * d);
    assert((2 * m + d) / d == h + 1) by {
        vstd::arithmetic::div_mod::lemma_div_plus_one((2 * m) as int, d as int);
    }
}

/// A percentage rounded to an integer, where it is a number and not negative.
pub fn round_percent(bits: u64) -> (r: i32)
    requires
        !negative(bits),
        !is_nan(bits),
    ensures
        r == if near(bits) > i32::MAX {
            i32::MAX as int
        } else {
            near(bits) as int
        },
{
    let ghost m = magnitude(bits as nat);
    proof {
        assert(unsigned(bits) == bits);
        lemma_pow2_pos(1074);
        near_by_halves(m);
        two_to_31();
        vstd::arithmetic::power2::lemma2_to64();
        vstd::arithmetic::power2::lemma2_to64_rest();
    }
    if bits >= TWO_TO_31 {
        proof {
            if bits > TWO_TO_31 {
                magnitude_grows(TWO_TO_31 as nat, bits as nat);
            }
            let d = pow2(1074) as int;
            assert(2 * m >= 0x1_0000_0000 * d) by (nonlinear_arith)
                requires
                    m >= 0x8000_0000 * d,
            ;
            vstd::arithmetic::div_mod::lemma_div_is_ordered(0x1_0000_0000 * d, (2 * m) as int, d);
            vstd::arithmetic::div_mod::lemma_div_by_multiple(0x1_0000_0000, d);
        }
        return 2147483647;
    }
    let e: u64 = bits / 0x10_0000_0000_0000;
    if e < 1022 {
        proof {
            let half: nat = 1022 * 0x10_0000_0000_0000;
            magnitude_grows(bits as nat, half);
            assert(half / 0x10_0000_0000_0000 == 1022 && half % 0x10_0000_0000_0000 == 0);
            lemma_pow2_adds(52, 1021);
            lemma_pow2_unfold(1074);
            assert(magnitude(half) == pow2(1073));
            vstd::arithmetic::div_mod::lemma_basic_div((2 * m) as int, pow2(1074) as int);
        }
        return 0;
    }
    let f: u64 = bits % 0x10_0000_0000_0000 + 0x10_0000_0000_0000;
    proof {
        shifted_down(f as nat, (e + 1) as nat);
        lemma_pow2_unfold(e as nat);
        assert(f * pow2(e as nat) == 2 * (f * pow2((e - 1) as nat))) by (nonlinear_arith)
            requires
                pow2(e as nat) == 2 * pow2((e - 1) as nat),
        ;
        assert(e <= 1053);
        vstd::bits::lemma_u64_shr_is_div(f, (1074 - e) as u64);
        vstd::arithmetic::power2::lemma_pow2_strictly_increases(20, (1074 - e) as nat);
        vstd::arithmetic::div_mod::lemma_div_is_ordered_by_denominator(
            f as int,
            pow2(20) as int,
            pow2((1074 - e) as nat) as int,
        );
    }
    let halves: u64 = f >> (1074 - e);
    assert(halves <= 0x1_ffff_ffff_ffff);
    let whole: u64 = (halves + 1) / 2;
    if whole > 2147483647 {
        2147483647
    } else {
        whole as i32
    }
}

/// The order of doubles by their bits: numbers of one sign go by their bits, and every negative number
/// is below every positive one.
pub proof fn order_goes_by_bits(a: u64, b: u64)
    ensures
        a <= b < 0x8000_0000_0000_0000 ==> order(a) <= order(b),
        a < b < 0x8000_0000_0000_0000 ==> order(a) < order(b),
        0x8000_0000_0000_0000 <= a < b ==> order(a) > order(b),
        a < 0x8000_0000_0000_0000 < b ==> order(b) < order(a),
        is_nan(a) <==> 0x7ff0_0000_0000_0000 < a < 0x8000_0000_0000_0000 || a
            > 0xfff0_0000_0000_0000,
{
}

/// A percentage stays as it is from nothing to a hundred; below it is nothing, above a hundred.
pub proof fn percentages_stay_within_bounds(bits: u64)
    ensures
        bits <= 0x4059_0000_0000_0000 ==> percent(bits) == bits,
        0x4059_0000_0000_0000 < bits <= 0x7ff0_0000_0000_0000 ==> percent(bits)
            == 0x4059_0000_0000_0000,
        0x8000_0000_0000_0000 < bits <= 0xfff0_0000_0000_0000 ==> percent(bits) == 0,
{
}

/// The bits of a whole number.
pub proof fn whole_has_bits(n: nat, bits: u64, k: nat)
    requires
        0 < n,
        bits < 0x7ff0_0000_0000_0000,
        bits >= 0x10_0000_0000_0000,
        0x10_0000_0000_0000 + bits % 0x10_0000_0000_0000 == n * pow2(k),
        bits / 0x10_0000_0000_0000 + k == 1075,
    ensures
        whole(n) == bits,
{
    let e = (bits / 0x10_0000_0000_0000 - 1) as nat;
    assert(unsigned(bits) == bits);
    vstd::arithmetic::power2::lemma_pow2_adds(k, e);
    assert((n * pow2(k)) * pow2(e) == n * (pow2(k) * pow2(e))) by (nonlinear_arith);
    assert(is_whole(bits, n));
    one_whole(bits, n);
}

/// The bits of the percentages and ratios that limits are set at.
pub proof fn bits_of_limits()
    ensures
        whole(100) == 0x4059_0000_0000_0000,
        whole(90) == 0x4056_8000_0000_0000,
        whole(75) == 0x4052_c000_0000_0000,
        whole(2) == 0x4000_0000_0000_0000,
        whole(1) == 0x3ff0_0000_0000_0000,
{
    vstd::arithmetic::power2::lemma2_to64();
    vstd::arithmetic::power2::lemma2_to64_rest();
    whole_has_bits(100, 0x4059_0000_0000_0000, 46);
    whole_has_bits(90, 0x4056_8000_0000_0000, 46);
    whole_has_bits(75, 0x4052_c000_0000_0000, 46);
    whole_has_bits(2, 0x4000_0000_0000_0000, 51);
    whole_has_bits(1, 0x3ff0_0000_0000_0000, 52);
}

/// A whole number is cut to itself, and rounded to itself.
pub proof fn whole_numbers_stay(bits: u64, n: nat)
    requires
        is_whole(bits, n),
        n <= i64::MAX,
    ensures
        cut(bits) == Some(n as i64),
        near(bits) == n,
{
    vstd::arithmetic::power2::lemma_pow2_pos(1074);
    vstd::arithmetic::power2::lemma_pow2_pos(63);
    vstd::arithmetic::power2::lemma2_to64();
    vstd::arithmetic::power2::lemma2_to64_rest();
    let p = pow2(1074);
    let m = magnitude(unsigned(bits));
    assert(m / p == n) by (nonlinear_arith)
        requires
            m == n * p,
            p > 0,
    ;
    assert(n * p <= pow2(63) * p) by (nonlinear_arith)
        requires
            n <= pow2(63),
            p > 0,
    ;
    assert((2 * m + p) / (2 * p) == n) by (nonlinear_arith)
        requires
            m == n * p,
            p > 0,
    ;
    assert(scaled(bits) == m);
}

/// What is no number has no whole part.
pub proof fn there_is_no_whole_part_of_no_number(bits: u64)
    ensures
        is_nan(bits) ==> cut(bits) is None,
        bits == 0x7ff0_0000_0000_0000 || bits == 0xfff0_0000_0000_0000 ==> cut(bits) is None,
{
}

} // verus!
