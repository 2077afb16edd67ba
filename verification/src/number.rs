//! Numbers are IEEE-754 binary64 values, carried as their 64-bit patterns:
//! one sign bit, eleven exponent bits, fifty-two fraction bits. What can be
//! read off the pattern is done here: order, equality, negation, the whole
//! part of a number, and the number nearest to a natural number.

use vstd::arithmetic::div_mod::*;
use vstd::arithmetic::mul::*;
use vstd::arithmetic::power2::*;
use vstd::bits::*;
use vstd::prelude::*;

verus! {

/// The sign bit.
pub const SIGN: u64 = 0x8000_0000_0000_0000;

/// The pattern of positive infinity: every exponent bit, no fraction bit.
pub const INFINITY: u64 = 0x7ff0_0000_0000_0000;

/// The lowest fraction-less pattern of the exponent field: two to the 52nd.
pub const HIDDEN_BIT: u64 = 0x0010_0000_0000_0000;

/// The pattern without its sign bit.
pub open spec fn magnitude(bits: u64) -> u64 {
    if bits >= SIGN {
        (bits - SIGN) as u64
    } else {
        bits
    }
}

/// Not a number: every exponent bit and some fraction bit.
pub open spec fn is_nan(bits: u64) -> bool {
    magnitude(bits) > INFINITY
}

/// Where a number stands among the numbers: patterns of numbers are ordered
/// as the numbers are, once the negative ones are mirrored. Both zeros stand
/// at 0.
pub open spec fn rank(bits: u64) -> int {
    if bits >= SIGN {
        -(magnitude(bits) as int)
    } else {
        magnitude(bits) as int
    }
}

/// IEEE equality: no NaN equals anything, and the two zeros are equal.
pub open spec fn same(a: u64, b: u64) -> bool {
    !is_nan(a) && !is_nan(b) && rank(a) == rank(b)
}

/// IEEE order: a NaN is neither below nor above anything.
pub open spec fn below(a: u64, b: u64) -> bool {
    !is_nan(a) && !is_nan(b) && rank(a) < rank(b)
}

/// The number with the opposite sign; of a NaN, the NaN with the other sign bit.
pub open spec fn opposite(bits: u64) -> u64 {
    if bits >= SIGN {
        (bits - SIGN) as u64
    } else {
        (bits + SIGN) as u64
    }
}

/// The number rounded toward zero, as a natural number: 0 for a NaN and for
/// anything below 1.
pub open spec fn whole_part(bits: u64) -> nat {
    let exponent = (magnitude(bits) / HIDDEN_BIT) as nat;
    let significand = (HIDDEN_BIT + magnitude(bits) % HIDDEN_BIT) as nat;
    if bits >= SIGN || is_nan(bits) || exponent < 1023 {
        0
    } else if exponent >= 1075 {
        significand * pow2((exponent - 1075) as nat)
    } else {
        significand / pow2((1075 - exponent) as nat)
    }
}

/// The whole part as far as a `usize` holds it.
pub open spec fn count(bits: u64) -> usize {
    if whole_part(bits) > usize::MAX {
        usize::MAX
    } else {
        whole_part(bits) as usize
    }
}

/// Whether the pattern is a NaN.
pub fn nan(bits: u64) -> (r: bool)
    ensures
        r == is_nan(bits),
{
    if bits >= SIGN {
        bits - SIGN > INFINITY
    } else {
        bits > INFINITY
    }
}

fn rank_of(bits: u64) -> (r: i64)
    ensures
        r == rank(bits),
{
    if bits >= SIGN {
        -((bits - SIGN) as i64)
    } else {
        bits as i64
    }
}

/// Whether two numbers are equal, as IEEE says.
pub fn equal(a: u64, b: u64) -> (r: bool)
    ensures
        r == same(a, b),
{
    !nan(a) && !nan(b) && rank_of(a) == rank_of(b)
}

/// Whether `a` is below `b`.
pub fn less(a: u64, b: u64) -> (r: bool)
    ensures
        r == below(a, b),
{
    !nan(a) && !nan(b) && rank_of(a) < rank_of(b)
}

/// Whether `a` is below `b` or equal to it.
pub fn less_or_equal(a: u64, b: u64) -> (r: bool)
    ensures
        r == (below(a, b) || same(a, b)),
{
    !nan(a) && !nan(b) && rank_of(a) <= rank_of(b)
}

/// The number with the opposite sign.
pub fn negate(bits: u64) -> (r: u64)
    ensures
        r == opposite(bits),
{
    if bits >= SIGN {
        bits - SIGN
    } else {
        bits + SIGN
    }
}

/// The number rounded toward zero. A NaN and a negative number give 0, and
/// what a `usize` cannot hold gives the largest `usize`.
pub fn truncate(bits: u64) -> (n: usize)
    ensures
        n == count(bits),
{
    if bits >= SIGN || bits > INFINITY {
        return 0;
    }
    let exponent: u64 = bits >> 52;
    let fraction: u64 = bits & 0x000f_ffff_ffff_ffff;
    proof {
        lemma2_to64();
        lemma2_to64_rest();
        lemma_u64_shr_is_div(bits, 52);
        assert(bits & 0x000f_ffff_ffff_ffff == bits % 0x0010_0000_0000_0000) by (bit_vector);
    }
    if exponent < 1023 {
        return 0;
    }
    let significand: u64 = fraction + HIDDEN_BIT;
    if exponent >= 1075 {
        let shift: u64 = exponent - 1075;
        if shift >= 12 {
            proof {
                if shift > 12 {
                    lemma_pow2_strictly_increases(12, shift as nat);
                }
                assert(significand * pow2(shift as nat) >= 0x0010_0000_0000_0000 * 0x1000)
                    by (nonlinear_arith)
                    requires
                        significand >= 0x0010_0000_0000_0000,
                        pow2(shift as nat) >= 0x1000,
                ;
            }
            return usize::MAX;
        }
        proof {
            if shift < 11 {
                lemma_pow2_strictly_increases(shift as nat, 11);
            }
            assert(significand * pow2(shift as nat) <= 0x001f_ffff_ffff_ffff * 0x800)
                by (nonlinear_arith)
                requires
                    significand <= 0x001f_ffff_ffff_ffff,
                    pow2(shift as nat) <= 0x800,
            ;
            lemma_u64_shl_is_mul(significand, shift);
        }
        let value: u64 = significand << shift;
        if value > usize::MAX as u64 {
            usize::MAX
        } else {
            value as usize
        }
    } else {
        let shift: u64 = 1075 - exponent;
        proof {
            lemma_u64_shr_is_div(significand, shift);
        }
        let value: u64 = significand >> shift;
        if value > usize::MAX as u64 {
            usize::MAX
        } else {
            value as usize
        }
    }
}

/// The number is an integer.
pub open spec fn is_whole(bits: u64) -> bool {
    let exponent = (magnitude(bits) / HIDDEN_BIT) as nat;
    let significand = (HIDDEN_BIT + magnitude(bits) % HIDDEN_BIT) as nat;
    magnitude(bits) < INFINITY && (magnitude(bits) == 0 || exponent >= 1075 || (exponent >= 1023
        && significand % pow2((1075 - exponent) as nat) == 0))
}

/// The power of two that `n` reaches: the exponent of the largest power of
/// two that is not above `n`.
pub open spec fn binade(n: nat) -> nat
    decreases n,
{
    if n < 2 {
        0
    } else {
        1 + binade(n / 2)
    }
}

/// How far the numbers around `n` lie apart: 1 up to two to the 53rd, then
/// twice as far with every power of two that `n` reaches.
pub open spec fn spacing(n: nat) -> nat {
    if binade(n) <= 52 {
        1
    } else {
        pow2((binade(n) - 52) as nat)
    }
}

/// `n` in units of `unit`, rounded to the nearest unit, and to the even
/// one of two that are equally near.
pub open spec fn rounded(n: nat, unit: nat) -> nat {
    let units = n / unit;
    let rest = n % unit;
    if 2 * rest > unit || (2 * rest == unit && units % 2 == 1) {
        units + 1
    } else {
        units
    }
}

/// The number nearest to the natural number `n`: the exponent is the
/// power of two that `n` reaches, the significand is `n` itself up to 53
/// bits, and beyond that `n` rounded to the spacing of the numbers around it.
/// What lies beyond the largest number is infinity.
pub open spec fn nearest(n: nat) -> u64 {
    if n == 0 {
        0
    } else if binade(n) > 1023 {
        INFINITY
    } else {
        let significand = if binade(n) <= 52 {
            n * pow2((52 - binade(n)) as nat)
        } else {
            rounded(n, spacing(n))
        };
        ((1023 + binade(n)) * HIDDEN_BIT + significand - HIDDEN_BIT) as u64
    }
}

/// The number nearest to `head * 2^shift + rest`, for any `rest` below
/// `2^shift` of which only `more` is known: whether it is above zero. The
/// head holds more than 64 bits where anything was shifted out, so the
/// rounding is decided by the head and by `more`.
pub open spec fn nearest_scaled(head: nat, shift: nat, more: bool) -> u64 {
    let p = binade(head);
    if head == 0 {
        0
    } else if p + shift > 1023 {
        INFINITY
    } else {
        let significand = if p <= 52 {
            head * pow2((52 - p) as nat)
        } else {
            let unit = pow2((p - 52) as nat);
            let units = head / unit;
            let rest = head % unit;
            if 2 * rest > unit || (2 * rest == unit && (more || units % 2 == 1)) {
                units + 1
            } else {
                units
            }
        };
        ((1023 + p + shift) * HIDDEN_BIT + significand - HIDDEN_BIT) as u64
    }
}

proof fn lemma_pow2_52()
    ensures
        pow2(52) == HIDDEN_BIT,
        pow2(53) == 2 * HIDDEN_BIT,
        pow2(63) == SIGN,
        pow2(11) == 0x800,
{
    lemma2_to64();
    lemma2_to64_rest();
}

/// `n` lies between the power of two that it reaches and the next.
pub proof fn lemma_binade(n: nat)
    requires
        n > 0,
    ensures
        pow2(binade(n)) <= n < 2 * pow2(binade(n)),
    decreases n,
{
    lemma2_to64();
    if n >= 2 {
        lemma_binade(n / 2);
        lemma_pow2_unfold(binade(n));
    }
}

/// The power of two that `n` reaches is the only one that `n` lies
/// between it and the next.
pub proof fn lemma_binade_is(n: nat, p: nat)
    requires
        pow2(p) <= n < 2 * pow2(p),
    ensures
        binade(n) == p,
    decreases p,
{
    lemma2_to64();
    if p > 0 {
        lemma_pow2_unfold(p);
        lemma_pow2_pos((p - 1) as nat);
        lemma_binade_is(n / 2, (p - 1) as nat);
    }
}

/// Dividing a power of two by a smaller one gives the power of two
/// between them.
proof fn lemma_pow2_div(a: nat, b: nat)
    requires
        b <= a,
    ensures
        pow2(a) / pow2(b) == pow2((a - b) as nat),
        pow2(a) == pow2(b) * pow2((a - b) as nat),
{
    lemma_pow2_adds(b, (a - b) as nat);
    lemma_pow2_pos(b);
    lemma_div_multiples_vanish(pow2((a - b) as nat) as int, pow2(b) as int);
}

/// A number with some low bits shifted out reaches the power of two that
/// its head reaches, and as many more as were shifted out.
pub proof fn lemma_binade_scaled(head: nat, shift: nat, rest: nat)
    requires
        head > 0,
        rest < pow2(shift),
    ensures
        binade(head * pow2(shift) + rest) == binade(head) + shift,
{
    let p = binade(head);
    let x = pow2(shift);
    lemma_binade(head);
    lemma_pow2_adds(p, shift);
    lemma_pow2_pos(shift);
    let n = head * x + rest;
    assert(pow2(p) * x <= n < 2 * (pow2(p) * x)) by (nonlinear_arith)
        requires
            pow2(p) <= head < 2 * pow2(p),
            rest < x,
            n == head * x + rest,
    ;
    lemma_binade_is(n, p + shift);
}

/// `nearest_scaled` is `nearest`, told by the head of the number.
pub proof fn lemma_nearest_scaled(head: nat, shift: nat, rest: nat)
    requires
        rest < pow2(shift),
        shift > 0 ==> binade(head) > 52,
        shift == 0 ==> rest == 0,
    ensures
        nearest(head * pow2(shift) + rest) == nearest_scaled(head, shift, rest != 0),
{
    let x = pow2(shift);
    lemma_pow2_pos(shift);
    lemma2_to64();
    let n = head * x + rest;
    if head == 0 {
        assert(n == 0) by (nonlinear_arith)
            requires
                head == 0,
                n == head * x + rest,
                shift > 0 ==> false,
                shift == 0 ==> rest == 0,
        ;
    } else {
        let p = binade(head);
        lemma_binade_scaled(head, shift, rest);
        assert(n > 0) by (nonlinear_arith)
            requires
                head > 0,
                x > 0,
                n == head * x + rest,
        ;
        if p + shift <= 1023 {
            if p <= 52 {
                assert(shift == 0);
                assert(n == head) by (nonlinear_arith)
                    requires
                        x == 1,
                        rest == 0,
                        n == head * x + rest,
                ;
            } else {
                let u = pow2((p - 52) as nat);
                lemma_pow2_pos((p - 52) as nat);
                lemma_pow2_adds((p - 52) as nat, shift);
                lemma_pow2_unfold((p - 52) as nat);
                let unit = u * x;
                assert(spacing(n) == unit);
                let units = head / u;
                let ra = head % u;
                lemma_fundamental_div_mod(head as int, u as int);
                let r = ra * x + rest;
                assert(n == units * unit + r && 0 <= r < unit) by (nonlinear_arith)
                    requires
                        head == u * units + ra,
                        0 <= ra < u,
                        rest < x,
                        n == head * x + rest,
                        unit == u * x,
                        r == ra * x + rest,
                ;
                assert(unit > 0) by (nonlinear_arith)
                    requires
                        unit == u * x,
                        u > 0,
                        x > 0,
                ;
                lemma_fundamental_div_mod_converse_div(n as int, unit as int, units as int, r as int);
                lemma_fundamental_div_mod_converse_mod(n as int, unit as int, units as int, r as int);
                assert(n / unit == units);
                assert(n % unit == r);
                let half = pow2((p - 53) as nat);
                assert(u == 2 * half);
                assert((2 * r > unit) == (ra > half || (ra == half && rest > 0))) by (nonlinear_arith)
                    requires
                        r == ra * x + rest,
                        unit == u * x,
                        u == 2 * half,
                        0 <= rest < x,
                ;
                assert((2 * r == unit) == (ra == half && rest == 0)) by (nonlinear_arith)
                    requires
                        r == ra * x + rest,
                        unit == u * x,
                        u == 2 * half,
                        0 <= rest < x,
                ;
            }
        }
    }
}

/// The number nearest to `head * 2^shift + rest`, for any `rest` below
/// `2^shift` of which only `more` is known: whether it is above zero.
pub(crate) fn round_scaled(head: u128, shift: u128, more: bool) -> (bits: u64)
    requires
        head < 0x10_0000_0000_0000_0000,
    ensures
        bits == nearest_scaled(head as nat, shift as nat, more),
{
    if head == 0 {
        return 0;
    }
    proof {
        lemma_pow2_52();
        lemma2_to64();
        lemma2_to64_rest();
    }
    let mut p: u64 = 0;
    let mut t: u128 = 1;
    while head / 2 >= t
        invariant
            t == pow2(p as nat),
            0 < t <= head,
            head < 0x10_0000_0000_0000_0000,
            p <= 67,
        decreases head - t,
    {
        proof {
            lemma_pow2_unfold((p + 1) as nat);
            if p >= 67 {
                lemma2_to64();
                lemma_pow2_adds(64, 3);
                if p > 67 {
                    lemma_pow2_strictly_increases(67, p as nat);
                }
            }
        }
        t = t * 2;
        p = p + 1;
    }
    proof {
        lemma_binade_is(head as nat, p as nat);
        lemma_pow2_52();
    }
    if shift > 1023 || p as u128 + shift > 1023 {
        return INFINITY;
    }
    let h: u128 = 0x0010_0000_0000_0000;
    let significand: u128 = if p <= 52 {
        let scale = h / t;
        proof {
            lemma_pow2_div(52, p as nat);
            lemma_pow2_pos((52 - p) as nat);
            assert(head * scale < 2 * h && head * scale >= h) by (nonlinear_arith)
                requires
                    t <= head < 2 * t,
                    t * scale == h,
                    scale > 0,
            ;
        }
        head * scale
    } else {
        let unit = t / h;
        proof {
            lemma_pow2_div(p as nat, 52);
            lemma_pow2_pos((p - 52) as nat);
            assert(h <= head / unit < 2 * h) by (nonlinear_arith)
                requires
                    t <= head < 2 * t,
                    t == h * unit,
                    unit > 0,
            ;
        }
        let units = head / unit;
        let rest = head % unit;
        if rest > unit - rest || (rest == unit - rest && (more || units % 2 == 1)) {
            units + 1
        } else {
            units
        }
    };
    let exponent: u128 = 1023 + p as u128 + shift;
    assert(exponent * h + (significand - h) <= 0x7ff0_0000_0000_0000) by (nonlinear_arith)
        requires
            exponent <= 2046,
            h <= significand <= 2 * h,
            h == 0x0010_0000_0000_0000,
    ;
    (exponent * h + (significand - h)) as u64
}

/// How far two natural numbers lie apart.
pub open spec fn distance(a: nat, b: nat) -> nat {
    if a >= b {
        (a - b) as nat
    } else {
        (b - a) as nat
    }
}

/// The number that `nearest` gives for `n`, where it is not infinity, is
/// the number nearest to `n`: it is an integer, a multiple of the spacing of
/// the numbers around `n`, no further from `n` than half that spacing, and
/// the even multiple where two are equally near. Up to two to the 53rd it
/// is `n` itself.
pub proof fn lemma_nearest(n: nat)
    requires
        0 < n,
        nearest(n) < INFINITY,
    ensures
        is_whole(nearest(n)),
        whole_part(nearest(n)) % spacing(n) == 0,
        2 * distance(whole_part(nearest(n)), n) <= spacing(n),
        2 * distance(whole_part(nearest(n)), n) == spacing(n) ==> (whole_part(nearest(n))
            / spacing(n)) % 2 == 0,
        binade(n) <= 52 ==> whole_part(nearest(n)) == n,
{
    lemma_pow2_52();
    lemma2_to64();
    let p = binade(n);
    lemma_binade(n);
    assert(p <= 1023);
    let h = HIDDEN_BIT as nat;
    let r = nearest(n);
    if p <= 52 {
        let scale = pow2((52 - p) as nat);
        lemma_pow2_div(52, p);
        lemma_pow2_pos((52 - p) as nat);
        let sig = n * scale;
        assert(h <= sig < 2 * h) by (nonlinear_arith)
            requires
                pow2(p) <= n < 2 * pow2(p),
                pow2(p) * scale == h,
                scale > 0,
                sig == n * scale,
        ;
        let e = (1023 + p) as nat;
        assert(r == e * h + (sig - h));
        lemma_fundamental_div_mod_converse_div(r as int, h as int, e as int, (sig - h) as int);
        lemma_fundamental_div_mod_converse_mod(r as int, h as int, e as int, (sig - h) as int);
        assert(r / HIDDEN_BIT == e);
        assert(r % HIDDEN_BIT == sig - h);
        assert(r < SIGN) by (nonlinear_arith)
            requires
                r == e * h + (sig - h),
                e <= 1075,
                sig < 2 * h,
                h == 0x0010_0000_0000_0000,
        ;
        assert(magnitude(r) == r);
        lemma_div_multiples_vanish(n as int, scale as int);
        lemma_mod_multiples_basic(n as int, scale as int);
        assert(sig / scale == n) by {
            lemma_mul_is_commutative(n as int, scale as int);
        }
        assert(sig % scale == 0);
        if p == 52 {
            assert(scale == 1);
            assert(whole_part(r) == sig * pow2(0));
        } else {
            assert((1075 - e) as nat == (52 - p) as nat);
            assert(whole_part(r) == sig / scale);
        }
        assert(whole_part(r) == n);
        assert(is_whole(r));
    } else {
        let d = pow2((p - 52) as nat);
        lemma_pow2_div(p, 52);
        lemma_pow2_pos((p - 52) as nat);
        let q = n / d;
        let rest = n % d;
        lemma_fundamental_div_mod(n as int, d as int);
        assert(n == d * q + rest);
        assert(h <= q < 2 * h) by (nonlinear_arith)
            requires
                pow2(p) <= n < 2 * pow2(p),
                pow2(p) == h * d,
                d > 0,
                q == n / d,
        ;
        let m = rounded(n, d);
        assert(spacing(n) == d);
        let e = (1023 + p) as nat;
        assert(r == e * h + (m - h));
        assert(r < SIGN) by (nonlinear_arith)
            requires
                r == e * h + (m - h),
                e <= 2046,
                h <= m <= 2 * h,
                h == 0x0010_0000_0000_0000,
        ;
        assert(magnitude(r) == r);
        let w = m * d;
        if m < 2 * h {
            lemma_fundamental_div_mod_converse_div(r as int, h as int, e as int, (m - h) as int);
            lemma_fundamental_div_mod_converse_mod(r as int, h as int, e as int, (m - h) as int);
            assert(r / HIDDEN_BIT == e);
            assert(r % HIDDEN_BIT == m - h);
            assert((e - 1075) as nat == (p - 52) as nat);
            assert(whole_part(r) == w);
        } else {
            assert(r == (e + 1) * h + 0) by (nonlinear_arith)
                requires
                    r == e * h + (m - h),
                    m == 2 * h,
            ;
            lemma_fundamental_div_mod_converse_div(r as int, h as int, (e + 1) as int, 0);
            lemma_fundamental_div_mod_converse_mod(r as int, h as int, (e + 1) as int, 0);
            assert(r / HIDDEN_BIT == e + 1);
            assert(r % HIDDEN_BIT == 0);
            lemma_pow2_unfold((p - 51) as nat);
            assert((e + 1 - 1075) as nat == (p - 51) as nat);
            assert(whole_part(r) == h * pow2((p - 51) as nat));
            assert(h * pow2((p - 51) as nat) == w) by (nonlinear_arith)
                requires
                    pow2((p - 51) as nat) == 2 * d,
                    m == 2 * h,
                    w == m * d,
            ;
        }
        assert(is_whole(r));
        lemma_mod_multiples_basic(m as int, d as int);
        lemma_div_multiples_vanish(m as int, d as int);
        assert(w / d == m) by {
            lemma_mul_is_commutative(m as int, d as int);
        }
        assert(w % d == 0);
        if m == q {
            assert(w + rest == n) by (nonlinear_arith)
                requires
                    n == d * q + rest,
                    w == m * d,
                    m == q,
            ;
        } else {
            assert(w + rest == n + d) by (nonlinear_arith)
                requires
                    n == d * q + rest,
                    w == m * d,
                    m == q + 1,
            ;
        }
    }
}

} // verus!
