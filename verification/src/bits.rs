//! Floating-point numbers carried as their bit patterns. Positive patterns order
//! as the numbers do, so every comparison with a fixed number is one of integers.
use vstd::arithmetic::power2::*;
use vstd::prelude::*;

verus! {

/// The bits of 1.0 in double precision.
pub const ONE: u64 = 0x3ff0_0000_0000_0000;

/// The bits of 30.0.
pub const THIRTY: u64 = 0x403e_0000_0000_0000;

/// The bits of 60.0.
pub const SIXTY: u64 = 0x404e_0000_0000_0000;

/// The bits of 86400.0.
pub const DAY: u64 = 0x40f5_1800_0000_0000;

/// The sign bit; alone, the bits of -0.0.
pub const SIGN: u64 = 0x8000_0000_0000_0000;

/// The bits of infinity; every smaller pattern without the sign bit is finite.
pub const INFINITY: u64 = 0x7ff0_0000_0000_0000;

/// The bits of the single-precision sign, and of infinity.
pub const SIGN32: u32 = 0x8000_0000;

pub const INFINITY32: u32 = 0x7f80_0000;

/// The bits of the absolute value.
pub open spec fn magnitude(bits: u64) -> int {
    if bits >= SIGN {
        bits - SIGN
    } else {
        bits as int
    }
}

pub open spec fn magnitude32(bits: u32) -> int {
    if bits >= SIGN32 {
        bits - SIGN32
    } else {
        bits as int
    }
}

pub open spec fn is_finite(bits: u64) -> bool {
    magnitude(bits) < INFINITY
}

pub open spec fn is_finite32(bits: u32) -> bool {
    magnitude32(bits) < INFINITY32
}

/// Between zero and the number that `top` encodes, both included.
pub open spec fn from_zero_to(bits: u64, top: u64) -> bool {
    bits <= top || bits == SIGN
}

/// Between the negative of the number that `depth` encodes and zero.
pub open spec fn down_to_minus(bits: u64, depth: u64) -> bool {
    bits == 0 || SIGN <= bits <= SIGN + depth
}

/// The bits of the negative.
pub open spec fn negative(bits: u64) -> u64 {
    if bits >= SIGN {
        (bits - SIGN) as u64
    } else {
        (bits + SIGN) as u64
    }
}

pub fn negate(bits: u64) -> (res: u64)
    ensures
        res == negative(bits),
{
    if bits >= SIGN {
        bits - SIGN
    } else {
        bits + SIGN
    }
}

pub fn abs(bits: u64) -> (res: u64)
    ensures
        res == magnitude(bits),
{
    if bits >= SIGN {
        bits - SIGN
    } else {
        bits
    }
}

pub fn abs32(bits: u32) -> (res: u32)
    ensures
        res == magnitude32(bits),
{
    if bits >= SIGN32 {
        bits - SIGN32
    } else {
        bits
    }
}

pub fn finite(bits: u64) -> (res: bool)
    ensures
        res == is_finite(bits),
{
    abs(bits) < INFINITY
}

pub fn finite32(bits: u32) -> (res: bool)
    ensures
        res == is_finite32(bits),
{
    abs32(bits) < INFINITY32
}

/// Whether a level in decibels lies between -60 and 0.
pub fn gain(bits: u64) -> (res: bool)
    ensures
        res == down_to_minus(bits, SIXTY),
{
    bits == 0 || (bits >= SIGN && bits - SIGN <= SIXTY)
}

/// Whether a number lies between 0 and 1.
pub fn fraction(bits: u64) -> (res: bool)
    ensures
        res == from_zero_to(bits, ONE),
{
    bits <= ONE || bits == SIGN
}

/// The absolute value of a finite double, in units of two to the power -1074, of
/// which every finite double is a multiple.
pub open spec fn double(bits: u64) -> int {
    let exponent = magnitude(bits) / 0x10_0000_0000_0000;
    let fraction = magnitude(bits) % 0x10_0000_0000_0000;
    if exponent == 0 {
        fraction
    } else {
        (0x10_0000_0000_0000 + fraction) * pow2((exponent - 1) as nat)
    }
}

/// The absolute value of a finite single, in units of two to the power -149.
pub open spec fn single(bits: u32) -> int {
    let exponent = magnitude32(bits) / 0x80_0000;
    let fraction = magnitude32(bits) % 0x80_0000;
    if exponent == 0 {
        fraction
    } else {
        (0x80_0000 + fraction) * pow2((exponent - 1) as nat)
    }
}

/// How often a positive integer is doubled until it has fifty-three binary digits.
pub open spec fn doublings(n: int) -> int
    decreases 0x20_0000_0000_0000 - n,
{
    if n <= 0 || n >= 0x10_0000_0000_0000 {
        0
    } else {
        1 + doublings(2 * n)
    }
}

/// The bits of the double that is `m` times two to the power `e`, in the units of
/// `double`.
pub open spec fn shifted_bits(m: int, e: int) -> int {
    if m == 0 {
        0
    } else {
        (e - doublings(m)) * 0x10_0000_0000_0000 + m * pow2(doublings(m) as nat)
    }
}

/// The bits of the double that equals a finite single.
pub open spec fn widened(bits: u32) -> u64 {
    let exponent = magnitude32(bits) / 0x80_0000;
    let fraction = magnitude32(bits) % 0x80_0000;
    let wide = if exponent == 0 {
        shifted_bits(fraction, 925)
    } else {
        shifted_bits(0x80_0000 + fraction, 924 + exponent)
    };
    (wide + if bits >= SIGN32 {
        SIGN as int
    } else {
        0
    }) as u64
}

/// The bits of the double that equals an integer.
pub open spec fn integer_bits(i: int) -> u64 {
    if i < 0 {
        (SIGN + shifted_bits(-i, 1074)) as u64
    } else {
        shifted_bits(i, 1074) as u64
    }
}

proof fn doubled(n: int)
    requires
        0 < n < 0x20_0000_0000_0000,
    ensures
        0 <= doublings(n) <= 52,
        0x10_0000_0000_0000 <= n * pow2(doublings(n) as nat) < 0x20_0000_0000_0000,
        n * pow2(doublings(n) as nat) >= pow2(doublings(n) as nat),
    decreases 0x20_0000_0000_0000 - n,
{
    lemma2_to64();
    lemma2_to64_rest();
    if n < 0x10_0000_0000_0000 {
        doubled(2 * n);
        let k = doublings(2 * n);
        lemma_pow2_unfold((k + 1) as nat);
        assert(n * (2 * pow2(k as nat)) == (2 * n) * pow2(k as nat)) by (nonlinear_arith);
        assert(n * pow2((k + 1) as nat) >= pow2((k + 1) as nat)) by (nonlinear_arith)
            requires
                n >= 1,
                pow2((k + 1) as nat) >= 0,
        ;
        if k == 52 {
            assert(pow2(53) == 0x20_0000_0000_0000);
        }
        assert(doublings(n) == k + 1);
        assert(n * pow2(doublings(n) as nat) == (2 * n) * pow2(k as nat));
    } else {
        assert(pow2(doublings(n) as nat) == 1);
        assert(n * pow2(doublings(n) as nat) == n) by (nonlinear_arith)
            requires
                pow2(doublings(n) as nat) == 1,
        ;
    }
}

/// Integers of thirty-two bits are finite as doubles.
pub proof fn integers_are_finite(i: int)
    requires
        i32::MIN <= i <= i32::MAX,
    ensures
        is_finite(integer_bits(i)),
{
    let m = if i < 0 {
        -i
    } else {
        i
    };
    if m > 0 {
        doubled(m);
        assert(0 <= (1074 - doublings(m)) * 0x10_0000_0000_0000 <= 1074 * 0x10_0000_0000_0000);
    }
}

/// The bits that `shifted_bits` gives are those of the number that it names.
pub proof fn shifting_keeps_the_value(m: int, e: int)
    requires
        0 <= m < 0x1_0000_0000,
        52 <= e <= 1200,
    ensures
        0 <= shifted_bits(m, e) < INFINITY,
        double(shifted_bits(m, e) as u64) == m * pow2(e as nat),
{
    if m > 0 {
        doubled(m);
        let k = doublings(m);
        let n = m * pow2(k as nat);
        let bits = shifted_bits(m, e);
        assert(bits / 0x10_0000_0000_0000 == e - k + 1);
        assert(bits % 0x10_0000_0000_0000 == n - 0x10_0000_0000_0000);
        lemma_pow2_adds(k as nat, (e - k) as nat);
        assert(n * pow2((e - k) as nat) == m * pow2(e as nat)) by (nonlinear_arith)
            requires
                n == m * pow2(k as nat),
                pow2(k as nat) * pow2((e - k) as nat) == pow2(e as nat),
        ;
    }
}

/// A finite single is as large as the double that it is widened to, and has its
/// sign.
pub proof fn widening_keeps_the_value(bits: u32)
    requires
        is_finite32(bits),
    ensures
        is_finite(widened(bits)),
        double(widened(bits)) == single(bits) * pow2(925),
        widened(bits) >= SIGN <==> bits >= SIGN32,
{
    let exponent = magnitude32(bits) / 0x80_0000;
    let fraction = magnitude32(bits) % 0x80_0000;
    if exponent == 0 {
        shifting_keeps_the_value(fraction, 925);
    } else {
        shifting_keeps_the_value(0x80_0000 + fraction, 924 + exponent);
        lemma_pow2_adds((exponent - 1) as nat, 925);
        assert((0x80_0000 + fraction) * pow2((exponent - 1) as nat) * pow2(925) == (0x80_0000
            + fraction) * (pow2((exponent - 1) as nat) * pow2(925))) by (nonlinear_arith);
    }
}

fn shifted(m: u32, e: u32) -> (bits: u64)
    requires
        52 <= e <= 1200,
    ensures
        bits < INFINITY,
        bits == shifted_bits(m as int, e as int),
        double(bits) == m * pow2(e as nat),
{
    proof {
        shifting_keeps_the_value(m as int, e as int);
    }
    if m == 0 {
        return 0;
    }
    let mut n: u64 = m as u64;
    let mut k: u32 = 0;
    proof {
        lemma2_to64();
        doubled(m as int);
    }
    while n < 0x10_0000_0000_0000
        invariant
            0 < n < 0x20_0000_0000_0000,
            n == m * pow2(k as nat),
            0 <= doublings(n as int),
            doublings(m as int) == k + doublings(n as int),
            doublings(m as int) <= 52,
        decreases 0x20_0000_0000_0000 - n,
    {
        proof {
            lemma_pow2_unfold((k + 1) as nat);
            assert(m * (2 * pow2(k as nat)) == 2 * (m * pow2(k as nat))) by (nonlinear_arith);
            doubled(2 * n as int);
        }
        n = n * 2;
        k = k + 1;
    }
    (e - k) as u64 * 0x10_0000_0000_0000 + n
}

/// The double that equals a finite single. The sign stays.
pub fn widen(bits: u32) -> (res: u64)
    requires
        is_finite32(bits),
    ensures
        res == widened(bits),
        is_finite(res),
        double(res) == single(bits) * pow2(925),
        res >= SIGN <==> bits >= SIGN32,
{
    proof {
        widening_keeps_the_value(bits);
    }
    let a = abs32(bits);
    let exponent: u32 = a / 0x80_0000;
    let fraction: u32 = a % 0x80_0000;
    let wide: u64 = if exponent == 0 {
        shifted(fraction, 925)
    } else {
        shifted(0x80_0000 + fraction, 924 + exponent)
    };
    if bits >= SIGN32 {
        SIGN + wide
    } else {
        wide
    }
}

/// The double that equals an integer.
pub fn from_integer(i: i32) -> (res: u64)
    ensures
        res == integer_bits(i as int),
        is_finite(res),
        double(res) == (if i < 0 {
            -i
        } else {
            i as int
        }) * pow2(1074),
        res >= SIGN <==> i < 0,
{
    if i < 0 {
        let m: u32 = (-(i as i64)) as u32;
        SIGN + shifted(m, 1074)
    } else {
        shifted(i as u32, 1074)
    }
}

/// What bit patterns of doubles are: the highest bit is the sign, the exponent of infinity
/// and of what is no number is all ones, and the negative has the other sign alone.
pub proof fn patterns_are_doubles(bits: u64)
    ensures
        magnitude(bits) == bits % 0x8000_0000_0000_0000,
        is_finite(bits) <==> bits / 0x10_0000_0000_0000 % 2048 != 2047,
        negative(bits) != bits,
        magnitude(negative(bits)) == magnitude(bits),
        negative(negative(bits)) == bits,
{
}

/// The same of singles.
pub proof fn patterns_are_singles(bits: u32)
    ensures
        magnitude32(bits) == bits % 0x8000_0000,
        is_finite32(bits) <==> bits / 0x80_0000 % 256 != 255,
{
}

/// A number lies between zero and another exactly where it is no larger and not negative;
/// zero has two patterns. The same holds on the other side of zero.
pub proof fn ranges_begin_at_zero(bits: u64, top: u64)
    requires
        top < 0x7ff0_0000_0000_0000,
    ensures
        from_zero_to(bits, top) <==> magnitude(bits) == 0 || (bits < 0x8000_0000_0000_0000
            && magnitude(bits) <= top),
        down_to_minus(bits, top) <==> magnitude(bits) == 0 || (bits >= 0x8000_0000_0000_0000
            && magnitude(bits) <= top),
        from_zero_to(bits, top) && bits != 0 ==> down_to_minus(negative(bits), top),
{
}

/// Larger patterns of one sign are larger numbers.
pub proof fn patterns_order_as_numbers(a: u64, b: u64)
    requires
        magnitude(a) < magnitude(b),
        magnitude(b) < 0x7ff0_0000_0000_0000,
    ensures
        double(a) < double(b),
{
    let unit = 0x10_0000_0000_0000int;
    let (x, y) = (magnitude(a), magnitude(b));
    let (e, f) = (x / unit, y / unit);
    let (m, n) = (x % unit, y % unit);
    assert(pow2(0) == 1) by {
        lemma2_to64();
    }
    if e == f {
        if e > 0 {
            lemma_pow2_pos((e - 1) as nat);
            let p = pow2((e - 1) as nat);
            assert((unit + m) * p < (unit + n) * p) by (nonlinear_arith)
                requires
                    m < n,
                    p > 0,
            ;
        }
    } else {
        assert(f >= 1);
        lemma_pow2_pos((f - 1) as nat);
        let q = pow2((f - 1) as nat) as int;
        assert((unit + n) * q >= unit * q) by (nonlinear_arith)
            requires
                n >= 0,
                q > 0,
        ;
        if e == 0 {
            assert(unit * q >= unit) by (nonlinear_arith)
                requires
                    q >= 1,
                    unit > 0,
            ;
        } else {
            let p = pow2((e - 1) as nat) as int;
            lemma_pow2_pos((e - 1) as nat);
            lemma_pow2_unfold(e as nat);
            if e < f - 1 {
                lemma_pow2_strictly_increases(e as nat, (f - 1) as nat);
            }
            assert(2 * p <= q);
            assert((unit + m) * p < unit * (2 * p)) by (nonlinear_arith)
                requires
                    m < unit,
                    p > 0,
            ;
            assert(unit * (2 * p) <= unit * q) by (nonlinear_arith)
                requires
                    2 * p <= q,
                    unit > 0,
            ;
        }
    }
}

/// The double of an integer is as large as the integer and has its sign.
pub proof fn integers_keep_their_value(i: int)
    requires
        i32::MIN <= i <= i32::MAX,
    ensures
        double(integer_bits(i)) == (if i < 0 {
            -i
        } else {
            i
        }) * pow2(1074),
        i < 0 <==> integer_bits(i) >= 0x8000_0000_0000_0000,
{
    let m = if i < 0 {
        -i
    } else {
        i
    };
    shifting_keeps_the_value(m, 1074);
}

} // verus!
