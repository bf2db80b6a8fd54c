//! Integer arithmetic of the CdM-16 runtime: multiplication, division and
//! remainder of 16- and 32-bit integers, and addition, subtraction and
//! negation of 64-bit integers held as four 16-bit words. Each routine does
//! what the processor routine does, step by step, on plain integers.
use vstd::prelude::*;
use vstd::arithmetic::div_mod::lemma_fundamental_div_mod_converse;

verus! {

/// `2` to the power `k`.
pub open spec fn two_to(k: nat) -> nat
    decreases k,
{
    if k == 0 {
        1
    } else {
        2 * two_to((k - 1) as nat)
    }
}

/// Splitting off the top bit of `rest * t + q`, where `rest` has one bit more
/// than `h` can count and `q < t`.
proof fn lemma_top_bit(rest: int, h: int, t: int, q: int)
    requires
        h >= 1,
        t >= 1,
        0 <= rest < 2 * h,
        0 <= q < t,
    ensures
        (rest * t + q) / (h * t) == rest / h,
        (rest * t + q) % (h * t) == (rest % h) * t + q,
        0 <= rest / h <= 1,
        0 <= rest % h < h,
{
    let top = rest / h;
    let rr = rest % h;
    vstd::arithmetic::div_mod::lemma_fundamental_div_mod(rest, h);
    vstd::arithmetic::div_mod::lemma_mod_bound(rest, h);
    assert(0 <= top <= 1) by (nonlinear_arith)
        requires
            rest == h * top + rr,
            0 <= rr < h,
            0 <= rest < 2 * h,
            h >= 1,
    ;
    assert(rest * t + q == top * (h * t) + (rr * t + q)) by (nonlinear_arith)
        requires
            rest == h * top + rr,
    ;
    assert(0 <= rr * t + q < h * t) by (nonlinear_arith)
        requires
            0 <= rr < h,
            0 <= q < t,
            h >= 1,
            t >= 1,
    ;
    assert(h * t != 0) by (nonlinear_arith)
        requires
            h >= 1,
            t >= 1,
    ;
    lemma_fundamental_div_mod_converse(rest * t + q, h * t, top, rr * t + q);
}

/// One step of long division keeps `a == (q * b + r) * m + rest`.
proof fn lemma_division_step(a: int, b: int, m: int, h: int, rest: int, q: int, r: int, s: int)
    requires
        m == 2 * h,
        h >= 1,
        a == (q * b + r) * m + rest,
        0 <= rest < m,
        s == 0 || s == 1,
    ensures
        a == ((2 * q + s) * b + (2 * r + rest / h - s * b)) * h + rest % h,
{
    vstd::arithmetic::div_mod::lemma_fundamental_div_mod(rest, h);
    assert(a == ((2 * q + s) * b + (2 * r + rest / h - s * b)) * h + rest % h)
        by (nonlinear_arith)
        requires
            m == 2 * h,
            a == (q * b + r) * m + rest,
            rest == h * (rest / h) + rest % h,
    ;
}

/// The partial remainder stays below the bits consumed so far.
proof fn lemma_remainder_small(a: int, b: int, m: int, t: int, q: int, r: int, rest: int, n: int)
    requires
        m * t == n,
        m >= 1,
        t >= 1,
        0 <= a < n,
        0 <= q,
        b >= 1,
        0 <= r,
        0 <= rest,
        a == (q * b + r) * m + rest,
    ensures
        r < t,
{
    assert(r < t) by (nonlinear_arith)
        requires
            m * t == n,
            m >= 1,
            a < n,
            0 <= q,
            b >= 1,
            0 <= r,
            0 <= rest,
            a == (q * b + r) * m + rest,
    ;
}

/// Unsigned 16-bit quotient and remainder by restoring long division: the
/// dividend is shifted out of `r0` one bit at a time into the partial
/// remainder `r2`, while the quotient bits are shifted into `r0`.
pub fn udiv_mod_16_impl(a: u16, b: u16) -> (r: (u16, u16))
    requires
        b != 0,
    ensures
        r.0 == a / b,
        r.1 == a % b,
{
    let mut r0: u16 = a;
    let mut r2: u16 = 0;
    let mut r3: u16 = 16;
    let ghost mut m: int = 65536;
    let ghost mut t: int = 1;
    let ghost mut rest: int = a as int;
    let ghost mut q: int = 0;
    assert(two_to(16) == 65536) by {
        reveal_with_fuel(two_to, 17);
    }
    while r3 > 0
        invariant
            r3 <= 16,
            m == two_to(r3 as nat),
            m * t == 65536,
            t >= 1,
            b != 0,
            0 <= rest < m,
            0 <= q < t,
            r0 == rest * t + q,
            a == (q * b + r2) * m + rest,
            r2 < b,
        decreases r3,
    {
        let ghost h: int = two_to((r3 - 1) as nat) as int;
        let ghost old_r2: int = r2 as int;
        assert(m == 2 * h);
        assert(h >= 1) by {
            lemma_two_to_positive((r3 - 1) as nat);
        }
        assert(h * t == 32768) by (nonlinear_arith)
            requires
                m * t == 65536,
                m == 2 * h,
        ;
        proof {
            lemma_top_bit(rest, h, t, q);
            lemma_remainder_small(a as int, b as int, m, t, q, r2 as int, rest, 65536);
            assert(t <= 32768) by (nonlinear_arith)
                requires
                    h * t == 32768,
                    h >= 1,
            ;
        }
        // shl r0; rcl r2
        let carry: u16 = r0 >> 15;
        let low: u16 = r0 << 1;
        assert(carry == r0 / 32768 && low == (r0 % 32768) * 2) by (bit_vector)
            requires
                carry == r0 >> 15,
                low == r0 << 1,
        ;
        let shifted: u16 = (r2 << 1) | carry;
        assert(shifted == r2 * 2 + carry) by (bit_vector)
            requires
                shifted == (r2 << 1) | carry,
                r2 < 32768,
                carry <= 1,
        ;
        r0 = low;
        r2 = shifted;
        // cmp r2, r1; blo 2f; sub r2, r1, r2; inc r0
        let s: u16 = if r2 >= b {
            r2 = r2 - b;
            r0 = r0 + 1;
            1
        } else {
            0
        };
        proof {
            lemma_division_step(a as int, b as int, m, h, rest, q, old_r2, s as int);
            assert(r0 == (rest % h) * (2 * t) + (2 * q + s)) by (nonlinear_arith)
                requires
                    r0 == ((rest % h) * t + q) * 2 + s,
            ;
            assert(h * (2 * t) == 65536) by (nonlinear_arith)
                requires
                    h * t == 32768,
            ;
            q = 2 * q + s;
            rest = rest % h;
            t = 2 * t;
            m = h;
        }
        r3 = r3 - 1;
    }
    proof {
        assert(m == 1);
        assert(rest == 0);
        assert(a == q * b + r2) by (nonlinear_arith)
            requires
                a == (q * b + r2) * m + rest,
                m == 1,
                rest == 0,
        ;
        assert(t == 65536) by (nonlinear_arith)
            requires
                m * t == 65536,
                m == 1,
        ;
        lemma_fundamental_div_mod_converse(a as int, b as int, q, r2 as int);
    }
    (r0, r2)
}

/// Unsigned 32-bit quotient and remainder by restoring long division: the
/// dividend is shifted out of `r0:r1` one bit at a time into the partial
/// remainder `r4:r5`, while the quotient bits are shifted into `r0:r1`.
pub fn udiv_mod_32_impl(a: u32, b: u32) -> (r: (u32, u32))
    requires
        b != 0,
    ensures
        r.0 == a / b,
        r.1 == a % b,
{
    let mut r01: u32 = a;
    let mut r45: u32 = 0;
    let mut r6: u32 = 32;
    let ghost mut m: int = 4294967296;
    let ghost mut t: int = 1;
    let ghost mut rest: int = a as int;
    let ghost mut q: int = 0;
    assert(two_to(32) == 4294967296) by {
        reveal_with_fuel(two_to, 33);
    }
    while r6 > 0
        invariant
            r6 <= 32,
            m == two_to(r6 as nat),
            m * t == 4294967296,
            t >= 1,
            b != 0,
            0 <= rest < m,
            0 <= q < t,
            r01 == rest * t + q,
            a == (q * b + r45) * m + rest,
            r45 < b,
        decreases r6,
    {
        let ghost h: int = two_to((r6 - 1) as nat) as int;
        let ghost old_r45: int = r45 as int;
        assert(m == 2 * h);
        assert(h >= 1) by {
            lemma_two_to_positive((r6 - 1) as nat);
        }
        assert(h * t == 2147483648) by (nonlinear_arith)
            requires
                m * t == 4294967296,
                m == 2 * h,
        ;
        proof {
            lemma_top_bit(rest, h, t, q);
            lemma_remainder_small(a as int, b as int, m, t, q, r45 as int, rest, 4294967296);
            assert(t <= 2147483648) by (nonlinear_arith)
                requires
                    h * t == 2147483648,
                    h >= 1,
            ;
        }
        // shl r0; rcl r1; rcl r4; rcl r5
        let (r0, r1) = words_32(r01);
        let (r4, r5) = words_32(r45);
        let (n0, c0) = rotate_left_through_carry(r0, 0);
        let (n1, carry) = rotate_left_through_carry(r1, c0);
        let (n4, c4) = rotate_left_through_carry(r4, carry);
        let (n5, c5) = rotate_left_through_carry(r5, c4);
        let low = join_32(n0, n1);
        let shifted = join_32(n4, n5);
        proof {
            assert(low + carry * 4294967296 == 2 * r01);
            assert(shifted + c5 * 4294967296 == 2 * r45 + carry);
            assert(c5 == 0);
            lemma_fundamental_div_mod_converse(
                r01 as int,
                2147483648,
                carry as int,
                r01 - carry * 2147483648,
            );
        }
        r01 = low;
        r45 = shifted;
        // cmp r5, r3; blo 2f; bhi 3f; cmp r4, r2; blo 2f; sub r4:r5, r2:r3; inc r0
        let (r2, r3) = words_32(b);
        let (w4, w5) = words_32(r45);
        let s: u32 = if at_least_32(w4, w5, r2, r3) {
            let (d4, d5) = sub_32(w4, w5, r2, r3);
            r45 = join_32(d4, d5);
            assert(n0 % 2 == 0);
            r01 = join_32(n0 + 1, n1);
            1
        } else {
            0
        };
        proof {
            lemma_division_step(a as int, b as int, m, h, rest, q, old_r45, s as int);
            assert(r01 == (rest % h) * (2 * t) + (2 * q + s)) by (nonlinear_arith)
                requires
                    r01 == ((rest % h) * t + q) * 2 + s,
            ;
            assert(h * (2 * t) == 4294967296) by (nonlinear_arith)
                requires
                    h * t == 2147483648,
            ;
            q = 2 * q + s;
            rest = rest % h;
            t = 2 * t;
            m = h;
        }
        r6 = r6 - 1;
    }
    proof {
        assert(m == 1);
        assert(rest == 0);
        assert(a == q * b + r45) by (nonlinear_arith)
            requires
                a == (q * b + r45) * m + rest,
                m == 1,
                rest == 0,
        ;
        assert(t == 4294967296) by (nonlinear_arith)
            requires
                m * t == 4294967296,
                m == 1,
        ;
        lemma_fundamental_div_mod_converse(a as int, b as int, q, r45 as int);
    }
    (r01, r45)
}

proof fn lemma_two_to_positive(k: nat)
    ensures
        two_to(k) >= 1,
    decreases k,
{
    if k > 0 {
        lemma_two_to_positive((k - 1) as nat);
    }
}

/// `|x|`.
pub open spec fn abs(x: int) -> int {
    if x < 0 {
        -x
    } else {
        x
    }
}

/// Quotient of `a` by `b` rounded toward zero.
pub open spec fn trunc_div(a: int, b: int) -> int {
    let q = abs(a) / abs(b);
    if (a < 0) == (b < 0) {
        q
    } else {
        -q
    }
}

/// Remainder of `a` by `b` that has the sign of `a`.
pub open spec fn trunc_rem(a: int, b: int) -> int {
    let r = abs(a) % abs(b);
    if a < 0 {
        -r
    } else {
        r
    }
}

/// `x` reduced into the range of `i16` by two's complement wrapping.
pub open spec fn wrap_i16(x: int) -> int {
    if x >= 0x8000 {
        x - 0x1_0000
    } else if x < -0x8000 {
        x + 0x1_0000
    } else {
        x
    }
}

/// `x` reduced into the range of `i32` by two's complement wrapping.
pub open spec fn wrap_i32(x: int) -> int {
    if x >= 0x8000_0000 {
        x - 0x1_0000_0000
    } else if x < -0x8000_0000 {
        x + 0x1_0000_0000
    } else {
        x
    }
}

/// Unsigned 16-bit division (`__udivhi3`).
pub fn __udivhi3(a: u16, b: u16) -> (q: u16)
    requires
        b != 0,
    ensures
        q == a / b,
{
    udiv_mod_16_impl(a, b).0
}

/// Unsigned 16-bit remainder (`__umodhi3`).
pub fn __umodhi3(a: u16, b: u16) -> (r: u16)
    requires
        b != 0,
    ensures
        r == a % b,
{
    udiv_mod_16_impl(a, b).1
}

/// Unsigned 16-bit division that also stores the remainder (`__udivmodhi4`).
pub fn __udivmodhi4(a: u16, b: u16, rem: &mut u16) -> (q: u16)
    requires
        b != 0,
    ensures
        q == a / b,
        *final(rem) == a % b,
{
    let (q, r) = udiv_mod_16_impl(a, b);
    *rem = r;
    q
}

/// Unsigned 32-bit division (`__udivsi3`).
pub fn __udivsi3(a: u32, b: u32) -> (q: u32)
    requires
        b != 0,
    ensures
        q == a / b,
{
    udiv_mod_32_impl(a, b).0
}

/// Unsigned 32-bit remainder (`__umodsi3`).
pub fn __umodsi3(a: u32, b: u32) -> (r: u32)
    requires
        b != 0,
    ensures
        r == a % b,
{
    udiv_mod_32_impl(a, b).1
}

/// Unsigned 32-bit division that also stores the remainder (`__udivmodsi4`).
pub fn __udivmodsi4(a: u32, b: u32, rem: &mut u32) -> (q: u32)
    requires
        b != 0,
    ensures
        q == a / b,
        *final(rem) == a % b,
{
    let (q, r) = udiv_mod_32_impl(a, b);
    *rem = r;
    q
}

/// Magnitude of a 16-bit integer as an unsigned one (`neg` when negative).
fn magnitude_16(x: i16) -> (m: u16)
    ensures
        m == abs(x as int),
{
    if x < 0 {
        (0 - (x as i32)) as u16
    } else {
        x as u16
    }
}

/// Magnitude of a 32-bit integer as an unsigned one.
fn magnitude_32(x: i32) -> (m: u32)
    ensures
        m == abs(x as int),
{
    if x < 0 {
        // not r1; neg r0; bcc 2f; inc r1, on the two's complement words of x
        let (lo, hi) = words_32((x as i64 + 0x1_0000_0000) as u32);
        let (nlo, nhi) = neg_32(lo, hi);
        proof {
            lemma_fundamental_div_mod_converse(-(x as int), 0x1_0000_0000, 0, -(x as int));
        }
        join_32(nlo, nhi)
    } else {
        x as u32
    }
}

/// `m`, negated when `negate`, as a 16-bit two's complement integer.
fn signed_16(m: u16, negate: bool) -> (r: i16)
    ensures
        r == wrap_i16(if negate {
            -(m as int)
        } else {
            m as int
        }),
{
    let v: i32 = if negate {
        0 - (m as i32)
    } else {
        m as i32
    };
    if v > 0x7fff {
        (v - 0x1_0000) as i16
    } else if v < -0x8000 {
        (v + 0x1_0000) as i16
    } else {
        v as i16
    }
}

/// `m`, negated when `negate`, as a 32-bit two's complement integer.
fn signed_32(m: u32, negate: bool) -> (r: i32)
    ensures
        r == wrap_i32(if negate {
            -(m as int)
        } else {
            m as int
        }),
{
    let (lo, hi) = words_32(m);
    // cmp r4, 0; bz 1f; not r1; neg r0; bcc 1f; inc r1
    let bits: u32 = if negate {
        let (nlo, nhi) = neg_32(lo, hi);
        join_32(nlo, nhi)
    } else {
        m
    };
    proof {
        if negate && m != 0 {
            vstd::arithmetic::div_mod::lemma_small_mod(
                (0x1_0000_0000 - m) as nat,
                0x1_0000_0000,
            );
        }
    }
    if bits > 0x7fff_ffff {
        (bits as i64 - 0x1_0000_0000) as i32
    } else {
        bits as i32
    }
}

/// Signed 16-bit division rounding toward zero (`__divhi3`); the one
/// quotient out of range, `i16::MIN / -1`, wraps to `i16::MIN`.
pub fn __divhi3(a: i16, b: i16) -> (q: i16)
    requires
        b != 0,
    ensures
        q == wrap_i16(trunc_div(a as int, b as int)),
{
    let mut r4: i16 = 0;
    if a < 0 {
        r4 = r4 - 1;
    }
    if b < 0 {
        r4 = r4 + 1;
    }
    let (q, _) = udiv_mod_16_impl(magnitude_16(a), magnitude_16(b));
    signed_16(q, r4 != 0)
}

/// Signed 16-bit remainder with the sign of the dividend (`__modhi3`).
pub fn __modhi3(a: i16, b: i16) -> (r: i16)
    requires
        b != 0,
    ensures
        r == trunc_rem(a as int, b as int),
{
    let (_, r) = udiv_mod_16_impl(magnitude_16(a), magnitude_16(b));
    signed_16(r, a < 0)
}

/// Signed 16-bit division that also stores the remainder (`__divmodhi4`).
pub fn __divmodhi4(a: i16, b: i16, rem: &mut i16) -> (q: i16)
    requires
        b != 0,
    ensures
        q == wrap_i16(trunc_div(a as int, b as int)),
        *final(rem) == trunc_rem(a as int, b as int),
{
    let mut r4: i16 = 0;
    if a < 0 {
        r4 = r4 - 1;
    }
    let r5 = r4;
    if b < 0 {
        r4 = r4 + 1;
    }
    let (q, r) = udiv_mod_16_impl(magnitude_16(a), magnitude_16(b));
    *rem = signed_16(r, r5 != 0);
    signed_16(q, r4 != 0)
}

/// Signed 32-bit division rounding toward zero (`__divsi3`); the one
/// quotient out of range, `i32::MIN / -1`, wraps to `i32::MIN`.
pub fn __divsi3(a: i32, b: i32) -> (q: i32)
    requires
        b != 0,
    ensures
        q == wrap_i32(trunc_div(a as int, b as int)),
{
    let mut r4: i16 = 0;
    if a < 0 {
        r4 = r4 - 1;
    }
    if b < 0 {
        r4 = r4 + 1;
    }
    let (q, _) = udiv_mod_32_impl(magnitude_32(a), magnitude_32(b));
    signed_32(q, r4 != 0)
}

/// Signed 32-bit remainder with the sign of the dividend (`__modsi3`).
pub fn __modsi3(a: i32, b: i32) -> (r: i32)
    requires
        b != 0,
    ensures
        r == trunc_rem(a as int, b as int),
{
    let (_, r) = udiv_mod_32_impl(magnitude_32(a), magnitude_32(b));
    signed_32(r, a < 0)
}

/// Signed 32-bit division that also stores the remainder (`__divmodsi4`).
pub fn __divmodsi4(a: i32, b: i32, rem: &mut i32) -> (q: i32)
    requires
        b != 0,
    ensures
        q == wrap_i32(trunc_div(a as int, b as int)),
        *final(rem) == trunc_rem(a as int, b as int),
{
    let mut r4: i16 = 0;
    if a < 0 {
        r4 = r4 - 1;
    }
    let r5 = r4;
    if b < 0 {
        r4 = r4 + 1;
    }
    let (q, r) = udiv_mod_32_impl(magnitude_32(a), magnitude_32(b));
    *rem = signed_32(r, r5 != 0);
    signed_32(q, r4 != 0)
}

/// A multiple of `m` added to `x` does not change `x % m`.
proof fn lemma_mod_add_multiple(x: int, k: int, m: int)
    requires
        m > 0,
    ensures
        (x + k * m) % m == x % m,
{
    vstd::arithmetic::div_mod::lemma_mod_multiples_vanish(k, x, m);
    assert(m * k + x == x + k * m) by (nonlinear_arith);
}

/// One step of shift-and-add multiplication modulo `n`: when the low bit `c`
/// of `r1` is set, `r0` is added to the product `r2`; then `r0` is doubled and
/// `r1` halved.
proof fn lemma_multiply_step(r0: int, r1: int, r2: int, n: int, c: int, h: int, r2n: int, r0n: int)
    requires
        n > 0,
        r1 == 2 * h + c,
        r2n == (r2 + c * r0) % n,
        r0n == (2 * r0) % n,
    ensures
        (r2n + r0n * h) % n == (r2 + r0 * r1) % n,
{
    vstd::arithmetic::div_mod::lemma_fundamental_div_mod(r2 + c * r0, n);
    vstd::arithmetic::div_mod::lemma_fundamental_div_mod(2 * r0, n);
    let k1 = (r2 + c * r0) / n;
    let k2 = (2 * r0) / n;
    assert(r2 + r0 * r1 == (r2n + r0n * h) + (k1 + k2 * h) * n) by (nonlinear_arith)
        requires
            r1 == 2 * h + c,
            r2 + c * r0 == n * k1 + r2n,
            2 * r0 == n * k2 + r0n,
    ;
    lemma_mod_add_multiple(r2n + r0n * h, k1 + k2 * h, n);
}

/// 16-bit multiplication by shifting and adding (`__mulhi3`): the low 16 bits
/// of the product.
pub fn __mulhi3(a: u16, b: u16) -> (p: u16)
    ensures
        p == (a * b) % 0x1_0000,
{
    let mut r0: u16 = a;
    let mut r1: u16 = b;
    let mut r2: u16 = 0;
    while r1 != 0
        invariant
            (r2 + r0 * r1) % 0x1_0000 == (a * b) % 0x1_0000,
        decreases r1,
    {
        // shr r1; bcc 1f; add r0, r2
        let c: u16 = r1 & 1;
        let h: u16 = r1 >> 1;
        assert(r1 == 2 * h + c && c <= 1) by (bit_vector)
            requires
                c == r1 & 1,
                h == r1 >> 1,
        ;
        let r2n: u16 = if c == 1 {
            r2.wrapping_add(r0)
        } else {
            r2
        };
        // shl r0
        let r0n: u16 = r0 << 1;
        assert(r0n == (2 * r0) % 0x1_0000) by (bit_vector)
            requires
                r0n == r0 << 1,
        ;
        assert(r2n == (r2 + c * r0) % 0x1_0000) by {
            if c == 0 {
                vstd::arithmetic::div_mod::lemma_small_mod(r2 as nat, 0x1_0000);
            }
        }
        proof {
            lemma_multiply_step(r0 as int, r1 as int, r2 as int, 0x1_0000, c as int, h as int, r2n as int, r0n as int);
        }
        r2 = r2n;
        r0 = r0n;
        r1 = h;
    }
    proof {
        vstd::arithmetic::div_mod::lemma_small_mod(r2 as nat, 0x1_0000);
    }
    r2
}

/// 32-bit multiplication by shifting and adding (`__mulsi3`): the low 32 bits
/// of the product.
pub fn __mulsi3(a: u32, b: u32) -> (p: u32)
    ensures
        p == (a * b) % 0x1_0000_0000,
{
    let mut r01: u32 = a;
    let mut r23: u32 = b;
    let mut r45: u32 = 0;
    while r23 != 0
        invariant
            (r45 + r01 * r23) % 0x1_0000_0000 == (a * b) % 0x1_0000_0000,
        decreases r23,
    {
        // shr r3; rcr r2
        let (r2, r3) = words_32(r23);
        let (n3, c3) = rotate_right_through_carry(r3, 0);
        let (n2, c) = rotate_right_through_carry(r2, c3);
        let h = join_32(n2, n3);
        assert(r23 == 2 * h + c && c <= 1);
        // bcc 1f; add r0, r4, r4; addc r1, r5, r5
        let (r0, r1) = words_32(r01);
        let r45n: u32 = if c == 1 {
            let (r4, r5) = words_32(r45);
            let (s4, s5) = add_32(r0, r1, r4, r5);
            join_32(s4, s5)
        } else {
            r45
        };
        // shl r0; rcl r1
        let (n0, c0) = rotate_left_through_carry(r0, 0);
        let (n1, c1) = rotate_left_through_carry(r1, c0);
        let r01n = join_32(n0, n1);
        proof {
            assert(r01n + c1 * 0x1_0000_0000 == 2 * r01);
            lemma_fundamental_div_mod_converse(2 * r01, 0x1_0000_0000, c1 as int, r01n as int);
        }
        assert(r45n == (r45 + c * r01) % 0x1_0000_0000) by {
            if c == 0 {
                vstd::arithmetic::div_mod::lemma_small_mod(r45 as nat, 0x1_0000_0000);
            }
        }
        proof {
            lemma_multiply_step(r01 as int, r23 as int, r45 as int, 0x1_0000_0000, c as int, h as int, r45n as int, r01n as int);
        }
        r45 = r45n;
        r01 = r01n;
        r23 = h;
    }
    proof {
        vstd::arithmetic::div_mod::lemma_small_mod(r45 as nat, 0x1_0000_0000);
    }
    r45
}

/// The four 16-bit words of `x`, least significant first.
fn words_of(x: u64) -> (w: (u16, u16, u16, u16))
    ensures
        x == w.0 + w.1 * 0x1_0000 + w.2 * 0x1_0000_0000 + w.3 * 0x1_0000_0000_0000,
{
    let w0 = (x % 0x1_0000) as u16;
    let w1 = ((x / 0x1_0000) % 0x1_0000) as u16;
    let w2 = ((x / 0x1_0000_0000) % 0x1_0000) as u16;
    let w3 = (x / 0x1_0000_0000_0000) as u16;
    assert(x == w0 + w1 * 0x1_0000 + w2 * 0x1_0000_0000 + w3 * 0x1_0000_0000_0000) by (bit_vector)
        requires
            w0 == x % 0x1_0000,
            w1 == (x / 0x1_0000) % 0x1_0000,
            w2 == (x / 0x1_0000_0000) % 0x1_0000,
            w3 == x / 0x1_0000_0000_0000,
    ;
    (w0, w1, w2, w3)
}

/// The 64-bit value of four 16-bit words, least significant first.
fn from_words(w0: u16, w1: u16, w2: u16, w3: u16) -> (x: u64)
    ensures
        x == w0 + w1 * 0x1_0000 + w2 * 0x1_0000_0000 + w3 * 0x1_0000_0000_0000,
{
    w0 as u64 + (w1 as u64) * 0x1_0000 + (w2 as u64) * 0x1_0000_0000 + (w3 as u64)
        * 0x1_0000_0000_0000
}

/// `add`/`addc` on one word: the sum of `x`, `y` and the carry `c`, and the
/// carry out.
fn add_with_carry(x: u16, y: u16, c: u16) -> (r: (u16, u16))
    requires
        c <= 1,
    ensures
        r.0 + r.1 * 0x1_0000 == x + y + c,
        r.1 <= 1,
{
    let sum: u32 = x as u32 + y as u32 + c as u32;
    ((sum % 0x1_0000) as u16, (sum / 0x1_0000) as u16)
}

/// `sub`/`subc` on one word: the difference of `x`, `y` and the borrow `c`,
/// and the borrow out.
fn sub_with_borrow(x: u16, y: u16, c: u16) -> (r: (u16, u16))
    requires
        c <= 1,
    ensures
        r.0 - r.1 * 0x1_0000 == x - y - c,
        r.1 <= 1,
{
    if (x as u32) >= (y as u32) + (c as u32) {
        (x - y - c, 0)
    } else {
        ((x as u32 + 0x1_0000 - y as u32 - c as u32) as u16, 1)
    }
}

/// The low and high 16-bit words of `x`.
fn words_32(x: u32) -> (w: (u16, u16))
    ensures
        x == w.0 + w.1 * 0x1_0000,
{
    let lo = (x % 0x1_0000) as u16;
    let hi = (x / 0x1_0000) as u16;
    (lo, hi)
}

/// The 32-bit value of a low and a high word.
fn join_32(lo: u16, hi: u16) -> (x: u32)
    ensures
        x == lo + hi * 0x1_0000,
{
    lo as u32 + (hi as u32) * 0x1_0000
}

/// `rcl`: `x` shifted left by one with the carry `c` shifted in; the bit
/// shifted out is the new carry (`shl` when `c` is 0).
fn rotate_left_through_carry(x: u16, c: u16) -> (r: (u16, u16))
    requires
        c <= 1,
    ensures
        r.0 + r.1 * 0x1_0000 == 2 * x + c,
        r.1 <= 1,
{
    (((x % 0x8000) * 2 + c) as u16, x / 0x8000)
}

/// `rcr`: `x` shifted right by one with the carry `c` shifted in at the top;
/// the bit shifted out is the new carry (`shr` when `c` is 0).
fn rotate_right_through_carry(x: u16, c: u16) -> (r: (u16, u16))
    requires
        c <= 1,
    ensures
        r.0 * 2 + r.1 == x + c * 0x1_0000,
        r.1 <= 1,
{
    ((x / 2 + c * 0x8000) as u16, x % 2)
}

/// `cmp hi_a, hi_b; blo; bhi; cmp lo_a, lo_b; blo`: whether the two-word value
/// `a` is at least `b`; the low words are compared only when the high words
/// are equal.
fn at_least_32(a_lo: u16, a_hi: u16, b_lo: u16, b_hi: u16) -> (r: bool)
    ensures
        r == (a_lo + a_hi * 0x1_0000 >= b_lo + b_hi * 0x1_0000),
{
    if a_hi < b_hi {
        false
    } else if a_hi > b_hi {
        true
    } else {
        a_lo >= b_lo
    }
}

/// `sub lo_b, lo_a; subc hi_b, hi_a`: the two-word difference `a - b`.
fn sub_32(a_lo: u16, a_hi: u16, b_lo: u16, b_hi: u16) -> (d: (u16, u16))
    requires
        a_lo + a_hi * 0x1_0000 >= b_lo + b_hi * 0x1_0000,
    ensures
        d.0 + d.1 * 0x1_0000 == (a_lo + a_hi * 0x1_0000) - (b_lo + b_hi * 0x1_0000),
{
    let (d0, c0) = sub_with_borrow(a_lo, b_lo, 0);
    let (d1, _c1) = sub_with_borrow(a_hi, b_hi, c0);
    (d0, d1)
}

/// `add lo_a, lo_b; addc hi_a, hi_b`: the two-word sum `a + b`, wrapping.
fn add_32(a_lo: u16, a_hi: u16, b_lo: u16, b_hi: u16) -> (s: (u16, u16))
    ensures
        s.0 + s.1 * 0x1_0000 == ((a_lo + a_hi * 0x1_0000) + (b_lo + b_hi * 0x1_0000))
            % 0x1_0000_0000,
{
    let (s0, c0) = add_with_carry(a_lo, b_lo, 0);
    let (s1, c1) = add_with_carry(a_hi, b_hi, c0);
    proof {
        lemma_fundamental_div_mod_converse(
            (a_lo + a_hi * 0x1_0000) + (b_lo + b_hi * 0x1_0000),
            0x1_0000_0000,
            c1 as int,
            s0 + s1 * 0x1_0000,
        );
    }
    (s0, s1)
}

/// `not hi; neg lo; bcc 2f; inc hi`: the two's complement negation of a
/// two-word value; the high word is incremented when negating the low word
/// carries, that is when the low word is zero.
fn neg_32(lo: u16, hi: u16) -> (n: (u16, u16))
    ensures
        n.0 + n.1 * 0x1_0000 == (0x1_0000_0000 - (lo + hi * 0x1_0000)) % 0x1_0000_0000,
{
    let inv: u16 = !hi;
    assert(inv == 0xffff - hi) by (bit_vector)
        requires
            inv == !hi,
    ;
    let nlo = 0u16.wrapping_sub(lo);
    let nhi = if lo == 0 {
        inv.wrapping_add(1)
    } else {
        inv
    };
    proof {
        let x = lo + hi * 0x1_0000;
        if x == 0 {
            assert(nlo + nhi * 0x1_0000 == 0);
        } else {
            assert(nlo + nhi * 0x1_0000 == 0x1_0000_0000 - x);
            vstd::arithmetic::div_mod::lemma_small_mod(
                (0x1_0000_0000 - x) as nat,
                0x1_0000_0000,
            );
        }
    }
    (nlo, nhi)
}

/// 64-bit addition word by word with carries (`__adddi3`), wrapping.
pub fn __adddi3(a: u64, b: u64) -> (s: u64)
    ensures
        s == (a + b) % 0x1_0000_0000_0000_0000,
{
    let (a0, a1, a2, a3) = words_of(a);
    let (b0, b1, b2, b3) = words_of(b);
    let (s0, c0) = add_with_carry(a0, b0, 0);
    let (s1, c1) = add_with_carry(a1, b1, c0);
    let (s2, c2) = add_with_carry(a2, b2, c1);
    let (s3, c3) = add_with_carry(a3, b3, c2);
    let s = from_words(s0, s1, s2, s3);
    proof {
        assert(a + b == s + c3 * 0x1_0000_0000_0000_0000);
        lemma_fundamental_div_mod_converse(
            a + b,
            0x1_0000_0000_0000_0000,
            c3 as int,
            s as int,
        );
    }
    s
}

/// 64-bit subtraction word by word with borrows (`__subdi3`), wrapping.
pub fn __subdi3(a: u64, b: u64) -> (d: u64)
    ensures
        d == (a - b) % 0x1_0000_0000_0000_0000,
{
    let (a0, a1, a2, a3) = words_of(a);
    let (b0, b1, b2, b3) = words_of(b);
    let (d0, c0) = sub_with_borrow(a0, b0, 0);
    let (d1, c1) = sub_with_borrow(a1, b1, c0);
    let (d2, c2) = sub_with_borrow(a2, b2, c1);
    let (d3, c3) = sub_with_borrow(a3, b3, c2);
    let d = from_words(d0, d1, d2, d3);
    proof {
        assert(a - b == d - c3 * 0x1_0000_0000_0000_0000);
        lemma_fundamental_div_mod_converse(
            a - b,
            0x1_0000_0000_0000_0000,
            -(c3 as int),
            d as int,
        );
    }
    d
}

/// Two's complement negation of a 64-bit integer (`__negdi2`): the low words
/// that are zero stay zero, the first non-zero word is negated and the words
/// above it are inverted.
pub fn __negdi2(a: u64) -> (n: u64)
    ensures
        n == (0x1_0000_0000_0000_0000 - a) % 0x1_0000_0000_0000_0000,
{
    let (a0, a1, a2, a3) = words_of(a);
    let i1: u16 = !a1;
    let i2: u16 = !a2;
    let i3: u16 = !a3;
    assert(i1 == 0xffff - a1 && i2 == 0xffff - a2 && i3 == 0xffff - a3) by (bit_vector)
        requires
            i1 == !a1,
            i2 == !a2,
            i3 == !a3,
    ;
    // neg r0; bcs 0f; not r1; not r2; not r3 ...
    let (n0, n1, n2, n3): (u16, u16, u16, u16) = if a0 != 0 {
        (0u16.wrapping_sub(a0), i1, i2, i3)
    } else if a1 != 0 {
        (0, 0u16.wrapping_sub(a1), i2, i3)
    } else if a2 != 0 {
        (0, 0, 0u16.wrapping_sub(a2), i3)
    } else {
        (0, 0, 0, 0u16.wrapping_sub(a3))
    };
    let n = from_words(n0, n1, n2, n3);
    proof {
        if a == 0 {
            assert(n == 0);
        } else {
            assert(n == 0x1_0000_0000_0000_0000 - a);
            vstd::arithmetic::div_mod::lemma_small_mod(
                (0x1_0000_0000_0000_0000 - a) as nat,
                0x1_0000_0000_0000_0000,
            );
        }
    }
    n
}

/// The signed quotient and remainder fit together: `q * b + r == a`, the
/// remainder is smaller than the divisor in magnitude and is zero or has the
/// sign of the dividend.
pub proof fn lemma_trunc_div_rem(a: int, b: int)
    requires
        b != 0,
    ensures
        trunc_div(a, b) * b + trunc_rem(a, b) == a,
        abs(trunc_rem(a, b)) < abs(b),
        trunc_rem(a, b) == 0 || (trunc_rem(a, b) < 0) == (a < 0),
{
    let q = abs(a) / abs(b);
    let r = abs(a) % abs(b);
    vstd::arithmetic::div_mod::lemma_fundamental_div_mod(abs(a), abs(b));
    vstd::arithmetic::div_mod::lemma_mod_bound(abs(a), abs(b));
    assert(trunc_div(a, b) * b + trunc_rem(a, b) == a) by (nonlinear_arith)
        requires
            abs(a) == abs(b) * q + r,
            trunc_div(a, b) == (if (a < 0) == (b < 0) {
                q
            } else {
                -q
            }),
            trunc_rem(a, b) == (if a < 0 {
                -r
            } else {
                r
            }),
            abs(a) == (if a < 0 {
                -a
            } else {
                a
            }),
            abs(b) == (if b < 0 {
                -b
            } else {
                b
            }),
    ;
}

/// Subtracting is adding the two's complement negation, modulo 2^64.
pub proof fn lemma_sub_is_add_of_negation(a: u64, b: u64)
    ensures
        (a + (0x1_0000_0000_0000_0000 - b) % 0x1_0000_0000_0000_0000) % 0x1_0000_0000_0000_0000
            == (a - b) % 0x1_0000_0000_0000_0000,
{
    let m: int = 0x1_0000_0000_0000_0000;
    if b == 0 {
        vstd::arithmetic::div_mod::lemma_mod_self_0(m);
        assert((m - b) % m == 0);
    } else {
        vstd::arithmetic::div_mod::lemma_small_mod((m - b) as nat, m as nat);
        lemma_mod_add_multiple(a - b, 1, m);
    }
}

} // verus!
