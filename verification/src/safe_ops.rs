//! The semantics of the safety wrappers the reconditioner injects: total
//! functions that agree with the raw operator on every input in its legal
//! domain and return a defined, stable value outside it. The executable
//! forms here are the reference model of the emitted helper functions, and
//! their contracts state both halves of that claim exactly.

use vstd::prelude::*;
use vstd::math::abs;

verus! {

/// Rust's truncating division on mathematical integers: the quotient is
/// rounded toward zero.
pub open spec fn trunc_div(a: int, b: int) -> int {
    let q = abs(a) as int / abs(b) as int;
    if (a < 0) != (b < 0) {
        -q
    } else {
        q
    }
}

/// Rust's truncating remainder on mathematical integers: the remainder takes
/// the sign of the dividend.
pub open spec fn trunc_rem(a: int, b: int) -> int {
    a - trunc_div(a, b) * b
}

/// What `SAFE_DIV_I32` returns: the dividend when the divisor is zero or the
/// division overflows, the true quotient otherwise.
pub open spec fn safe_div_i32_spec(a: i32, b: i32) -> int {
    if b == 0 {
        a as int
    } else if a == i32::MIN && b == -1 {
        a as int
    } else {
        trunc_div(a as int, b as int)
    }
}

/// What `SAFE_MOD_I32` returns: zero when the divisor is zero or the
/// division overflows, the true remainder otherwise.
pub open spec fn safe_mod_i32_spec(a: i32, b: i32) -> int {
    if b == 0 {
        0
    } else if a == i32::MIN && b == -1 {
        0
    } else {
        trunc_rem(a as int, b as int)
    }
}

/// The absolute value of an `i32`, as the matching `u32`.
fn abs_u32(a: i32) -> (r: u32)
    ensures
        r == abs(a as int),
{
    if a < 0 {
        (-(a as i64)) as u32
    } else {
        a as u32
    }
}

/// The reference model of the `SAFE_DIV_I32` helper: agrees with `a / b`
/// whenever that is defined, and returns `a` on a zero divisor or on signed
/// overflow.
pub fn safe_div_i32(a: i32, b: i32) -> (r: i32)
    ensures
        r == safe_div_i32_spec(a, b),
        b != 0 && !(a == i32::MIN && b == -1) ==> r == trunc_div(a as int, b as int),
{
    if b == 0 {
        a
    } else if a == i32::MIN && b == -1 {
        a
    } else {
        let ua = abs_u32(a);
        let ub = abs_u32(b);
        let q = ua / ub;
        proof {
            let aa = abs(a as int) as int;
            let bb = abs(b as int) as int;
            vstd::arithmetic::div_mod::lemma_div_basics_4(aa, bb);
            vstd::arithmetic::div_mod::lemma_div_basics_5(aa, bb);
            assert(0 <= q <= aa);
        }
        if (a < 0) != (b < 0) {
            (-(q as i64)) as i32
        } else {
            proof {
                let aa = abs(a as int) as int;
                let bb = abs(b as int) as int;
                if a < 0 && b < 0 {
                    if bb >= 2 {
                        vstd::arithmetic::div_mod::lemma_div_is_ordered_by_denominator(aa, 2, bb);
                        assert(aa / bb <= aa / 2);
                    } else {
                        assert(b == -1i32 && a != i32::MIN);
                        assert(aa <= i32::MAX);
                    }
                }
            }
            q as i32
        }
    }
}

/// The reference model of the `SAFE_MOD_I32` helper: agrees with `a % b`
/// whenever that is defined, and returns `0` on a zero divisor or on signed
/// overflow.
pub fn safe_mod_i32(a: i32, b: i32) -> (r: i32)
    ensures
        r == safe_mod_i32_spec(a, b),
        b != 0 && !(a == i32::MIN && b == -1) ==> r == trunc_rem(a as int, b as int),
{
    if b == 0 {
        0
    } else if a == i32::MIN && b == -1 {
        0
    } else {
        let ua = abs_u32(a);
        let ub = abs_u32(b);
        let m = ua % ub;
        proof {
            let aa = abs(a as int) as int;
            let bb = abs(b as int) as int;
            vstd::arithmetic::div_mod::lemma_fundamental_div_mod(aa, bb);
            vstd::arithmetic::div_mod::lemma_mod_bound(aa, bb);
            assert(aa == bb * (aa / bb) + aa % bb);
            let x = aa / bb;
            if a < 0 && b < 0 {
                assert(trunc_div(a as int, b as int) == x);
                assert(a as int - x * (b as int) == -(aa - x * bb)) by (nonlinear_arith)
                    requires
                        a as int == -aa && b as int == -bb,
                ;
            } else if a < 0 {
                assert(trunc_div(a as int, b as int) == -x);
                assert(a as int - (-x) * (b as int) == -(aa - x * bb)) by (nonlinear_arith)
                    requires
                        a as int == -aa && b as int == bb,
                ;
            } else if b < 0 {
                assert(trunc_div(a as int, b as int) == -x);
                assert(a as int - (-x) * (b as int) == aa - x * bb) by (nonlinear_arith)
                    requires
                        a as int == aa && b as int == -bb,
                ;
            } else {
                assert(trunc_div(a as int, b as int) == x);
            }
            assert(aa - x * bb == aa % bb) by (nonlinear_arith)
                requires
                    aa == bb * x + aa % bb,
            ;
        }
        if a < 0 {
            (-(m as i64)) as i32
        } else {
            m as i32
        }
    }
}

/// What `SAFE_DIV_U32` returns: the dividend when the divisor is zero, the
/// quotient otherwise.
pub open spec fn safe_div_u32_spec(a: u32, b: u32) -> int {
    if b == 0 {
        a as int
    } else {
        a as int / b as int
    }
}

/// What `SAFE_MOD_U32` returns: zero when the divisor is zero, the remainder
/// otherwise.
pub open spec fn safe_mod_u32_spec(a: u32, b: u32) -> int {
    if b == 0 {
        0
    } else {
        a as int % b as int
    }
}

/// The reference model of the `SAFE_DIV_U32` helper.
pub fn safe_div_u32(a: u32, b: u32) -> (r: u32)
    ensures
        r == safe_div_u32_spec(a, b),
        b != 0 ==> r == a as int / b as int,
{
    if b == 0 {
        a
    } else {
        a / b
    }
}

/// The reference model of the `SAFE_MOD_U32` helper.
pub fn safe_mod_u32(a: u32, b: u32) -> (r: u32)
    ensures
        r == safe_mod_u32_spec(a, b),
        b != 0 ==> r == a as int % b as int,
{
    if b == 0 {
        0
    } else {
        a % b
    }
}

/// Masking a shift amount to the bit width keeps every legal amount
/// unchanged and maps every amount into the legal range: the reconditioned
/// shift agrees with the raw shift on the legal domain and is defined
/// everywhere.
pub proof fn lemma_shift_mask(s: u32)
    ensures
        s < 32 ==> (s & 31u32) == s,
        (s & 31u32) < 32,
{
    assert((s < 32 ==> (s & 31u32) == s) && (s & 31u32) < 32) by (bit_vector);
}

/// Wrap-around signed addition: the value of a sum performed in the
/// unsigned domain and reinterpreted back. Agrees with `a + b` whenever the
/// sum is representable.
pub fn wrap_add_i32(a: i32, b: i32) -> (r: i32)
    ensures
        i32::MIN <= a as int + b as int <= i32::MAX ==> r == a as int + b as int,
{
    a.wrapping_add(b)
}

/// Wrap-around signed subtraction: agrees with `a - b` whenever the
/// difference is representable.
pub fn wrap_sub_i32(a: i32, b: i32) -> (r: i32)
    ensures
        i32::MIN <= a as int - b as int <= i32::MAX ==> r == a as int - b as int,
{
    a.wrapping_sub(b)
}

/// Wrap-around signed multiplication: agrees with `a * b` whenever the
/// product is representable.
pub fn wrap_mul_i32(a: i32, b: i32) -> (r: i32)
    ensures
        i32::MIN <= a as int * b as int <= i32::MAX ==> r == a as int * b as int,
{
    proof {
        if i32::MIN <= a as int * b as int <= i32::MAX {
            vstd::arithmetic::div_mod::lemma_small_mod(
                (a as int * b as int - i32::MIN) as nat,
                0x1_0000_0000nat,
            );
        }
    }
    a.wrapping_mul(b)
}

/// Wrap-around signed negation: agrees with `-a` whenever the negation is
/// representable.
pub fn wrap_neg_i32(a: i32) -> (r: i32)
    ensures
        a != i32::MIN ==> r == -(a as int),
{
    (0i32).wrapping_sub(a)
}

} // verus!
