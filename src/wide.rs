use vstd::prelude::*;

verus! {

/// The value of the 256-bit number with high half `hi` and low half `lo`.
pub open spec fn wide_val(hi: u128, lo: u128) -> int {
    hi * 0x1_0000_0000_0000_0000_0000_0000_0000_0000 + lo
}

/// The full 256-bit product of `a` and `b`, as (high half, low half).
pub fn mul_wide(a: u128, b: u128) -> (r: (u128, u128))
    ensures
        wide_val(r.0, r.1) == a * b,
{
    let a1 = a / 0x1_0000_0000_0000_0000;
    let a0 = a % 0x1_0000_0000_0000_0000;
    let b1 = b / 0x1_0000_0000_0000_0000;
    let b0 = b % 0x1_0000_0000_0000_0000;
    proof {
        assert(a1 * 0x1_0000_0000_0000_0000 + a0 == a && b1 * 0x1_0000_0000_0000_0000 + b0 == b);
        assert(a1 < 0x1_0000_0000_0000_0000 && b1 < 0x1_0000_0000_0000_0000);
        assert(a1 * b1 < 0x1_0000_0000_0000_0000_0000_0000_0000_0000 && a0 * b0
            < 0x1_0000_0000_0000_0000_0000_0000_0000_0000 && a0 * b1
            < 0x1_0000_0000_0000_0000_0000_0000_0000_0000 && a1 * b0
            < 0x1_0000_0000_0000_0000_0000_0000_0000_0000) by (nonlinear_arith)
            requires
                a0 < 0x1_0000_0000_0000_0000,
                a1 < 0x1_0000_0000_0000_0000,
                b0 < 0x1_0000_0000_0000_0000,
                b1 < 0x1_0000_0000_0000_0000,
        ;
    }
    let p00 = a0 * b0;
    let p01 = a0 * b1;
    let p10 = a1 * b0;
    let p11 = a1 * b1;
    let mid = p00 / 0x1_0000_0000_0000_0000 + p01 % 0x1_0000_0000_0000_0000 + p10
        % 0x1_0000_0000_0000_0000;
    let lo = p00 % 0x1_0000_0000_0000_0000 + (mid % 0x1_0000_0000_0000_0000)
        * 0x1_0000_0000_0000_0000;
    let ghost hi_int = p11 + p01 / 0x1_0000_0000_0000_0000 + p10 / 0x1_0000_0000_0000_0000 + mid
        / 0x1_0000_0000_0000_0000;
    proof {
        let (x00, x01, x10, x11, m) = (p00 as int, p01 as int, p10 as int, p11 as int, mid as int);
        let (q00, q01, q10, qm) = (x00 / 0x1_0000_0000_0000_0000, x01 / 0x1_0000_0000_0000_0000, x10 / 0x1_0000_0000_0000_0000, m / 0x1_0000_0000_0000_0000);
        let (r00, r01, r10, rm) = (x00 % 0x1_0000_0000_0000_0000, x01 % 0x1_0000_0000_0000_0000, x10 % 0x1_0000_0000_0000_0000, m % 0x1_0000_0000_0000_0000);
        assert(x00 == q00 * 0x1_0000_0000_0000_0000 + r00);
        assert(x01 == q01 * 0x1_0000_0000_0000_0000 + r01);
        assert(x10 == q10 * 0x1_0000_0000_0000_0000 + r10);
        assert(m == qm * 0x1_0000_0000_0000_0000 + rm);
        assert(a * b == x11 * 0x1_0000_0000_0000_0000_0000_0000_0000_0000 + (x01 + x10) * 0x1_0000_0000_0000_0000 + x00) by (nonlinear_arith)
            requires
                a == a1 * 0x1_0000_0000_0000_0000 + a0,
                b == b1 * 0x1_0000_0000_0000_0000 + b0,
                x00 == a0 * b0,
                x01 == a0 * b1,
                x10 == a1 * b0,
                x11 == a1 * b1,
        ;
        assert(m == q00 + r01 + r10);
        assert(lo == r00 + rm * 0x1_0000_0000_0000_0000);
        assert(hi_int == x11 + q01 + q10 + qm);
        assert(a * b == (x11 + q01 + q10) * 0x1_0000_0000_0000_0000_0000_0000_0000_0000 + m * 0x1_0000_0000_0000_0000 + r00);
        assert(a * b == hi_int * 0x1_0000_0000_0000_0000_0000_0000_0000_0000 + lo);
        assert(a * b < 0x1_0000_0000_0000_0000_0000_0000_0000_0000 * 0x1_0000_0000_0000_0000_0000_0000_0000_0000) by (nonlinear_arith)
            requires
                0 <= a < 0x1_0000_0000_0000_0000_0000_0000_0000_0000,
                0 <= b < 0x1_0000_0000_0000_0000_0000_0000_0000_0000,
        ;
        assert(hi_int < 0x1_0000_0000_0000_0000_0000_0000_0000_0000);
    }
    let hi = p11 + p01 / 0x1_0000_0000_0000_0000 + p10 / 0x1_0000_0000_0000_0000 + mid
        / 0x1_0000_0000_0000_0000;
    (hi, lo)
}

/// The sum of two 256-bit numbers, or `None` when it does not fit 256 bits.
pub fn add_wide(x: (u128, u128), y: (u128, u128)) -> (r: Option<(u128, u128)>)
    ensures
        r is Some <==> wide_val(x.0, x.1) + wide_val(y.0, y.1)
            < 0x1_0000_0000_0000_0000_0000_0000_0000_0000 * 0x1_0000_0000_0000_0000_0000_0000_0000_0000,
        match r {
            Some(v) => wide_val(v.0, v.1) == wide_val(x.0, x.1) + wide_val(y.0, y.1),
            None => true,
        },
{
    let (carry, lo) = match x.1.checked_add(y.1) {
        Some(l) => (0u128, l),
        None => (1u128, ((x.1 - (u128::MAX - y.1)) - 1) as u128),
    };
    match x.0.checked_add(y.0) {
        Some(h) => match h.checked_add(carry) {
            Some(h2) => Some((h2, lo)),
            None => None,
        },
        None => None,
    }
}

/// True iff the first 256-bit number is below the second.
pub fn lt_wide(x: (u128, u128), y: (u128, u128)) -> (r: bool)
    ensures
        r == (wide_val(x.0, x.1) < wide_val(y.0, y.1)),
{
    x.0 < y.0 || (x.0 == y.0 && x.1 < y.1)
}

} // verus!
