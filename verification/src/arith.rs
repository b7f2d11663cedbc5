//! Integer arithmetic of the evaluator: `^`, `/` and `%` on `i64`, with the
//! meaning Rust gives them.

use vstd::prelude::*;
use vstd::arithmetic::div_mod::{
    lemma_fundamental_div_mod, lemma_fundamental_div_mod_converse_mod, lemma_mod_bound,
};
use vstd::arithmetic::power::{lemma0_pow, lemma1_pow, lemma_pow_increases, pow};

verus! {

pub open spec fn abs(x: int) -> int {
    if x < 0 {
        -x
    } else {
        x
    }
}

/// The quotient of `x` by `d`, rounded toward zero (Rust's `/`).
pub open spec fn div_toward_zero(x: int, d: int) -> int {
    if (x >= 0) == (d > 0) {
        abs(x) / abs(d)
    } else {
        -(abs(x) / abs(d))
    }
}

/// The remainder left by `div_toward_zero`: it has the sign of `x` (Rust's `%`).
pub open spec fn rem_toward_zero(x: int, d: int) -> int {
    if x >= 0 {
        abs(x) % abs(d)
    } else {
        -(abs(x) % abs(d))
    }
}

/// The floored remainder `l - r * floor(l / r)`: zero or of the sign of `r`.
pub open spec fn floor_mod(l: int, r: int) -> int {
    let e = l % abs(r);
    if r > 0 || e == 0 {
        e
    } else {
        e + r
    }
}

/// Rust's remainder leaves `x` minus a multiple of `d`, is smaller than `d`
/// in size, and has the sign of `x`.
pub proof fn lemma_rem_toward_zero(x: int, d: int) -> (q: int)
    requires
        d != 0,
    ensures
        q == div_toward_zero(x, d),
        x == q * d + rem_toward_zero(x, d),
        abs(rem_toward_zero(x, d)) < abs(d),
        x >= 0 ==> rem_toward_zero(x, d) >= 0,
        x < 0 ==> rem_toward_zero(x, d) <= 0,
{
    let dd = abs(d);
    let ax = abs(x);
    let k = ax / dd;
    let e = ax % dd;
    lemma_fundamental_div_mod(ax, dd);
    lemma_mod_bound(ax, dd);
    assert(ax == dd * k + e);
    if d > 0 {
        assert(dd * k == k * d) by (nonlinear_arith)
            requires
                dd == d,
        ;
        if x >= 0 {
            k
        } else {
            assert((-k) * d == -(k * d)) by (nonlinear_arith);
            -k
        }
    } else {
        assert(dd * k == (-k) * d) by (nonlinear_arith)
            requires
                dd == -d,
        ;
        if x >= 0 {
            -k
        } else {
            assert(k * d == -((-k) * d)) by (nonlinear_arith);
            k
        }
    }
}

/// If `l` is `q * r + m` with `m` zero or of the sign of `r` and smaller in
/// size, then `m` is the floored remainder.
pub proof fn lemma_floor_mod_unique(l: int, r: int, q: int, m: int)
    requires
        r != 0,
        l == q * r + m,
        r > 0 ==> 0 <= m < r,
        r < 0 ==> r < m <= 0,
    ensures
        m == floor_mod(l, r),
{
    if r > 0 {
        lemma_fundamental_div_mod_converse_mod(l, r, q, m);
    } else {
        let d = -r;
        assert(q * r == (-q) * d) by (nonlinear_arith)
            requires
                d == -r,
        ;
        if m == 0 {
            lemma_fundamental_div_mod_converse_mod(l, d, -q, 0);
        } else {
            assert((-q) * d + m == (-q - 1) * d + (m + d)) by (nonlinear_arith);
            lemma_fundamental_div_mod_converse_mod(l, d, -q - 1, m + d);
        }
    }
}

pub open spec fn in_i64(x: int) -> bool {
    i64::MIN <= x <= i64::MAX
}

/// `l / r` on `i64`; Rust panics exactly where `requires` fails.
pub fn div_i64(l: i64, r: i64) -> (res: i64)
    requires
        r != 0,
        in_i64(div_toward_zero(l as int, r as int)),
    ensures
        res == div_toward_zero(l as int, r as int),
{
    match l.checked_div(r) {
        Some(q) => q,
        None => {
            assert(false);
            0
        },
    }
}

/// `l % r` on `i64`; Rust panics exactly where `requires` fails.
pub fn rem_i64(l: i64, r: i64) -> (res: i64)
    requires
        r != 0,
        !(l == i64::MIN && r == -1),
    ensures
        res == rem_toward_zero(l as int, r as int),
{
    match l.checked_rem(r) {
        Some(m) => m,
        None => {
            assert(false);
            0
        },
    }
}

proof fn lemma_abs_pow(b: int, n: nat)
    ensures
        abs(pow(b, n)) == pow(abs(b), n),
    decreases n,
{
    reveal(pow);
    if n > 0 {
        lemma_abs_pow(b, (n - 1) as nat);
        let p = pow(b, (n - 1) as nat);
        assert(abs(b * p) == abs(b) * abs(p)) by (nonlinear_arith);
    }
}

proof fn lemma_pow_minus_one(n: nat)
    ensures
        pow(-1, n) == (if n % 2 == 0 {
            1int
        } else {
            -1int
        }),
    decreases n,
{
    reveal(pow);
    if n > 0 {
        lemma_pow_minus_one((n - 1) as nat);
    }
}

/// For `|b| >= 2`, each power below `m` is at most half of the `m`-th in size.
proof fn lemma_pow_grows(b: int, n: nat, m: nat)
    requires
        abs(b) >= 2,
        n < m,
    ensures
        2 * abs(pow(b, n)) <= abs(pow(b, m)),
{
    lemma_abs_pow(b, n);
    lemma_abs_pow(b, m);
    lemma_abs_pow(b, (m - 1) as nat);
    let a = abs(b);
    lemma_pow_increases(a as nat, n, (m - 1) as nat);
    reveal(pow);
    assert(pow(a, m) == a * pow(a, (m - 1) as nat));
    let q = pow(a, (m - 1) as nat);
    assert(a * q >= 2 * q) by (nonlinear_arith)
        requires
            a >= 2,
            q >= 0,
    ;
}

/// `base` raised to `exp`, as `i64::pow` computes it; Rust panics exactly
/// where `requires` fails.
pub fn pow_i64(base: i64, exp: u32) -> (res: i64)
    requires
        in_i64(pow(base as int, exp as nat)),
    ensures
        res == pow(base as int, exp as nat),
{
    if base == 0 {
        if exp == 0 {
            proof {
                reveal(pow);
            }
            1
        } else {
            proof {
                lemma0_pow(exp as nat);
            }
            0
        }
    } else if base == 1 {
        proof {
            lemma1_pow(exp as nat);
        }
        1
    } else if base == -1 {
        proof {
            lemma_pow_minus_one(exp as nat);
        }
        if exp % 2 == 0 {
            1
        } else {
            -1
        }
    } else {
        let mut acc: i64 = 1;
        let mut i: u32 = 0;
        proof {
            reveal(pow);
        }
        while i < exp
            invariant
                i <= exp,
                abs(base as int) >= 2,
                in_i64(pow(base as int, exp as nat)),
                acc == pow(base as int, i as nat),
            decreases exp - i,
        {
            proof {
                reveal(pow);
                let p = pow(base as int, i as nat);
                assert(pow(base as int, (i + 1) as nat) == base * p);
                assert(base * p == p * base) by (nonlinear_arith);
                if i + 1 < exp {
                    lemma_pow_grows(base as int, (i + 1) as nat, exp as nat);
                }
                assert(in_i64(pow(base as int, (i + 1) as nat)));
            }
            acc = acc * base;
            i = i + 1;
        }
        acc
    }
}

} // verus!
