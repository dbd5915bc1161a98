//! Sampling rates and durations: numbers of the form `m * 2^k`, and their
//! quotients as 64-bit floating-point numbers have them.
use vstd::arithmetic::div_mod::*;
use vstd::arithmetic::power2::*;
use vstd::prelude::*;

verus! {

/// `n / d`, rounded to the nearest integer, a half upwards.
pub open spec fn rounded(n: int, d: int) -> int {
    (2 * n + d) / (2 * d)
}

/// `m * 2^k`, rounded to the nearest integer, a half upwards.
pub open spec fn round_scaled(m: int, k: int) -> int {
    if k >= 0 {
        m * pow2(k as nat)
    } else {
        rounded(m, pow2((-k) as nat) as int)
    }
}

/// The smaller of two numbers.
pub open spec fn capped(n: int, max: int) -> int {
    if n < max {
        n
    } else {
        max
    }
}

/// `n / d`, rounded.
pub fn round_quotient(n: u64, d: u64) -> (r: u64)
    requires
        d > 0,
    ensures
        r == rounded(n as int, d as int),
{
    let r = (2 * n as u128 + d as u128) / (2 * d as u128);
    proof {
        // n < 2^64 and d >= 1 bound the quotient.
        assert(2 * n + d < (n + 1) * (2 * d)) by (nonlinear_arith)
            requires
                d >= 1,
                n >= 0,
        ;
        lemma_quotient_bound(2 * n + d, n + 1, 2 * d);
    }
    r as u64
}

/// A quotient is below what its numerator is below times the denominator.
proof fn lemma_quotient_bound(a: int, b: int, d: int)
    requires
        d > 0,
        0 <= a < b * d,
    ensures
        0 <= a / d < b,
{
    lemma_fundamental_div_mod(a, d);
    lemma_div_pos_is_pos(a, d);
    assert(a / d < b) by (nonlinear_arith)
        requires
            d > 0,
            a < b * d,
            a == d * (a / d) + a % d,
            0 <= a % d,
    ;
}

/// `2^e`, for `e` up to 64.
fn power_of_two(e: u32) -> (r: u128)
    requires
        e <= 64,
    ensures
        r == pow2(e as nat),
        1 <= r <= 0x1_0000_0000_0000_0000,
{
    proof {
        lemma2_to64();
        lemma2_to64_rest();
    }
    let mut p: u128 = 1;
    let mut i: u32 = 0;
    while i < e
        invariant
            i <= e <= 64,
            p == pow2(i as nat),
            p <= pow2(e as nat) <= 0x1_0000_0000_0000_0000,
        decreases e - i,
    {
        proof {
            lemma_pow2_unfold((i + 1) as nat);
            if i + 1 < e {
                lemma_pow2_strictly_increases((i + 1) as nat, e as nat);
            }
        }
        p = p * 2;
        i = i + 1;
    }
    proof {
        lemma_pow2_pos(e as nat);
        if e < 64 {
            lemma_pow2_strictly_increases(e as nat, 64);
        }
    }
    p
}

/// `2^63`
pub const TWO_63: u64 = 0x8000_0000_0000_0000;

/// `m * 2^k`, rounded, or `max` if it is more.
pub fn round_scaled_capped(m: u64, k: i32, max: u64) -> (r: u64)
    requires
        -0x1_0000 <= k <= 0x1_0000,
    ensures
        r == capped(round_scaled(m as int, k as int), max as int),
{
    if m == 0 {
        proof {
            if k < 0 {
                lemma_pow2_pos((-k) as nat);
                let p = pow2((-k) as nat) as int;
                lemma_fundamental_div_mod_converse(p, 2 * p, 0, p);
            } else {
                assert(0 * pow2(k as nat) == 0) by (nonlinear_arith);
            }
        }
        return 0;
    }
    if k >= 64 {
        proof {
            lemma2_to64_rest();
            lemma_pow2_pos(k as nat);
            if k > 64 {
                lemma_pow2_strictly_increases(64, k as nat);
            }
            let p = pow2(k as nat) as int;
            assert(m * p >= p) by (nonlinear_arith)
                requires
                    m >= 1,
                    p >= 0,
            ;
        }
        return max;
    }
    if k >= 0 {
        let p = power_of_two(k as u32);
        assert(p <= 0x8000_0000_0000_0000) by {
            lemma2_to64_rest();
            if k < 63 {
                lemma_pow2_strictly_increases(k as nat, 63);
            }
        }
        assert(m * p <= 0xFFFF_FFFF_FFFF_FFFF * 0x8000_0000_0000_0000) by (nonlinear_arith)
            requires
                m <= 0xFFFF_FFFF_FFFF_FFFF,
                p <= 0x8000_0000_0000_0000,
        ;
        let value = m as u128 * p;
        return if value < max as u128 {
            value as u64
        } else {
            max
        };
    }
    let d = (-k) as u32;
    if d > 64 {
        proof {
            lemma2_to64_rest();
            lemma_pow2_unfold(65);
            if d > 65 {
                lemma_pow2_strictly_increases(65, d as nat);
            }
            let p = pow2(d as nat) as int;
            lemma_fundamental_div_mod_converse(2 * m + p, 2 * p, 0, 2 * m + p);
        }
        return 0;
    }
    let p = power_of_two(d);
    let value = (2 * m as u128 + p) / (2 * p);
    if value < max as u128 {
        value as u64
    } else {
        max
    }
}

/// `n / d`, rounded to the nearest integer, a half to the even one.
pub open spec fn round_even(n: int, d: int) -> int {
    let q = n / d;
    let rest = n % d;
    if 2 * rest > d || (2 * rest == d && q % 2 == 1) {
        q + 1
    } else {
        q
    }
}

/// `n / (d * 2^z)`, rounded to the nearest integer, a half to the even one.
pub open spec fn scaled_even(n: int, d: int, z: int) -> int {
    if z >= 0 {
        round_even(n, d * pow2(z as nat))
    } else {
        round_even(n * pow2((-z) as nat), d)
    }
}

/// `n / d` is below `2^z`.
pub open spec fn is_below(n: int, d: int, z: int) -> bool {
    if z >= 0 {
        n < d * pow2(z as nat)
    } else {
        n * pow2((-z) as nat) < d
    }
}

/// The least scale from `s` on at which `n / (d * 2^k)` has no more than 53 binary
/// digits before the point, but at most the greatest scale that a double has.
pub open spec fn double_scale(n: int, d: int, k: int, s: int) -> int
    decreases 971 - s,
{
    if s >= 971 || is_below(n, d, k + s + 53) {
        s
    } else {
        double_scale(n, d, k, s + 1)
    }
}

/// The double nearest to `n / (d * 2^k)`, as a significand and a scale; `None` if
/// that is infinite.
pub open spec fn nearest_double(n: int, d: int, k: int) -> Option<(int, int)> {
    let s = double_scale(n, d, k, -1074);
    let q = scaled_even(n, d, k + s);
    if s == 971 && q >= pow2(53) {
        None
    } else {
        Some((q, s))
    }
}

/// `n / (d * 2^k)` as a double, rounded to whole seconds and limited to 64 bits;
/// `None` if it is infinite.
pub open spec fn seconds_of(n: int, d: int, k: int) -> Option<int> {
    match nearest_double(n, d, k) {
        Some((q, s)) => Some(capped(round_scaled(q, s), u64::MAX as int)),
        None => None,
    }
}

/// `2^(a + b)` for scales that add up to a natural number.
proof fn lemma_split(a: int, b: int)
    requires
        a >= 0,
        b >= 0,
    ensures
        pow2((a + b) as nat) == pow2(a as nat) * pow2(b as nat),
        pow2(a as nat) >= 1,
        pow2(b as nat) >= 1,
{
    lemma_pow2_adds(a as nat, b as nat);
    lemma_pow2_pos(a as nat);
    lemma_pow2_pos(b as nat);
}

/// Both sides may be scaled up.
proof fn lemma_below_scaled(n: int, d: int, z: int, t: int)
    requires
        t >= 0,
        z + t >= 0,
    ensures
        is_below(n, d, z) <==> n * pow2(t as nat) < d * pow2((z + t) as nat),
{
    if z >= 0 {
        lemma_split(z, t);
        let p = pow2(z as nat) as int;
        let f = pow2(t as nat) as int;
        assert(n < d * p <==> n * f < d * (p * f)) by (nonlinear_arith)
            requires
                f >= 1,
        ;
    } else {
        lemma_split(-z, z + t);
        let p = pow2((-z) as nat) as int;
        let f = pow2((z + t) as nat) as int;
        assert(n * p < d <==> n * (p * f) < d * f) by (nonlinear_arith)
            requires
                f >= 1,
        ;
    }
}

/// What is below a power of two is below every greater one.
proof fn lemma_below_grows(n: int, d: int, z: int, y: int)
    requires
        d > 0,
        z <= y,
        is_below(n, d, z),
    ensures
        is_below(n, d, y),
{
    let t = if z >= 0 {
        0
    } else {
        -z
    };
    lemma_below_scaled(n, d, z, t);
    lemma_below_scaled(n, d, y, t);
    lemma_split(z + t, y - z);
    let p = pow2((z + t) as nat) as int;
    let f = pow2((y - z) as nat) as int;
    assert(d * p <= d * (p * f)) by (nonlinear_arith)
        requires
            d > 0,
            p >= 1,
            f >= 1,
    ;
}

/// The scale is the one at which there are just 53 digits.
pub proof fn lemma_scale(n: int, d: int, k: int, from: int, s: int)
    requires
        d > 0,
        from <= s <= 971,
        s == 971 || is_below(n, d, k + s + 53),
        s == from || !is_below(n, d, k + s + 52),
    ensures
        double_scale(n, d, k, from) == s,
    decreases s - from,
{
    if from < s {
        if is_below(n, d, k + from + 53) {
            lemma_below_grows(n, d, k + from + 53, k + s + 52);
        }
        lemma_scale(n, d, k, from + 1, s);
    }
}

/// Rounding keeps to what is above and below.
proof fn lemma_round_even(n: int, d: int, b: int)
    requires
        d > 0,
        n >= 0,
        b >= 0,
    ensures
        round_even(n, d) >= 0,
        n < d * b ==> round_even(n, d) <= b,
        n >= d * b ==> round_even(n, d) >= b,
{
    lemma_fundamental_div_mod(n, d);
    lemma_div_pos_is_pos(n, d);
    lemma_mod_pos_bound(n, d);
    let q = n / d;
    assert(n < d * b ==> q < b) by (nonlinear_arith)
        requires
            d > 0,
            n == d * q + n % d,
            0 <= n % d < d,
    ;
    assert(n >= d * b ==> q >= b) by (nonlinear_arith)
        requires
            d > 0,
            n == d * q + n % d,
            0 <= n % d < d,
    ;
}

/// Below 53 digits before the point the significand has 53 digits at most, and
/// from there on it has more.
proof fn lemma_significand(n: int, d: int, z: int)
    requires
        n >= 0,
        d > 0,
    ensures
        scaled_even(n, d, z) >= 0,
        is_below(n, d, z + 53) ==> scaled_even(n, d, z) <= pow2(53),
        !is_below(n, d, z + 53) ==> scaled_even(n, d, z) >= pow2(53),
{
    lemma_pow2_pos(53);
    if z >= 0 {
        lemma_split(z, 53);
        let p = pow2(z as nat) as int;
        let f = pow2(53) as int;
        assert(d * (p * f) == (d * p) * f) by (nonlinear_arith);
        assert(d * p > 0) by (nonlinear_arith)
            requires
                d > 0,
                p >= 1,
        ;
        lemma_round_even(n, d * p, f);
    } else {
        lemma_pow2_pos((-z) as nat);
        lemma_below_scaled(n, d, z + 53, -z);
        let p = pow2((-z) as nat) as int;
        assert(n * p >= 0) by (nonlinear_arith)
            requires
                n >= 0,
                p >= 1,
        ;
        lemma_round_even(n * p, d, pow2(53) as int);
    }
}

/// `n / d`, rounded, a half to the even number.
fn round_half_even(n: u128, d: u64) -> (r: u128)
    requires
        d > 0,
        n < u128::MAX,
    ensures
        r == round_even(n as int, d as int),
{
    let q = n / d as u128;
    let rest = n % d as u128;
    proof {
        lemma_fundamental_div_mod(n as int, d as int);
        assert(q <= n) by (nonlinear_arith)
            requires
                n == d * q + rest,
                d >= 1,
                q >= 0,
                rest >= 0,
        ;
    }
    if 2 * rest > d as u128 || (2 * rest == d as u128 && q % 2 == 1) {
        q + 1
    } else {
        q
    }
}

/// The significand of a 64-bit number as a double.
pub open spec fn significand(m: int) -> int {
    scaled_even(m, 1, double_scale(m, 1, 0, 0))
}

/// A 64-bit number as a double: its significand and its scale.
pub fn to_double(m: u64) -> (r: (u64, i32))
    ensures
        r.0 == significand(m as int),
        r.1 == double_scale(m as int, 1, 0, 0),
        r.0 <= 0x20_0000_0000_0000,
        0 <= r.1 <= 11,
        m > 0 ==> r.0 > 0,
{
    proof {
        lemma2_to64();
        lemma2_to64_rest();
    }
    let mut s: i32 = 0;
    let mut p: u64 = 1;
    while m / p >= 0x20_0000_0000_0000
        invariant
            0 <= s <= 11,
            p == pow2(s as nat),
            p >= 1,
            p <= 0x800,
            pow2(53) == 0x20_0000_0000_0000,
            s > 0 ==> !is_below(m as int, 1, s + 52),
        decreases 11 - s,
    {
        proof {
            lemma_fundamental_div_mod(m as int, p as int);
            lemma_split(s as int, 53);
            lemma_pow2_unfold((s + 1) as nat);
            assert(m >= p * 0x20_0000_0000_0000) by (nonlinear_arith)
                requires
                    m == p * (m as int / p as int) + m as int % p as int,
                    m as int % p as int >= 0,
                    m as int / p as int >= 0x20_0000_0000_0000,
                    p >= 1,
            ;
            assert(!is_below(m as int, 1, s + 53));
            assert(p * 0x20_0000_0000_0000 <= 0xFFFF_FFFF_FFFF_FFFF);
            lemma2_to64();
            if s < 10 {
                lemma_pow2_strictly_increases((s + 1) as nat, 11);
            }
        }
        s = s + 1;
        p = p * 2;
    }
    proof {
        lemma_fundamental_div_mod(m as int, p as int);
        lemma_mod_pos_bound(m as int, p as int);
        lemma_split(s as int, 53);
        assert(m < p * 0x20_0000_0000_0000) by (nonlinear_arith)
            requires
                m == p * (m as int / p as int) + m as int % p as int,
                m as int % p as int <= p - 1,
                m as int / p as int <= 0x1F_FFFF_FFFF_FFFF,
                p >= 1,
        ;
        assert(is_below(m as int, 1, s + 53));
        lemma_scale(m as int, 1, 0, 0, s as int);
        lemma_significand(m as int, 1, s as int);
    }
    let q = round_half_even(m as u128, p);
    proof {
        if m > 0 && s > 0 {
            lemma_split(s - 1, 1);
            lemma_split(s as int, 52);
            lemma_round_even(m as int, p as int, 1);
            assert(p <= p * pow2(52)) by (nonlinear_arith)
                requires
                    pow2(52) >= 1,
                    p >= 1,
            ;
        }
    }
    (q as u64, s)
}

/// `n / (d * 2^k)` as a double, in whole seconds; `None` if it is infinite.
pub fn quotient_seconds(n: u32, d: u64, k: i32) -> (r: Option<u64>)
    requires
        0 < d <= 0x20_0000_0000_0000,
        -0x8000 <= k <= 0x8000,
    ensures
        (match r {
            Some(seconds) => Some(seconds as int),
            None => None,
        }) == seconds_of(n as int, d as int, k as int),
{
    proof {
        lemma2_to64();
        lemma2_to64_rest();
    }
    if n == 0 {
        proof {
            lemma_nothing(d as int, k as int);
        }
        return Some(0);
    }
    let low = d as u128 * 0x10_0000_0000_0000;
    let mut a: u128 = n as u128;
    let mut t: i32 = 0;
    assert(n * pow2(0) == n) by (nonlinear_arith)
        requires
            pow2(0) == 1,
    ;
    while a < low
        invariant
            0 < d <= 0x20_0000_0000_0000,
            0 < n,
            low == d * 0x10_0000_0000_0000,
            a == n * pow2(t as nat),
            0 < a < 2 * low,
            0 <= t <= 106,
            t == 0 ==> a < low,
        decreases 2 * low - a,
    {
        proof {
            lemma_pow2_unfold((t + 1) as nat);
            let p = pow2(t as nat) as int;
            assert(n * (2 * p) == 2 * (n * p)) by (nonlinear_arith);
            assert(t < 106) by {
                if t == 106 {
                    lemma2_to64_rest();
                    lemma_split(53, 53);
                    assert(n * p >= p) by (nonlinear_arith)
                        requires
                            n >= 1,
                            p >= 0,
                    ;
                    assert(pow2(53) * pow2(53) == 0x20_0000_0000_0000 * 0x20_0000_0000_0000) by {
                        assert(pow2(53) == 0x20_0000_0000_0000);
                    }
                }
            }
        }
        a = a * 2;
        t = t + 1;
    }
    let q = round_half_even(a, d);
    let s = -t - k;
    proof {
        let (n, d, k, t) = (n as int, d as int, k as int, t as int);
        lemma_below_scaled(n, d, -t + 53, t);
        lemma_below_scaled(n, d, -t + 52, t);
        assert(d * pow2(53) == 2 * low && d * pow2(52) == low) by {
            assert(pow2(53) == 0x20_0000_0000_0000 && pow2(52) == 0x10_0000_0000_0000);
        }
        assert(is_below(n, d, -t + 53));
        assert(!is_below(n, d, -t + 52));
        assert(q == scaled_even(n, d, -t));
        lemma_significand(n, d, -t);
        if s < -1074 {
            lemma_below_grows(n, d, -t + 53, k - 1074 + 53);
            lemma_scale(n, d, k, -1074, -1074);
            lemma_significand(n, d, k - 1074);
            lemma_vanishes(scaled_even(n, d, k - 1074), 1074);
        } else if s > 971 {
            if is_below(n, d, k + 971 + 53) {
                lemma_below_grows(n, d, k + 971 + 53, -t + 52);
            }
            if is_below(n, d, k + 971 + 52) {
                lemma_below_grows(n, d, k + 971 + 52, -t + 52);
            }
            lemma_scale(n, d, k, -1074, 971);
            lemma_significand(n, d, k + 971);
        } else {
            lemma_scale(n, d, k, -1074, s as int);
        }
    }
    if s < -1074 {
        return Some(0);
    }
    if s > 971 || (s == 971 && q >= 0x20_0000_0000_0000) {
        return None;
    }
    Some(round_scaled_capped(q as u64, s, u64::MAX))
}

/// A significand far enough behind the point is rounded away.
proof fn lemma_vanishes(q: int, e: nat)
    requires
        0 <= q <= pow2(53),
        e > 55,
    ensures
        round_scaled(q, -e) == 0,
{
    lemma2_to64();
    lemma2_to64_rest();
    lemma_pow2_strictly_increases(55, e);
    let p = pow2(e) as int;
    lemma_fundamental_div_mod_converse(2 * q + p, 2 * p, 0, 2 * q + p);
}

/// Nothing lasts no time.
proof fn lemma_nothing(d: int, k: int)
    requires
        d > 0,
    ensures
        seconds_of(0, d, k) == Some(0int),
{
    let z = k - 1074 + 53;
    let t = if z >= 0 {
        0
    } else {
        -z
    };
    lemma_below_scaled(0, d, z, t);
    lemma_pow2_pos(t as nat);
    lemma_pow2_pos((z + t) as nat);
    let p = pow2((z + t) as nat) as int;
    assert(0 * pow2(t as nat) < d * p) by (nonlinear_arith)
        requires
            d > 0,
            p >= 1,
    ;
    assert(is_below(0, d, z));
    lemma_scale(0, d, k, -1074, -1074);
    lemma_significand(0, d, k - 1074);
    lemma_vanishes(scaled_even(0, d, k - 1074), 1074);
}

} // verus!
