//! Products of doubles: what a count times a double comes to, worked out on the bits of the
//! double. A double is given by its 64 bits: the sign, eleven bits of exponent and 52 of fraction.

use vstd::arithmetic::div_mod::{lemma_div_is_ordered, lemma_div_multiples_vanish_quotient, lemma_fundamental_div_mod, lemma_fundamental_div_mod_converse};
use vstd::arithmetic::power2::{lemma_pow2_adds, lemma_pow2_pos, lemma_pow2_strictly_increases, lemma_pow2_unfold, pow2};
use vstd::prelude::*;

verus! {

/// The bits of the fraction.
pub open spec fn fraction(p: u64) -> nat {
    (p % 0x10_0000_0000_0000) as nat
}

/// The bits of the exponent.
pub open spec fn exponent(p: u64) -> nat {
    (p / 0x10_0000_0000_0000 % 0x800) as nat
}

/// Whether the sign is a minus.
pub open spec fn is_negative(p: u64) -> bool {
    p >= 0x8000_0000_0000_0000
}

/// Whether `p` is not a number.
pub open spec fn is_nan(p: u64) -> bool {
    exponent(p) == 0x7ff && fraction(p) != 0
}

/// The significant digits of the double, as a whole number.
pub open spec fn significand(p: u64) -> nat {
    if exponent(p) == 0 {
        fraction(p)
    } else {
        0x10_0000_0000_0000 + fraction(p)
    }
}

/// How often the significand is doubled.
pub open spec fn scale(p: u64) -> nat {
    if exponent(p) == 0 {
        0
    } else {
        (exponent(p) - 1) as nat
    }
}

/// The size of the double, in the smallest unit that doubles have: there are `2^1074` of them
/// in 1.
pub open spec fn units(p: u64) -> nat {
    significand(p) * pow2(scale(p))
}

/// The distance between the doubles around the whole number `x`: the smallest power of two that
/// leaves 53 digits of `x`.
pub open spec fn spacing(x: nat) -> nat
    decreases x,
{
    if x < 0x20_0000_0000_0000 {
        1
    } else {
        2 * spacing(x / 2)
    }
}

/// The whole number that a double can hold and that is nearest to `x`; of two that are as near,
/// the one whose last digit is even.
pub open spec fn nearest(x: nat) -> nat {
    let low = x / spacing(x);
    let rest = x % spacing(x);
    if 2 * rest < spacing(x) || (2 * rest == spacing(x) && low % 2 == 0) {
        low * spacing(x)
    } else {
        (low + 1) * spacing(x)
    }
}

/// The whole number nearest to the product of `n` and the double `p`, where the two and their
/// product are doubles; the larger one where two are as near. It is 0 where `p` is negative or
/// not a number.
pub open spec fn times_rounded(n: nat, p: u64) -> nat {
    if is_negative(p) || is_nan(p) {
        0
    } else {
        (nearest(nearest(n) * units(p)) + pow2(1073)) / pow2(1074)
    }
}

/// Whether `p` is from 0 to 1.
pub open spec fn is_share(p: u64) -> bool {
    (is_negative(p) ==> units(p) == 0) && units(p) <= pow2(1074)
}

proof fn lemma_spacing(x: nat)
    ensures
        0 < spacing(x),
        x < 0x20_0000_0000_0000 * spacing(x),
        x >= 0x20_0000_0000_0000 ==> x >= 0x10_0000_0000_0000 * spacing(x),
    decreases x,
{
    if x >= 0x20_0000_0000_0000 {
        lemma_spacing(x / 2);
    }
}

proof fn lemma_spacing_grows(x: nat, y: nat)
    requires
        x <= y,
    ensures
        spacing(x) == spacing(y) || 2 * spacing(x) <= spacing(y),
    decreases y,
{
    if x >= 0x20_0000_0000_0000 {
        lemma_spacing_grows(x / 2, y / 2);
    } else if y >= 0x20_0000_0000_0000 {
        lemma_spacing(y / 2);
    }
}

proof fn lemma_nearest_of_small(x: nat)
    requires
        x < 0x20_0000_0000_0000,
    ensures
        nearest(x) == x,
{
    assert(spacing(x) == 1);
    assert(x / 1 == x && x % 1 == 0);
    assert(x / spacing(x) == x && x % spacing(x) == 0);
    assert(x * 1 == x);
}

proof fn lemma_nearest_doubles(x: nat)
    ensures
        nearest(2 * x) == 2 * nearest(x),
{
    if 2 * x < 0x20_0000_0000_0000 {
        lemma_nearest_of_small(x);
        lemma_nearest_of_small(2 * x);
    } else {
        let u = spacing(x);
        lemma_spacing(x);
        assert((2 * x) / 2 == x);
        assert(spacing(2 * x) == 2 * u);
        let low = x / u;
        let rest = x % u;
        lemma_fundamental_div_mod(x as int, u as int);
        assert(2 * x == low * (2 * u) + 2 * rest) by (nonlinear_arith)
            requires
                x == u * low + rest,
        ;
        lemma_fundamental_div_mod_converse(
            2 * x as int,
            2 * u as int,
            low as int,
            2 * rest as int,
        );
        assert((2 * x) / spacing(2 * x) == low);
        assert((2 * x) % spacing(2 * x) == 2 * rest);
        assert(low * (2 * u) == 2 * (low * u)) by (nonlinear_arith);
        assert((low + 1) * (2 * u) == 2 * ((low + 1) * u)) by (nonlinear_arith);
    }
}

proof fn lemma_nearest_scales(x: nat, k: nat)
    ensures
        nearest(x * pow2(k)) == nearest(x) * pow2(k),
    decreases k,
{
    if k == 0 {
        vstd::arithmetic::power2::lemma2_to64();
    } else {
        let fewer = (k - 1) as nat;
        lemma_nearest_scales(x, fewer);
        lemma_pow2_unfold(k);
        let y = x * pow2(fewer);
        assert(x * pow2(k) == 2 * y) by (nonlinear_arith)
            requires
                pow2(k) == 2 * pow2(fewer),
                y == x * pow2(fewer),
        ;
        assert(nearest(x) * pow2(k) == 2 * (nearest(x) * pow2(fewer))) by (nonlinear_arith)
            requires
                pow2(k) == 2 * pow2(fewer),
        ;
        lemma_nearest_doubles(y);
    }
}

proof fn lemma_nearest_bounds(x: nat)
    ensures
        (x / spacing(x)) * spacing(x) <= nearest(x) <= (x / spacing(x) + 1) * spacing(x),
        x / spacing(x) < 0x20_0000_0000_0000,
        x >= 0x20_0000_0000_0000 ==> x / spacing(x) >= 0x10_0000_0000_0000,
        2 * nearest(x) <= 2 * x + spacing(x),
{
    let u = spacing(x);
    let low = x / u;
    let rest = x % u;
    lemma_spacing(x);
    lemma_fundamental_div_mod(x as int, u as int);
    assert(low * u <= (low + 1) * u) by (nonlinear_arith);
    assert(x == low * u + rest) by (nonlinear_arith)
        requires
            x == u * low + rest,
    ;
    assert((low + 1) * u == low * u + u) by (nonlinear_arith);
    assert(low < 0x20_0000_0000_0000) by (nonlinear_arith)
        requires
            low * u <= x,
            x < 0x20_0000_0000_0000 * u,
            u > 0,
    ;
    if x >= 0x20_0000_0000_0000 {
        assert(low >= 0x10_0000_0000_0000) by (nonlinear_arith)
            requires
                x < (low + 1) * u,
                x >= 0x10_0000_0000_0000 * u,
                u > 0,
        ;
    }
}

proof fn lemma_nearest_is_monotone(x: nat, y: nat)
    requires
        x <= y,
    ensures
        nearest(x) <= nearest(y),
{
    lemma_nearest_bounds(x);
    lemma_nearest_bounds(y);
    lemma_spacing(x);
    lemma_spacing(y);
    lemma_spacing_grows(x, y);
    let u = spacing(x);
    let v = spacing(y);
    let low_x = x / u;
    let low_y = y / v;
    if u == v {
        lemma_div_is_ordered(x as int, y as int, u as int);
        if low_x < low_y {
            assert((low_x + 1) * u <= low_y * u) by (nonlinear_arith)
                requires
                    low_x + 1 <= low_y,
            ;
        } else {
            lemma_fundamental_div_mod(x as int, u as int);
            lemma_fundamental_div_mod(y as int, u as int);
            assert(low_x * u <= (low_x + 1) * u) by (nonlinear_arith);
        }
    } else {
        lemma_spacing_of_large(y);
        assert((low_x + 1) * u <= 0x20_0000_0000_0000 * u) by (nonlinear_arith)
            requires
                low_x + 1 <= 0x20_0000_0000_0000,
        ;
        assert(0x10_0000_0000_0000 * v <= low_y * v) by (nonlinear_arith)
            requires
                low_y >= 0x10_0000_0000_0000,
        ;
    }
}

proof fn lemma_spacing_of_large(x: nat)
    requires
        spacing(x) > 1,
    ensures
        x >= 0x20_0000_0000_0000,
{
}

proof fn lemma_product_of_units(n: nat, p: u64)
    ensures
        nearest(n * units(p)) == nearest(n * significand(p)) * pow2(scale(p)),
{
    let m = significand(p);
    lemma_nearest_scales(n * m, scale(p));
    assert(n * units(p) == (n * m) * pow2(scale(p))) by (nonlinear_arith)
        requires
            units(p) == m * pow2(scale(p)),
    ;
}

proof fn lemma_powers()
    ensures
        pow2(0) == 1,
        pow2(52) == 0x10_0000_0000_0000,
        pow2(53) == 0x20_0000_0000_0000,
        pow2(120) == 0x100_0000_0000_0000_0000_0000_0000_0000,
{
    vstd::arithmetic::power2::lemma2_to64();
    vstd::arithmetic::power2::lemma2_to64_rest();
    lemma_pow2_adds(60, 60);
}

/// A larger double has no fewer units: for doubles that are not negative, their bits have the
/// order of their sizes.
pub proof fn law_units_follow_the_bits(p: u64, q: u64)
    requires
        p <= q,
        !is_negative(q),
    ensures
        units(p) <= units(q),
{
    let s = scale(p);
    let t = scale(q);
    let m = significand(p);
    let n = significand(q);
    lemma_pow2_pos(s);
    lemma_pow2_pos(t);
    lemma_powers();
    if exponent(p) == exponent(q) {
        assert(m * pow2(s) <= n * pow2(s)) by (nonlinear_arith)
            requires
                m <= n,
        ;
    } else if exponent(p) == 0 {
        assert(m * pow2(s) <= n * pow2(t)) by (nonlinear_arith)
            requires
                m <= n,
                pow2(s) == 1,
                pow2(t) >= 1,
        ;
    } else {
        lemma_pow2_unfold(s + 1);
        if s + 1 < t {
            lemma_pow2_strictly_increases(s + 1, t);
        }
        assert(m * pow2(s) <= n * pow2(t)) by (nonlinear_arith)
            requires
                m <= 2 * n,
                2 * pow2(s) <= pow2(t),
        ;
    }
}

/// The product of a count with a larger share is not smaller.
pub proof fn law_product_grows_with_the_share(n: nat, p: u64, q: u64)
    requires
        is_share(p),
        is_share(q),
        units(p) <= units(q),
    ensures
        times_rounded(n, p) <= times_rounded(n, q),
{
    lemma_share_is_a_number(p);
    lemma_share_is_a_number(q);
    lemma_product_with_nothing(n, p);
    lemma_product_with_nothing(n, q);
    if !is_negative(p) && !is_negative(q) {
        let y = nearest(n);
        assert(y * units(p) <= y * units(q)) by (nonlinear_arith)
            requires
                units(p) <= units(q),
        ;
        lemma_nearest_is_monotone(y * units(p), y * units(q));
        lemma_pow2_pos(1074);
        lemma_div_is_ordered(
            (nearest(y * units(p)) + pow2(1073)) as int,
            (nearest(y * units(q)) + pow2(1073)) as int,
            pow2(1074) as int,
        );
    }
}

proof fn lemma_share_is_a_number(p: u64)
    requires
        is_share(p),
    ensures
        !is_nan(p),
{
    if exponent(p) == 0x7ff {
        let m = significand(p);
        lemma_pow2_strictly_increases(1074, scale(p));
        assert(m * pow2(2046) > pow2(1074)) by (nonlinear_arith)
            requires
                m >= 1,
                pow2(2046) > pow2(1074),
        ;
    }
}

proof fn lemma_product_with_nothing(n: nat, p: u64)
    ensures
        units(p) == 0 ==> times_rounded(n, p) == 0,
{
    if units(p) == 0 {
        assert(nearest(n) * units(p) == 0) by (nonlinear_arith)
            requires
                units(p) == 0,
        ;
        lemma_nearest_of_small(0);
        lemma_pow2_pos(1073);
        lemma_pow2_unfold(1074);
        vstd::arithmetic::div_mod::lemma_basic_div(pow2(1073) as int, pow2(1074) as int);
    }
}

/// The product of a count with 0 is 0, and with 1 it is the count; so with any share it is at
/// most the count. The count is one that a double can hold with all below it.
pub proof fn law_product_with_share_is_at_most_the_count(n: nat, p: u64)
    requires
        n < 0x20_0000_0000_0000,
        is_share(p),
    ensures
        times_rounded(n, p) <= n,
        units(p) == 0 ==> times_rounded(n, p) == 0,
        units(p) == pow2(1074) ==> times_rounded(n, p) == n,
{
    lemma_share_is_a_number(p);
    lemma_product_with_nothing(n, p);
    lemma_nearest_of_small(n);
    lemma_nearest_scales(n, 1074);
    lemma_pow2_pos(1073);
    lemma_pow2_unfold(1074);
    assert(n * units(p) <= n * pow2(1074)) by (nonlinear_arith)
        requires
            units(p) <= pow2(1074),
    ;
    lemma_nearest_is_monotone(n * units(p), n * pow2(1074));
    let most = n * pow2(1074) + pow2(1073);
    assert(most == pow2(1074) * n + pow2(1073)) by (nonlinear_arith)
        requires
            most == n * pow2(1074) + pow2(1073),
    ;
    vstd::arithmetic::div_mod::lemma_div_multiples_vanish_fancy(
        n as int,
        pow2(1073) as int,
        pow2(1074) as int,
    );
    lemma_div_is_ordered(
        (nearest(n * units(p)) + pow2(1073)) as int,
        most as int,
        pow2(1074) as int,
    );
}

/// The distance between the doubles around `x`.
fn spacing_of(x: u128) -> (r: u128)
    ensures
        r == spacing(x as nat),
        r <= x || r == 1,
    decreases x,
{
    if x < 0x20_0000_0000_0000 {
        1
    } else {
        2 * spacing_of(x / 2)
    }
}

/// The whole number that a double can hold and that is nearest to `x`.
fn nearest_of(x: u128) -> (r: u128)
    requires
        x <= 0x100_0000_0000_0000_0000_0000_0000_0000,
    ensures
        r == nearest(x as nat),
        r <= 2 * x,
{
    let u: u128 = spacing_of(x);
    proof {
        lemma_spacing(x as nat);
        lemma_nearest_bounds(x as nat);
        lemma_fundamental_div_mod(x as int, u as int);
        if x == 0 {
            lemma_nearest_of_small(0);
        }
    }
    let low: u128 = x / u;
    let rest: u128 = x % u;
    assert(low * u <= x) by (nonlinear_arith)
        requires
            x == u * low + rest,
            rest >= 0,
    ;
    assert((low + 1) * u == low * u + u) by (nonlinear_arith);
    if 2 * rest < u || (2 * rest == u && low % 2 == 0) {
        low * u
    } else {
        (low + 1) * u
    }
}

/// `2^k`.
fn power(k: u64) -> (r: u128)
    requires
        k <= 120,
    ensures
        r == pow2(k as nat),
        r <= 0x100_0000_0000_0000_0000_0000_0000_0000,
{
    proof {
        lemma_powers();
    }
    let mut r: u128 = 1;
    let mut i: u64 = 0;
    while i < k
        invariant
            i <= k <= 120,
            r == pow2(i as nat),
            r <= 0x100_0000_0000_0000_0000_0000_0000_0000,
        decreases k - i,
    {
        proof {
            lemma_powers();
            lemma_pow2_unfold((i + 1) as nat);
            if i + 1 < 120 {
                lemma_pow2_strictly_increases((i + 1) as nat, 120);
            }
        }
        r = r * 2;
        i += 1;
    }
    r
}

proof fn lemma_quotient_of_small(z: nat, s: nat)
    requires
        s < 1074,
    ensures
        (z * pow2(s) + pow2(1073)) / pow2(1074) == (z + pow2((1073 - s) as nat)) / pow2(
            (1074 - s) as nat,
        ),
{
    let half = pow2((1073 - s) as nat);
    let whole = pow2((1074 - s) as nat);
    lemma_pow2_adds(s, (1073 - s) as nat);
    lemma_pow2_adds(s, (1074 - s) as nat);
    lemma_pow2_pos(s);
    lemma_pow2_pos((1074 - s) as nat);
    assert(z * pow2(s) + pow2(s) * half == pow2(s) * (z + half)) by (nonlinear_arith);
    lemma_div_multiples_vanish_quotient(pow2(s) as int, (z + half) as int, whole as int);
}

proof fn lemma_quotient_of_large(z: nat, s: nat)
    requires
        s >= 1074,
    ensures
        (z * pow2(s) + pow2(1073)) / pow2(1074) == z * pow2((s - 1074) as nat),
{
    let r = z * pow2((s - 1074) as nat);
    lemma_pow2_adds(1074, (s - 1074) as nat);
    lemma_pow2_pos(1073);
    lemma_pow2_unfold(1074);
    assert(z * pow2(s) == pow2(1074) * r) by (nonlinear_arith)
        requires
            r == z * pow2((s - 1074) as nat),
            pow2(s) == pow2(1074) * pow2((s - 1074) as nat),
    ;
    vstd::arithmetic::div_mod::lemma_div_multiples_vanish_fancy(
        r as int,
        pow2(1073) as int,
        pow2(1074) as int,
    );
}

/// `z`, doubled `k` times.
fn doubled(z: u128, k: u64) -> (r: u64)
    requires
        z * pow2(k as nat) <= u64::MAX,
    ensures
        r == z * pow2(k as nat),
{
    proof {
        lemma_powers();
        assert(z * pow2(0) == z) by (nonlinear_arith)
            requires
                pow2(0) == 1,
        ;
        lemma_pow2_pos(k as nat);
        assert(z <= z * pow2(k as nat)) by (nonlinear_arith)
            requires
                pow2(k as nat) >= 1,
        ;
    }
    let mut r: u64 = z as u64;
    let mut i: u64 = 0;
    while i < k
        invariant
            i <= k,
            r == z * pow2(i as nat),
            z * pow2(k as nat) <= u64::MAX,
        decreases k - i,
    {
        proof {
            lemma_pow2_unfold((i + 1) as nat);
            assert(z * pow2((i + 1) as nat) == 2 * (z * pow2(i as nat))) by (nonlinear_arith)
                requires
                    pow2((i + 1) as nat) == 2 * pow2(i as nat),
            ;
            if i + 1 < k {
                lemma_pow2_strictly_increases((i + 1) as nat, k as nat);
                assert(z * pow2((i + 1) as nat) <= z * pow2(k as nat)) by (nonlinear_arith)
                    requires
                        pow2((i + 1) as nat) <= pow2(k as nat),
                ;
            }
        }
        r = r * 2;
        i += 1;
    }
    r
}

/// The whole number nearest to the product of `n` and the double `p`.
pub fn rounded_product(n: u64, p: u64) -> (r: u64)
    requires
        times_rounded(n as nat, p) <= u64::MAX,
    ensures
        r == times_rounded(n as nat, p),
{
    let fraction: u64 = p % 0x10_0000_0000_0000;
    let exponent: u64 = p / 0x10_0000_0000_0000 % 0x800;
    if p >= 0x8000_0000_0000_0000 || (exponent == 0x7ff && fraction != 0) {
        return 0;
    }
    let significand: u64 = if exponent == 0 {
        fraction
    } else {
        0x10_0000_0000_0000 + fraction
    };
    let scale: u64 = if exponent == 0 {
        0
    } else {
        exponent - 1
    };
    let x: u128 = nearest_of(n as u128);
    assert(0 <= x * significand <= 0x2_0000_0000_0000_0000 * 0x20_0000_0000_0000)
        by (nonlinear_arith)
        requires
            0 <= x <= 0x2_0000_0000_0000_0000,
            0 <= significand < 0x20_0000_0000_0000,
    ;
    let z: u128 = nearest_of(x * (significand as u128));
    proof {
        lemma_product_of_units(x as nat, p);
    }
    if scale >= 1074 {
        proof {
            lemma_quotient_of_large(z as nat, scale as nat);
        }
        doubled(z, scale - 1074)
    } else {
        let k: u64 = 1074 - scale;
        proof {
            lemma_quotient_of_small(z as nat, scale as nat);
            lemma_powers();
            lemma_pow2_unfold(k as nat);
            if k > 121 {
                lemma_pow2_strictly_increases(120, (k - 1) as nat);
            }
        }
        if k > 120 {
            proof {
                vstd::arithmetic::div_mod::lemma_basic_div(
                    z + pow2((k - 1) as nat),
                    pow2(k as nat) as int,
                );
            }
            return 0;
        }
        let half: u128 = power(k - 1);
        let whole: u128 = power(k);
        proof {
            lemma_pow2_pos(k as nat);
        }
        ((z + half) / whole) as u64
    }
}

/// A double that holds a whole number exceeds it by a small part of it at most.
proof fn lemma_nearest_is_near(x: nat)
    ensures
        nearest(x) * 0x20_0000_0000_0000 <= x * 0x20_0000_0000_0001,
{
    lemma_nearest_bounds(x);
    lemma_spacing(x);
    if x < 0x20_0000_0000_0000 {
        lemma_nearest_of_small(x);
    }
}

/// A share that is a little below 1 gives at most the count, however large that is.
pub proof fn lemma_product_below_the_count(n: nat, p: u64)
    requires
        !is_negative(p),
        exponent(p) == 1022,
        significand(p) * 0x20_0000_0000_0001 * 0x20_0000_0000_0001 <= 0x20_0000_0000_0000
            * 0x20_0000_0000_0000 * 0x20_0000_0000_0000,
    ensures
        times_rounded(n, p) <= n,
{
    let m = significand(p);
    let y = nearest(n);
    let z = nearest(y * m);
    let b: nat = 0x20_0000_0000_0000;
    let c: nat = 0x20_0000_0000_0001;
    lemma_nearest_is_near(n);
    lemma_nearest_is_near(y * m);
    lemma_product_of_units(y, p);
    lemma_quotient_of_small(z, 1021);
    lemma_powers();
    assert(z <= n * b) by (nonlinear_arith)
        requires
            y * b <= n * c,
            z * b <= (y * m) * c,
            m * c * c <= b * b * b,
            b > 0,
    {
        assert(z * b * b <= (y * m) * c * b);
        assert((y * m) * c * b == (y * b) * (m * c));
        assert((y * b) * (m * c) <= (n * c) * (m * c));
        assert((n * c) * (m * c) == n * (m * c * c));
        assert(n * (m * c * c) <= n * (b * b * b));
        assert(n * (b * b * b) == (n * b) * b * b);
        assert(z * b * b <= (n * b) * b * b);
    }
    vstd::arithmetic::div_mod::lemma_div_multiples_vanish_fancy(
        n as int,
        pow2(52) as int,
        b as int,
    );
    lemma_div_is_ordered((z + pow2(52)) as int, (b * n + pow2(52)) as int, b as int);
}

/// The smallest doubles are as many units as their bits say; after that, one more in the exponent
/// is twice as many; and the sign changes nothing.
pub proof fn law_units_of_the_bits(p: u64)
    ensures
        p < 0x20_0000_0000_0000 ==> units(p) == p,
        0x10_0000_0000_0000 <= p < 0x7ff0_0000_0000_0000 ==> units(
            (p + 0x10_0000_0000_0000) as u64,
        ) == 2 * units(p),
        p < 0x8000_0000_0000_0000 ==> units((p + 0x8000_0000_0000_0000) as u64) == units(p),
{
    lemma_powers();
    if p < 0x20_0000_0000_0000 {
        assert(scale(p) == 0);
        assert(significand(p) == p);
        assert(significand(p) * pow2(0) == p) by (nonlinear_arith)
            requires
                significand(p) == p,
                pow2(0) == 1,
        ;
    }
    if 0x10_0000_0000_0000 <= p < 0x7ff0_0000_0000_0000 {
        let q = (p + 0x10_0000_0000_0000) as u64;
        let m = significand(p);
        assert(significand(q) == m);
        assert(scale(q) == scale(p) + 1);
        lemma_pow2_unfold(scale(q));
        assert(m * pow2(scale(q)) == 2 * (m * pow2(scale(p)))) by (nonlinear_arith)
            requires
                pow2(scale(q)) == 2 * pow2(scale(p)),
        ;
    }
}

/// A double is negative where its first bit is set, and not a number where, but for that bit, it
/// is beyond the infinite; it is a share where it is from 0 to 1.
pub proof fn law_kinds_of_doubles(p: u64)
    ensures
        is_negative(p) <==> p / 0x8000_0000_0000_0000 == 1,
        is_nan(p) <==> p % 0x8000_0000_0000_0000 > 0x7ff0_0000_0000_0000,
        p <= 0x3ff0_0000_0000_0000 ==> is_share(p),
        is_share(0x8000_0000_0000_0000),
        units(0) == 0,
        units(0x3ff0_0000_0000_0000) == pow2(1074),
{
    lemma_powers();
    law_units_of_the_bits(0);
    let one: u64 = 0x3ff0_0000_0000_0000;
    assert(exponent(one) == 1023 && fraction(one) == 0);
    assert(significand(one) == 0x10_0000_0000_0000 && scale(one) == 1022);
    lemma_pow2_adds(52, 1022);
    if p <= one {
        law_units_follow_the_bits(p, one);
    }
}

/// Rounding to a double gives a whole multiple of the spacing that is at most half of it away; of
/// two that are as near, the even one. The spacing leaves 53 digits, so a number of no more digits
/// is not changed.
pub proof fn law_nearest_is_at_most_half_a_spacing_away(x: nat)
    ensures
        ({
            let u = spacing(x);
            let q = nearest(x) / u;
            &&& nearest(x) == q * u
            &&& 2 * nearest(x) <= 2 * x + u
            &&& 2 * x <= 2 * nearest(x) + u
            &&& 2 * nearest(x) == 2 * x + u || 2 * x == 2 * nearest(x) + u ==> q % 2 == 0
            &&& x < 0x20_0000_0000_0000 ==> nearest(x) == x && u == 1
            &&& x >= 0x20_0000_0000_0000 ==> 0x10_0000_0000_0000 * u <= x < 0x20_0000_0000_0000 * u
        }),
{
    let u = spacing(x);
    let low = x / u;
    let rest = x % u;
    lemma_spacing(x);
    lemma_nearest_bounds(x);
    lemma_fundamental_div_mod(x as int, u as int);
    assert(x == low * u + rest) by (nonlinear_arith)
        requires
            x == u * low + rest,
    ;
    assert((low + 1) * u == low * u + u) by (nonlinear_arith);
    vstd::arithmetic::div_mod::lemma_div_by_multiple(low as int, u as int);
    vstd::arithmetic::div_mod::lemma_div_by_multiple((low + 1) as int, u as int);
    if x < 0x20_0000_0000_0000 {
        lemma_nearest_of_small(x);
    }
}

/// The spacing is one up to 53 digits, and twice that of the half after that.
pub proof fn law_spacing_doubles_with_the_number(x: nat)
    ensures
        x < 0x20_0000_0000_0000 ==> spacing(x) == 1,
        x >= 0x20_0000_0000_0000 ==> spacing(x) == 2 * spacing(x / 2),
{
}

/// The product is the whole number that is at most a half away from the product of the doubles,
/// and the larger one of two; a negative double, and one that is not a number, give 0.
pub proof fn law_product_is_at_most_half_away(n: nat, p: u64)
    ensures
        is_negative(p) || is_nan(p) ==> times_rounded(n, p) == 0,
        !is_negative(p) && !is_nan(p) ==> {
            let product = nearest(nearest(n) * units(p));
            let r = times_rounded(n, p);
            &&& r * pow2(1074) <= product + pow2(1073)
            &&& product + pow2(1073) < (r + 1) * pow2(1074)
        },
{
    if !is_negative(p) && !is_nan(p) {
        let y = nearest(nearest(n) * units(p)) + pow2(1073);
        let d = pow2(1074);
        let r = times_rounded(n, p);
        lemma_pow2_pos(1074);
        lemma_fundamental_div_mod(y as int, d as int);
        assert(y % d < d);
        assert(r * d <= y && y < (r + 1) * d) by (nonlinear_arith)
            requires
                y == d * r + (y % d),
                0 <= y % d < d,
        ;
    }
}

} // verus!
