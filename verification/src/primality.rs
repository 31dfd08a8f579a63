//! Primes: Euclid's lemma, and a criterion by which numbers too large for trial
//! division are shown to be prime.
//!
//! The criterion: where the powers of some base below an exponent are distinct
//! modulo each divisor of `n`, no divisor but one is below that exponent. An
//! exponent above the square root of `n` leaves `n` no proper divisor.

use vstd::arithmetic::div_mod::*;
use vstd::arithmetic::mul::*;
use vstd::arithmetic::power::*;
use vstd::arithmetic::power2::*;
use vstd::prelude::*;
use vstd::set_lib::*;

verus! {

/// Whether a number above one has no divisor but one and itself.
pub open spec fn is_prime(n: int) -> bool {
    &&& n > 1
    &&& forall|d: int| 1 < d < n ==> #[trigger] (n % d) != 0
}

/// Euclid's lemma: a prime that divides a product divides a factor.
pub proof fn lemma_euclid(n: int, a: int, b: int)
    requires
        is_prime(n),
        (a * b) % n == 0,
    ensures
        a % n == 0 || b % n == 0,
{
    if a % n != 0 {
        let r = a % n;
        lemma_mod_bound(a, n);
        lemma_mul_mod_noop_left(a, b, n);
        lemma_euclid_below(n, r, b);
    }
}

proof fn lemma_euclid_below(n: int, a: int, b: int)
    requires
        is_prime(n),
        0 < a < n,
        (a * b) % n == 0,
    ensures
        b % n == 0,
    decreases a,
{
    if a == 1 {
        assert(a * b == b);
    } else {
        let q = n / a;
        let r = n % a;
        lemma_fundamental_div_mod(n, a);
        lemma_mod_bound(n, a);
        assert(r * b == n * b - q * (a * b)) by (nonlinear_arith)
            requires
                n == a * q + r,
        ;
        lemma_mul_mod_noop_right(q, a * b, n);
        assert((q * (a * b)) % n == 0) by {
            assert(q * 0 == 0);
            lemma_small_mod(0, n as nat);
        }
        lemma_mod_multiples_basic(b, n);
        assert((n * b) % n == 0) by {
            lemma_mul_is_commutative(n, b);
        }
        lemma_sub_mod_noop(n * b, q * (a * b), n);
        lemma_small_mod(0, n as nat);
        assert((r * b) % n == 0);
        lemma_euclid_below(n, r, b);
    }
}

/// Whether `x` to the power `n` is one modulo `d`.
pub open spec fn unity(x: int, n: nat, d: int) -> bool {
    pow(x, n) % d == 1
}

/// Exponents that give one can be subtracted.
proof fn lemma_unity_subtract(x: int, a: nat, b: nat, d: int)
    requires
        d > 1,
        unity(x, a, d),
        unity(x, b, d),
        a >= b,
    ensures
        unity(x, (a - b) as nat, d),
{
    let c = (a - b) as nat;
    lemma_pow_adds(x, c, b);
    lemma_mul_mod_noop_right(pow(x, c), pow(x, b), d);
    assert(pow(x, c) * 1 == pow(x, c));
}

/// Exponents that give one can be multiplied.
proof fn lemma_unity_multiply(x: int, a: nat, k: nat, d: int)
    requires
        d > 1,
        unity(x, a, d),
    ensures
        unity(x, a * k, d),
    decreases k,
{
    if k == 0 {
        assert(a * 0 == 0);
        lemma_pow0(x);
        lemma_small_mod(1, d as nat);
    } else {
        let m = (k - 1) as nat;
        lemma_unity_multiply(x, a, m, d);
        assert(a * k == a * m + a) by (nonlinear_arith)
            requires
                k == m + 1,
        ;
        lemma_pow_adds(x, a * m, a);
        lemma_mul_mod_noop(pow(x, a * m), pow(x, a), d);
        lemma_small_mod(1, d as nat);
    }
}

/// Exponents that give one can be reduced by each other.
proof fn lemma_unity_remainder(x: int, a: nat, b: nat, d: int)
    requires
        d > 1,
        b > 0,
        unity(x, a, d),
        unity(x, b, d),
    ensures
        unity(x, a % b, d),
{
    let q = a / b;
    lemma_fundamental_div_mod(a as int, b as int);
    lemma_unity_multiply(x, b, q, d);
    lemma_unity_subtract(x, a, b * q, d);
}

/// Where a prime exponent gives one and a smaller one does, the base is one.
proof fn lemma_unity_prime(x: int, a: nat, q: nat, d: int)
    requires
        d > 1,
        is_prime(q as int),
        0 < a < q,
        unity(x, a, d),
        unity(x, q, d),
    ensures
        unity(x, 1, d),
    decreases a,
{
    if a > 1 {
        lemma_unity_remainder(x, q, a, d);
        lemma_mod_bound(q as int, a as int);
        assert((q as int) % (a as int) != 0);
        lemma_unity_prime(x, q % a, q, d);
    }
}

/// Where the base to the power of a prime is one and the base is not, every
/// exponent that gives one is a multiple of the prime.
proof fn lemma_order_prime(x: int, k: nat, q: nat, d: int)
    requires
        d > 1,
        is_prime(q as int),
        unity(x, q, d),
        !unity(x, 1, d),
        unity(x, k, d),
    ensures
        k % q == 0,
{
    if k % q != 0 {
        lemma_unity_remainder(x, k, q, d);
        lemma_mod_bound(k as int, q as int);
        lemma_unity_prime(x, k % q, q, d);
    }
}

/// Where the base to the power `2^(n-1)` is minus one, every exponent that gives
/// one is a multiple of `2^n`.
proof fn lemma_order_two(x: int, k: nat, n: nat, d: int)
    requires
        d > 2,
        n > 0,
        pow(x, pow2((n - 1) as nat)) % d == d - 1,
        unity(x, k, d),
    ensures
        k % pow2(n) == 0,
    decreases n,
{
    let half = pow2((n - 1) as nat);
    lemma_pow2_pos((n - 1) as nat);
    lemma_pow2_pos(n);
    lemma_pow2_unfold(n);
    let y = pow(x, half);
    // An odd exponent would make minus one out of one.
    if k % 2 == 1 {
        lemma_pow_multiplies(x, half, k);
        lemma_pow_multiplies(x, k, half);
        assert(half * k == k * half) by (nonlinear_arith);
        lemma_unity_multiply(x, k, half, d);
        assert(pow(y, k) % d == 1);
        lemma_minus_one_odd(y, (k / 2) as nat, d);
        assert(2 * (k / 2) + 1 == k);
        assert(false);
    }
    let k2 = k / 2;
    assert(k == 2 * k2);
    if n == 1 {
        lemma2_to64();
    } else {
        let sq = pow(x, 2);
        let m = (n - 1) as nat;
        lemma_pow2_unfold(m);
        lemma_pow_multiplies(x, 2, pow2((m - 1) as nat));
        lemma_pow_multiplies(x, 2, k2);
        lemma_order_two(sq, k2, m, d);
        lemma_pow2_pos(m);
        lemma_fundamental_div_mod(k2 as int, pow2(m) as int);
        assert(k == (k2 / pow2(m)) * pow2(n)) by (nonlinear_arith)
            requires
                k == 2 * k2,
                k2 == pow2(m) * (k2 / pow2(m)),
                pow2(n) == 2 * pow2(m),
        ;
        lemma_mod_multiples_basic((k2 / pow2(m)) as int, pow2(n) as int);
    }
}

/// Odd powers of minus one are minus one.
proof fn lemma_minus_one_odd(y: int, m: nat, d: int)
    requires
        d > 2,
        y % d == d - 1,
    ensures
        pow(y, 2 * m + 1) % d == d - 1,
    decreases m,
{
    if m == 0 {
        lemma_pow1(y);
    } else {
        let e = (2 * m - 1) as nat;
        lemma_minus_one_odd(y, (m - 1) as nat, d);
        lemma_pow_adds(y, e, 2);
        lemma_pow1(y);
        lemma_pow_adds(y, 1, 1);
        assert(pow(y, 2) == y * y);
        lemma_mul_mod_noop(y, y, d);
        assert((d - 1) * (d - 1) == 1 + d * (d - 2)) by (nonlinear_arith);
        lemma_mod_multiples_vanish(d - 2, 1, d);
        lemma_small_mod(1, d as nat);
        assert(pow(y, 2) % d == 1);
        lemma_mul_mod_noop_right(pow(y, e), pow(y, 2), d);
        assert(pow(y, e) * 1 == pow(y, e));
    }
}

/// Distinct powers: where no smaller exponent gives one, the powers below an
/// exponent that gives one are distinct, so there is room for that many residues.
pub proof fn lemma_room_for_powers(x: int, a: nat, d: int)
    requires
        d > 1,
        a > 0,
        unity(x, a, d),
        forall|k: nat| 0 < k < a ==> !#[trigger] unity(x, k, d),
    ensures
        d >= a,
{
    let s = Seq::new(a, |i: int| pow(x, i as nat) % d);
    assert forall|i: int, j: int| 0 <= i < j < a implies s[i] != s[j] by {
        if s[i] == s[j] {
            lemma_equal_powers(x, i as nat, j as nat, a, d);
        }
    }
    assert(s.no_duplicates());
    s.unique_seq_to_set();
    let residues = set_int_range(0, d);
    lemma_int_range(0, d);
    assert(s.to_set().subset_of(residues)) by {
        assert forall|r: int| s.to_set().contains(r) implies residues.contains(r) by {
            let i = choose|i: int| 0 <= i < s.len() && s[i] == r;
            lemma_mod_bound(pow(x, i as nat), d);
        }
    }
    lemma_len_subset(s.to_set(), residues);
}

proof fn lemma_equal_powers(x: int, i: nat, j: nat, a: nat, d: int)
    requires
        d > 1,
        i < j < a,
        unity(x, a, d),
        pow(x, i) % d == pow(x, j) % d,
    ensures
        unity(x, (j - i) as nat, d),
{
    let c = (a - i) as nat;
    lemma_pow_adds(x, i, c);
    lemma_pow_adds(x, j, c);
    lemma_mul_mod_noop_left(pow(x, i), pow(x, c), d);
    lemma_mul_mod_noop_left(pow(x, j), pow(x, c), d);
    assert(i + c == a);
    assert(unity(x, j + c, d));
    lemma_unity_subtract(x, j + c, a, d);
}

/// Congruences modulo a number hold modulo its divisors.
pub proof fn lemma_divisor(v: int, n: int, d: int)
    requires
        d > 0,
        n > 0,
        n % d == 0,
    ensures
        (v % n) % d == v % d,
{
    let e = n / d;
    lemma_fundamental_div_mod(n, d);
    lemma_fundamental_div_mod(v, n);
    assert(v == (e * (v / n)) * d + v % n) by (nonlinear_arith)
        requires
            n == d * e,
            v == n * (v / n) + v % n,
    ;
    lemma_mod_multiples_vanish(e * (v / n), v % n, d);
    lemma_mul_is_commutative(d, e * (v / n));
}

/// A number is prime where its divisors above one are at least `a`, and `a` is
/// above its square root.
pub proof fn lemma_large_divisors(n: int, a: int)
    requires
        n > 1,
        a > 0,
        a * a > n,
        forall|d: int| d > 1 && #[trigger] (n % d) == 0 ==> d >= a,
    ensures
        is_prime(n),
{
    assert forall|d: int| 1 < d < n implies #[trigger] (n % d) != 0 by {
        if n % d == 0 {
            let e = n / d;
            lemma_fundamental_div_mod(n, d);
            assert(n == d * e);
            assert(e > 1) by (nonlinear_arith)
                requires
                    n == d * e,
                    1 < d < n,
            ;
            lemma_mul_is_commutative(d, e);
            lemma_mod_multiples_basic(d, e);
            assert(n % e == 0);
            assert(d * e >= a * a) by (nonlinear_arith)
                requires
                    d >= a,
                    e >= a,
                    a > 0,
            ;
        }
    }
}

/// Where `u` inverts `v - 1` modulo `n`, `v` is not one modulo a divisor of `n`.
proof fn lemma_not_one(v: int, u: int, q: int, n: int, d: int)
    requires
        d > 1,
        n > 0,
        n % d == 0,
        u * (v - 1) == q * n + 1,
    ensures
        v % d != 1,
{
    if v % d == 1 {
        lemma_sub_mod_noop(v, 1, d);
        lemma_small_mod(1, d as nat);
        lemma_small_mod(0, d as nat);
        assert((v - 1) % d == 0);
        lemma_mul_mod_noop_right(u, v - 1, d);
        assert(u * 0 == 0);
        lemma_mul_mod_noop_right(q, n, d);
        assert(q * 0 == 0);
        lemma_add_mod_noop(q * n, 1, d);
        assert(false);
    }
}

/// A number is prime where a base has a prime order above its square root, and
/// keeps it modulo every divisor.
pub proof fn lemma_prime_order(n: int, x: int, a: nat, u: int, q: int)
    requires
        n > 1,
        is_prime(a as int),
        a * a > n,
        unity(x, a, n),
        u * (x - 1) == q * n + 1,
    ensures
        is_prime(n),
{
    assert forall|d: int| d > 1 && #[trigger] (n % d) == 0 implies d >= a by {
        lemma_divisor(pow(x, a), n, d);
        lemma_small_mod(1, d as nat);
        lemma_pow1(x);
        lemma_not_one(x, u, q, n, d);
        assert(!unity(x, 1, d));
        assert forall|k: nat| 0 < k < a implies !#[trigger] unity(x, k, d) by {
            if unity(x, k, d) {
                lemma_order_prime(x, k, a, d);
                lemma_small_mod(k, a);
            }
        }
        lemma_room_for_powers(x, a, d);
    }
    lemma_large_divisors(n, a as int);
}

/// A multiple of an odd number and of a power of two is one of their product.
proof fn lemma_odd_times_two(k: nat, q: nat, n: nat)
    requires
        q % 2 == 1,
        k % q == 0,
        k % pow2(n) == 0,
    ensures
        k % (q * pow2(n)) == 0,
    decreases n,
{
    lemma2_to64();
    lemma_pow2_pos(n);
    if n == 0 {
        assert(q * 1 == q);
    } else {
        let m = (n - 1) as nat;
        let h = pow2(m);
        lemma_pow2_pos(m);
        lemma_pow2_unfold(n);
        lemma_fundamental_div_mod(k as int, pow2(n) as int);
        let c = k / pow2(n);
        assert(k == (2 * c) * h) by (nonlinear_arith)
            requires
                k == (2 * h) * c,
        ;
        lemma_mod_multiples_basic((2 * c) as int, h as int);
        lemma_odd_times_two(k, q, m);
        assert(q * h > 0) by (nonlinear_arith)
            requires
                q > 0,
                h > 0,
        ;
        let e = k / (q * h);
        lemma_fundamental_div_mod(k as int, (q * h) as int);
        // `e * q` is even and `q` is odd, so `e` is even.
        assert(q * e == 2 * c) by (nonlinear_arith)
            requires
                k == (q * h) * e,
                k == (2 * c) * h,
                h > 0,
        ;
        if e % 2 == 1 {
            let (i, j) = (q / 2, e / 2);
            assert(q * e == 2 * (2 * i * j + i + j) + 1) by (nonlinear_arith)
                requires
                    q == 2 * i + 1,
                    e == 2 * j + 1,
            ;
            assert(false);
        }
        let e2 = e / 2;
        assert(k == e2 * (q * pow2(n))) by (nonlinear_arith)
            requires
                k == (q * h) * e,
                e == 2 * e2,
                pow2(n) == 2 * h,
        ;
        assert(q * pow2(n) > 0) by (nonlinear_arith)
            requires
                q > 0,
                pow2(n) > 0,
        ;
        lemma_mod_multiples_basic(e2 as int, (q * pow2(n)) as int);
    }
}

/// A number is prime where a base has the order `2^t` times an odd prime, above
/// its square root, and keeps it modulo every divisor.
pub proof fn lemma_two_part_order(n: int, x: int, a: nat, t: nat, u: int, q: int)
    requires
        n > 1,
        n % 2 == 1,
        t > 0,
        is_prime(a as int),
        a % 2 == 1,
        (a * pow2(t)) * (a * pow2(t)) > n,
        pow(x, a * pow2((t - 1) as nat)) % n == n - 1,
        u * (pow(x, pow2(t)) % n - 1) == q * n + 1,
    ensures
        is_prime(n),
{
    let order = a * pow2(t);
    lemma_pow2_pos(t);
    lemma_pow2_unfold(t);
    assert(order > 0) by (nonlinear_arith)
        requires
            order == a * pow2(t),
            a > 0,
            pow2(t) > 0,
    ;
    assert forall|d: int| d > 1 && #[trigger] (n % d) == 0 implies d >= order by {
        let half = pow2((t - 1) as nat);
        if d == 2 {
            assert(false);
        }
        // To half the order the base is minus one modulo the divisor.
        lemma_divisor(pow(x, a * half), n, d);
        lemma_sub_mod_noop(n, 1, d);
        lemma_small_mod(1, d as nat);
        lemma_mod_add_multiples_vanish(-1, d);
        lemma_small_mod((d - 1) as nat, d as nat);
        assert((n - 1) % d == d - 1);
        let odd = pow(x, a);
        lemma_pow_multiplies(x, a, half);
        assert(pow(odd, half) % d == d - 1);
        // So to the order it is one.
        assert(order == a * half + a * half) by (nonlinear_arith)
            requires
                order == a * pow2(t),
                pow2(t) == 2 * half,
        ;
        lemma_pow_adds(x, a * half, a * half);
        lemma_mul_mod_noop(pow(x, a * half), pow(x, a * half), d);
        assert((d - 1) * (d - 1) == 1 + d * (d - 2)) by (nonlinear_arith);
        lemma_mod_multiples_vanish(d - 2, 1, d);
        assert(unity(x, order, d));
        // The power of two takes the base to something else than one.
        let two = pow(x, pow2(t));
        lemma_not_one(two % n, u, q, n, d);
        lemma_divisor(two, n, d);
        lemma_pow1(two);
        assert(!unity(two, 1, d));
        lemma_pow_multiplies(x, pow2(t), a);
        lemma_mul_is_commutative(pow2(t) as int, a as int);
        assert(unity(two, a, d));
        assert forall|k: nat| 0 < k < order implies !#[trigger] unity(x, k, d) by {
            if unity(x, k, d) {
                lemma_unity_multiply(x, k, pow2(t), d);
                lemma_pow_multiplies(x, pow2(t), k);
                lemma_mul_is_commutative(pow2(t) as int, k as int);
                lemma_order_prime(two, k, a, d);
                lemma_unity_multiply(x, k, a, d);
                lemma_pow_multiplies(x, a, k);
                lemma_mul_is_commutative(a as int, k as int);
                lemma_order_two(odd, k, t, d);
                lemma_odd_times_two(k, a, t);
                lemma_small_mod(k, order);
            }
        }
        lemma_room_for_powers(x, order, d);
    }
    lemma_large_divisors(n, order as int);
}

/// One step of raising a base to a power modulo `n`.
pub proof fn lemma_power_step(x: int, n: int, a: nat, r: int, b: nat, s: int, q: int, t: int)
    requires
        n > 0,
        pow(x, a) % n == r,
        pow(x, b) % n == s,
        r * s == q * n + t,
        0 <= t < n,
    ensures
        pow(x, a + b) % n == t,
{
    lemma_pow_adds(x, a, b);
    lemma_mul_mod_noop(pow(x, a), pow(x, b), n);
    lemma_mod_multiples_vanish(q, t, n);
    lemma_mul_is_commutative(n, q);
    lemma_small_mod(t as nat, n as nat);
}

} // verus!
