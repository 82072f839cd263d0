//! Arithmetic on lengths in seconds, in double precision.
//!
//! Settings are given in seconds and held as double precision numbers, so what
//! is counted from them, frames and bytes, is rounded as those are: to 53
//! binary digits, to the even neighbour where two are equally near. A number is
//! counted here in units of 2^-82 s. One nanosecond takes 53 digits of these,
//! so no length has a finer one.

use crate::ringbuf::NS;
use vstd::arithmetic::div_mod::{lemma_fundamental_div_mod, lemma_fundamental_div_mod_converse};
use vstd::arithmetic::power2::{lemma2_to64, lemma_pow2_adds, lemma_pow2_pos};
use vstd::arithmetic::power2::{lemma_pow2_strictly_increases, lemma_pow2_unfold, pow2};
use vstd::prelude::*;

verus! {

/// Units in a second.
pub const SECOND: u128 = 0x4_0000_0000_0000_0000_0000;

/// What the digits of a number can count, 2^53.
pub const DIGITS: u128 = 0x20_0000_0000_0000;

// ----------------------------------------------------------------- rounding

/// A quotient to the nearest whole number, to the even one of two.
pub open spec fn half_even(p: nat, q: nat) -> nat {
    let down = p / q;
    let rest = p % q;
    if 2 * rest < q || (2 * rest == q && down % 2 == 0) {
        down
    } else {
        down + 1
    }
}

/// What the last digit of a quotient is worth: the least power of two of which
/// it holds less than `DIGITS`.
pub open spec fn last_digit(p: nat, q: nat) -> nat
    decreases p - q,
{
    if 0 < q && DIGITS * q <= p {
        2 * last_digit(p, 2 * q)
    } else {
        1
    }
}

/// A quotient in double precision.
pub open spec fn nearest(p: nat, q: nat) -> nat {
    let digit = last_digit(p, q);
    half_even(p, q * digit) * digit
}

/// A number of units in double precision.
pub open spec fn rounded(n: int) -> int {
    if n < 0 {
        -(nearest((-n) as nat, 1) as int)
    } else {
        nearest(n as nat, 1) as int
    }
}

/// A number of nanoseconds, as seconds in double precision.
pub open spec fn seconds_of(ns: int) -> int {
    if ns < 0 {
        -(nearest((-ns) as nat * SECOND as nat, NS as nat) as int)
    } else {
        nearest(ns as nat * SECOND as nat, NS as nat) as int
    }
}

/// The whole part of a number of seconds.
pub open spec fn whole(n: int) -> int {
    if n < 0 {
        -((-n) / SECOND as int)
    } else {
        n / SECOND as int
    }
}

pub open spec fn within(n: int, low: int, high: int) -> int {
    if n < low {
        low
    } else if n > high {
        high
    } else {
        n
    }
}

/// Nanoseconds of a number of seconds: the whole part of a product.
pub open spec fn ns_of(seconds: int) -> int {
    within(whole(rounded(seconds * NS)), i64::MIN as int, i64::MAX as int)
}

/// A length as the buffers count it. It was a number of seconds before, so it
/// may have lost a nanosecond.
pub open spec fn counted_ns(ns: int) -> int {
    ns_of(seconds_of(ns))
}

// ------------------------------------------------------------------- lemmas

proof fn lemma_last_digit_of_doubled(p: nat, q: nat)
    ensures
        last_digit(2 * p, 2 * q) == last_digit(p, q),
    decreases p - q,
{
    if 0 < q && DIGITS * q <= p {
        lemma_last_digit_of_doubled(p, 2 * q);
    }
}

proof fn lemma_half_even_of_doubled(p: nat, q: nat)
    requires
        q > 0,
    ensures
        half_even(2 * p, 2 * q) == half_even(p, q),
{
    let (d, r) = ((p / q) as int, (p % q) as int);
    lemma_fundamental_div_mod(p as int, q as int);
    assert(2 * p == d * (2 * q) + 2 * r) by (nonlinear_arith)
        requires
            p == q * d + r,
    ;
    lemma_fundamental_div_mod_converse(2 * p as int, 2 * q as int, d, 2 * r);
}

/// Twice as much is rounded to twice as much where the last digit is used.
proof fn lemma_nearest_doubled(p: nat, q: nat)
    requires
        q > 0,
        DIGITS * q <= 2 * p,
    ensures
        nearest(2 * p, q) == 2 * nearest(p, q),
{
    let digit = last_digit(p, q);
    lemma_last_digit_of_doubled(p, q);
    lemma_last_digit(p, q);
    assert(last_digit(2 * p, q) == 2 * digit);
    assert(q * (2 * digit) == 2 * (q * digit)) by (nonlinear_arith);
    assert(q * digit > 0) by (nonlinear_arith)
        requires
            q > 0,
            digit > 0,
    ;
    lemma_half_even_of_doubled(p, q * digit);
    let h = half_even(p, q * digit);
    assert(h * (2 * digit) == 2 * (h * digit)) by (nonlinear_arith);
}

/// What a last digit is: a quotient has all its digits above it, unless it is
/// the first.
proof fn lemma_last_digit(p: nat, q: nat)
    requires
        q > 0,
    ensures
        last_digit(p, q) >= 1,
        p < DIGITS * (q * last_digit(p, q)),
        last_digit(p, q) > 1 ==> DIGITS * (q * last_digit(p, q)) <= 2 * p,
    decreases p - q,
{
    let digit = last_digit(p, q);
    if DIGITS * q <= p {
        let half = last_digit(p, 2 * q);
        lemma_last_digit(p, 2 * q);
        assert(q * digit == (2 * q) * half) by (nonlinear_arith)
            requires
                digit == 2 * half,
        ;
        if half == 1 {
            assert((2 * q) * half == 2 * q) by (nonlinear_arith)
                requires
                    half == 1,
            ;
        }
    } else {
        assert(q * digit == q) by (nonlinear_arith)
            requires
                digit == 1,
        ;
    }
}

/// Whole numbers with as few digits stay as they are.
proof fn lemma_short_is_exact(p: nat)
    requires
        p < DIGITS,
    ensures
        nearest(p, 1) == p,
{
    assert(last_digit(p, 1) == 1);
    assert(p / 1 == p && p % 1 == 0);
}

proof fn lemma_nearest_shifted(p: nat, k: nat)
    ensures
        nearest(p * pow2(k), 1) == nearest(p, 1) * pow2(k),
    decreases k,
{
    lemma2_to64();
    if k == 0 {
        assert(p * pow2(0) == p) by (nonlinear_arith)
            requires
                pow2(0) == 1,
        ;
        let n = nearest(p, 1);
        assert(n * pow2(0) == n) by (nonlinear_arith)
            requires
                pow2(0) == 1,
        ;
    } else {
        let j = (k - 1) as nat;
        lemma_pow2_unfold(k);
        lemma_nearest_shifted(p, j);
        let (a, b) = (pow2(j), pow2(k));
        let n = nearest(p, 1);
        let x = p * a;
        assert(p * b == 2 * x) by (nonlinear_arith)
            requires
                b == 2 * a,
                x == p * a,
        ;
        assert(n * b == 2 * (n * a)) by (nonlinear_arith)
            requires
                b == 2 * a,
        ;
        if 2 * x < DIGITS {
            lemma_short_is_exact(x);
            lemma_short_is_exact(2 * x);
        } else {
            lemma_nearest_doubled(x, 1);
        }
    }
}

proof fn lemma_quotient_shifted(p: nat, q: nat, k: nat)
    requires
        q > 0,
        DIGITS * q <= 2 * p,
    ensures
        nearest(p * pow2(k), q) == nearest(p, q) * pow2(k),
    decreases k,
{
    lemma2_to64();
    let n = nearest(p, q);
    if k == 0 {
        assert(p * pow2(0) == p) by (nonlinear_arith)
            requires
                pow2(0) == 1,
        ;
        assert(n * pow2(0) == n) by (nonlinear_arith)
            requires
                pow2(0) == 1,
        ;
    } else {
        let j = (k - 1) as nat;
        lemma_pow2_unfold(k);
        lemma_pow2_pos(j);
        lemma_quotient_shifted(p, q, j);
        let (a, b) = (pow2(j), pow2(k));
        let x = p * a;
        assert(p * b == 2 * x) by (nonlinear_arith)
            requires
                b == 2 * a,
                x == p * a,
        ;
        assert(n * b == 2 * (n * a)) by (nonlinear_arith)
            requires
                b == 2 * a,
        ;
        assert(x >= p) by (nonlinear_arith)
            requires
                x == p * a,
                a >= 1,
        ;
        lemma_nearest_doubled(x, q);
    }
}

/// Rounding is off by half of the last digit at most.
proof fn lemma_half_even(p: nat, q: nat)
    requires
        q > 0,
    ensures
        2 * p <= 2 * (half_even(p, q) * q) + q,
        2 * (half_even(p, q) * q) <= 2 * p + q,
        half_even(p, q) * q <= 2 * p,
        half_even(p, q) == p / q || half_even(p, q) == p / q + 1,
{
    let (d, r) = ((p / q) as int, (p % q) as int);
    lemma_fundamental_div_mod(p as int, q as int);
    assert(d * q == q * d) by (nonlinear_arith);
    assert((d + 1) * q == d * q + q) by (nonlinear_arith);
    if d >= 1 {
        assert(d * q >= q) by (nonlinear_arith)
            requires
                d >= 1,
                q > 0,
        ;
    }
}

/// A number that has all its digits is off by one part in `DIGITS` at most, and
/// no number becomes more than twice as much.
proof fn lemma_nearest_is_near(p: nat, q: nat)
    requires
        q > 0,
    ensures
        nearest(p, q) * q <= 2 * p,
        q == 1 || DIGITS * q <= 2 * p ==> {
            &&& p * (DIGITS - 1) <= nearest(p, q) * q * DIGITS
            &&& nearest(p, q) * q * DIGITS <= p * (DIGITS + 1)
        },
{
    let digit = last_digit(p, q);
    let d = q * digit;
    let h = half_even(p, d);
    lemma_last_digit(p, q);
    assert(d > 0) by (nonlinear_arith)
        requires
            q > 0,
            digit > 0,
            d == q * digit,
    ;
    lemma_half_even(p, d);
    assert(nearest(p, q) * q == h * d) by (nonlinear_arith)
        requires
            nearest(p, q) == h * digit,
            d == q * digit,
    ;
    let x = h * d;
    if digit > 1 || DIGITS * q <= 2 * p {
        if digit == 1 {
            assert(d == q) by (nonlinear_arith)
                requires
                    d == q * digit,
                    digit == 1,
            ;
        }
        assert(DIGITS * d <= 2 * p);
        assert(p * (DIGITS - 1) == p * DIGITS - p) by (nonlinear_arith);
        assert(p * (DIGITS + 1) == p * DIGITS + p) by (nonlinear_arith);
    } else if q == 1 {
        lemma_short_is_exact(p);
        assert(p * (DIGITS - 1) == p * DIGITS - p) by (nonlinear_arith);
        assert(p * (DIGITS + 1) == p * DIGITS + p) by (nonlinear_arith);
    }
}

// ------------------------------------------------------------------ numbers

/// A number of seconds in double precision.
#[derive(Debug)]
pub struct Seconds {
    negative: bool,
    mantissa: u64,
    shift: u32,
}

/// A number of units that does not need more than so many binary digits. A
/// length takes 118 of them, the sum of some lengths 122, and so many times
/// that sum 187.
pub open spec fn fits(n: int, digits: nat) -> bool {
    -pow2(digits) <= n <= pow2(digits)
}

impl View for Seconds {
    type V = int;

    closed spec fn view(&self) -> int {
        if self.negative {
            -(self.magnitude() as int)
        } else {
            self.magnitude() as int
        }
    }
}

proof fn lemma_powers()
    ensures
        pow2(0) == 1,
        pow2(1) == 2,
        pow2(18) == 0x4_0000,
        pow2(52) == 0x10_0000_0000_0000,
        pow2(82) == SECOND,
        pow2(117) == 0x20_0000_0000_0000_0000_0000_0000_0000,
        pow2(118) == 0x40_0000_0000_0000_0000_0000_0000_0000,
        pow2(120) == 0x100_0000_0000_0000_0000_0000_0000_0000,
        pow2(122) == 0x400_0000_0000_0000_0000_0000_0000_0000,
        pow2(128) == 0x1_0000_0000_0000_0000_0000_0000_0000_0000,
{
    lemma2_to64();
    lemma_pow2_adds(26, 26);
    lemma_pow2_adds(64, 18);
    lemma_pow2_adds(26, 27);
    lemma_pow2_adds(64, 53);
    lemma_pow2_adds(64, 54);
    lemma_pow2_adds(27, 27);
    lemma_pow2_adds(28, 28);
    lemma_pow2_adds(64, 56);
    lemma_pow2_adds(29, 29);
    lemma_pow2_adds(64, 58);
    lemma_pow2_adds(64, 64);
}

proof fn lemma_pow2_grows(a: nat, b: nat)
    requires
        a <= b,
    ensures
        pow2(a) <= pow2(b),
{
    if a < b {
        lemma_pow2_strictly_increases(a, b);
    }
}

/// A number moved up by some binary digits.
fn moved_up(n: u128, digits: u32) -> (result: u128)
    requires
        n * pow2(digits as nat) <= u128::MAX,
    ensures
        result == n * pow2(digits as nat),
{
    proof {
        lemma_powers();
    }
    let mut result: u128 = n;
    let mut i: u32 = 0;
    assert(n * pow2(0) == n) by (nonlinear_arith)
        requires
            pow2(0) == 1,
    ;
    while i < digits
        invariant
            i <= digits,
            result == n * pow2(i as nat),
            n * pow2(digits as nat) <= u128::MAX,
        decreases digits - i,
    {
        proof {
            let (a, b, c) = (pow2(i as nat), pow2((i + 1) as nat), pow2(digits as nat));
            lemma_pow2_unfold((i + 1) as nat);
            lemma_pow2_grows((i + 1) as nat, digits as nat);
            assert(n * b == 2 * (n * a)) by (nonlinear_arith)
                requires
                    b == 2 * a,
            ;
            assert(n * b <= n * c) by (nonlinear_arith)
                requires
                    b <= c,
                    0 <= n,
            ;
        }
        result = result * 2;
        i = i + 1;
    }
    result
}

/// A quotient in double precision: its digits, and how far they are moved up.
fn nearest_of(p: u128, q: u128) -> (digits: (u64, u32))
    requires
        q > 0,
    ensures
        digits.0 * pow2(digits.1 as nat) == nearest(p as nat, q as nat),
        digits.0 <= DIGITS,
        digits.1 > 0 ==> 2 * digits.0 >= DIGITS,
        digits.1 <= 128,
{
    let mut d: u128 = q;
    let mut k: u32 = 0;
    proof {
        lemma_powers();
        assert(q * pow2(0) == q) by (nonlinear_arith)
            requires
                pow2(0) == 1,
        ;
        let digit = last_digit(p as nat, q as nat);
        assert(pow2(0) * digit == digit) by (nonlinear_arith)
            requires
                pow2(0) == 1,
        ;
    }
    while p / d >= DIGITS
        invariant
            q > 0,
            d == q * pow2(k as nat),
            d > 0,
            last_digit(p as nat, q as nat) == pow2(k as nat) * last_digit(p as nat, d as nat),
            k > 0 ==> DIGITS * d <= 2 * p,
            k <= 128,
        decreases p - d,
    {
        proof {
            let f = (p / d) as int;
            lemma_fundamental_div_mod(p as int, d as int);
            assert(DIGITS * d <= p) by (nonlinear_arith)
                requires
                    p == d * f + p % d,
                    f >= DIGITS,
                    0 <= p % d,
                    d > 0,
            ;
            let (a, b) = (pow2(k as nat), pow2((k + 1) as nat));
            lemma_pow2_unfold((k + 1) as nat);
            assert(2 * d == q * b) by (nonlinear_arith)
                requires
                    d == q * a,
                    b == 2 * a,
            ;
            assert(a <= d) by (nonlinear_arith)
                requires
                    d == q * a,
                    q >= 1,
                    a >= 0,
            ;
            lemma_powers();
            if k == 128 {
                assert(false);
            }
            let half = last_digit(p as nat, 2 * d as nat);
            assert(a * (2 * half) == b * half) by (nonlinear_arith)
                requires
                    b == 2 * a,
            ;
        }
        d = d * 2;
        k = k + 1;
    }
    let down = p / d;
    let rest = p % d;
    proof {
        let f = down as int;
        lemma_fundamental_div_mod(p as int, d as int);
        assert(p < DIGITS * d) by (nonlinear_arith)
            requires
                p == d * f + rest,
                f <= DIGITS - 1,
                rest < d,
        ;
        if k > 0 {
            assert(2 * f >= DIGITS) by (nonlinear_arith)
                requires
                    p == d * f + rest,
                    rest < d,
                    d > 0,
                    0x20_0000_0000_0000 * d <= 2 * p,
                    DIGITS == 0x20_0000_0000_0000,
            ;
        }
        let a = pow2(k as nat);
        assert(a * 1 == a) by (nonlinear_arith);
        assert(last_digit(p as nat, q as nat) == a);
    }
    let odd = down % 2 == 1;
    let up = if rest > d - rest || (rest == d - rest && odd) {
        down + 1
    } else {
        down
    };
    assert(up == half_even(p as nat, d as nat));
    (up as u64, k)
}

impl Seconds {
    closed spec fn magnitude(self) -> nat {
        self.mantissa as nat * pow2(self.shift as nat)
    }

    /// The mantissa has all its digits where it is moved up.
    #[verifier::type_invariant]
    spec fn has_its_digits(self) -> bool {
        &&& self.mantissa <= DIGITS
        &&& self.shift > 0 ==> 2 * self.mantissa >= DIGITS
    }

    /// A number of nanoseconds.
    pub fn of_ns(ns: i64) -> (seconds: Self)
        ensures
            seconds@ == seconds_of(ns as int),
            fits(seconds@, 118),
            fits(seconds@, 120),
            fits(seconds@, 122),
    {
        let negative = ns < 0;
        let n: u128 = if negative {
            (-(ns as i128)) as u128
        } else {
            ns as u128
        };
        let ghost exact = n as nat * SECOND as nat;
        proof {
            lemma_powers();
            lemma_nearest_is_near(exact, NS as nat);
        }
        // A long time would not leave room to count it in units.
        if n < 0x2000_0000_0000 {
            let (mantissa, shift) = nearest_of(n * SECOND, NS as u128);
            Seconds { negative, mantissa, shift }
        } else {
            let p: u128 = n * 0x1_0000_0000_0000_0000;
            let (mantissa, shift) = nearest_of(p, NS as u128);
            proof {
                let (a, b) = (pow2(shift as nat), pow2((shift + 18) as nat));
                lemma_pow2_adds(shift as nat, 18);
                lemma_quotient_shifted(p as nat, NS as nat, 18);
                assert(exact == p * pow2(18));
                assert(mantissa * b == (mantissa * a) * 0x4_0000) by (nonlinear_arith)
                    requires
                        b == a * 0x4_0000,
                ;
                if shift == 0 {
                    lemma_nearest_is_near(p as nat, NS as nat);
                    assert(mantissa * a == mantissa) by (nonlinear_arith)
                        requires
                            a == 1,
                    ;
                    assert(false);
                }
            }
            Seconds { negative, mantissa, shift: shift + 18 }
        }
    }

    /// One second.
    pub fn one() -> (seconds: Self)
        ensures
            seconds@ == SECOND,
            fits(seconds@, 118),
            fits(seconds@, 120),
    {
        proof {
            lemma_powers();
            lemma2_to64();
            assert(0x10_0000_0000_0000 * pow2(30) == SECOND);
        }
        Seconds { negative: false, mantissa: 0x10_0000_0000_0000, shift: 30 }
    }

    fn signed(&self) -> (n: i128)
        requires
            fits(self@, 120),
        ensures
            n == self@,
    {
        proof {
            lemma_powers();
        }
        let n = moved_up(self.mantissa as u128, self.shift);
        if self.negative {
            -(n as i128)
        } else {
            n as i128
        }
    }

    /// The sum of two numbers.
    pub fn plus(&self, other: &Self) -> (sum: Self)
        requires
            fits(self@, 120),
            fits(other@, 120),
        ensures
            sum@ == rounded(self@ + other@),
            fits(self@, 118) && fits(other@, 118) ==> fits(sum@, 120),
            fits(sum@, 122),
    {
        proof {
            lemma_powers();
        }
        let n: i128 = self.signed() + other.signed();
        let negative = n < 0;
        let p: u128 = if negative {
            (-n) as u128
        } else {
            n as u128
        };
        let (mantissa, shift) = nearest_of(p, 1);
        proof {
            lemma_nearest_is_near(p as nat, 1);
        }
        Seconds { negative, mantissa, shift }
    }

    /// So many times the number.
    pub fn times(&self, n: u64) -> (product: Self)
        requires
            fits(self@, 122) || fits(self@, 187),
        ensures
            product@ == rounded(self@ * n),
            fits(self@, 122) ==> fits(product@, 187),
            fits(self@, 122) || (fits(self@, 187) && n <= 2) ==> fits(product@, 200),
    {
        proof {
            use_type_invariant(self);
        }
        let ghost exact = self.magnitude() * n as nat;
        proof {
            assert(self.mantissa * n <= 0x20_0000_0000_0000 * 0xffff_ffff_ffff_ffff)
                by (nonlinear_arith)
                requires
                    self.mantissa <= 0x20_0000_0000_0000,
                    n <= 0xffff_ffff_ffff_ffff,
            ;
        }
        let p: u128 = self.mantissa as u128 * n as u128;
        let (mantissa, up) = nearest_of(p, 1);
        proof {
            let (a, b) = (pow2(self.shift as nat), pow2(up as nat));
            lemma_nearest_shifted(p as nat, self.shift as nat);
            assert(p * a == exact) by (nonlinear_arith)
                requires
                    p == self.mantissa * n,
                    exact == self.mantissa * a * n,
            ;
            lemma_nearest_is_near(exact, 1);
            lemma_product_fits(self.magnitude(), n, nearest(exact, 1));
            lemma_pow2_adds(up as nat, self.shift as nat);
            assert(mantissa * (b * a) == (mantissa * b) * a) by (nonlinear_arith);
            lemma_sign_of_product(self@, n as int);
        }
        if mantissa == 0 {
            proof {
                lemma_powers();
                let (a, b) = (pow2(self.shift as nat), pow2(up as nat));
                assert((0 * b) * a == 0) by (nonlinear_arith);
            }
            return Seconds { negative: false, mantissa: 0, shift: 0 };
        }
        proof {
            self.lemma_shift_is_small(
                if fits(self@, 122) {
                    122
                } else {
                    187
                },
            );
            if self.shift > 0 && up == 0 {
                lemma_powers();
                assert(mantissa * pow2(0) == mantissa) by (nonlinear_arith)
                    requires
                        pow2(0) == 1,
                ;
                if n == 0 {
                    lemma_short_is_exact(0);
                }
                assert(p >= self.mantissa) by (nonlinear_arith)
                    requires
                        p == self.mantissa * n,
                        n >= 1,
                ;
                if p < DIGITS {
                    lemma_short_is_exact(p as nat);
                } else {
                    lemma_nearest_is_near(p as nat, 1);
                }
            }
        }
        Seconds { negative: self.negative, mantissa, shift: self.shift + up }
    }

    proof fn lemma_shift_is_small(self, digits: nat)
        requires
            self.has_its_digits(),
            fits(self@, digits),
        ensures
            self.shift <= digits,
    {
        if self.shift > digits {
            let (a, b) = (pow2(self.shift as nat), pow2(digits));
            lemma_pow2_strictly_increases(digits, self.shift as nat);
            assert(self.mantissa * a >= a) by (nonlinear_arith)
                requires
                    self.mantissa >= 1,
                    a >= 0,
            ;
        }
    }

    /// The whole part of the number.
    pub fn whole_part(&self) -> (n: i128)
        requires
            fits(self@, 200),
        ensures
            n == whole(self@),
    {
        proof {
            use_type_invariant(self);
            lemma_powers();
            self.lemma_shift_is_small(200);
        }
        let m = self.mantissa as u128;
        let n: u128;
        if self.shift >= 82 {
            let up = self.shift - 82;
            proof {
                let (a, b, c) = (pow2(self.shift as nat), pow2(up as nat), pow2(200));
                lemma_pow2_adds(up as nat, 82);
                lemma_pow2_adds(118, 82);
                assert((m * b) * SECOND == m * a) by (nonlinear_arith)
                    requires
                        a == b * SECOND,
                ;
                let x = (m * b) as int;
                assert(x * SECOND <= pow2(118) * SECOND);
                assert(x <= pow2(118));
                lemma_fundamental_div_mod_converse(
                    self.magnitude() as int,
                    SECOND as int,
                    x,
                    0,
                );
            }
            n = moved_up(m, up);
        } else {
            let down = 82 - self.shift;
            proof {
                lemma_pow2_grows(down as nat, 120);
                let b = pow2(down as nat);
                assert(1 * b == b) by (nonlinear_arith);
            }
            let digit = moved_up(1, down);
            proof {
                let (a, b) = (pow2(self.shift as nat), pow2(down as nat));
                lemma_pow2_adds(self.shift as nat, down as nat);
                lemma_pow2_pos(down as nat);
                lemma_pow2_pos(self.shift as nat);
                let (f, r) = ((m / digit) as int, (m % digit) as int);
                lemma_fundamental_div_mod(m as int, digit as int);
                assert(m * a == f * SECOND + r * a) by (nonlinear_arith)
                    requires
                        m == b * f + r,
                        SECOND == a * b,
                ;
                assert(0 <= r * a < SECOND) by (nonlinear_arith)
                    requires
                        0 <= r < b,
                        a > 0,
                        SECOND == a * b,
                ;
                lemma_fundamental_div_mod_converse(
                    self.magnitude() as int,
                    SECOND as int,
                    f,
                    r * a,
                );
                assert(f <= m) by (nonlinear_arith)
                    requires
                        m == b * f + r,
                        b >= 1,
                        r >= 0,
                        f >= 0,
                ;
            }
            n = m / digit;
        }
        if self.negative {
            -(n as i128)
        } else {
            n as i128
        }
    }
}

impl Seconds {
    /// Nanoseconds of the number.
    pub fn in_ns(&self) -> (ns: i64)
        requires
            fits(self@, 122),
        ensures
            ns == ns_of(self@),
    {
        let ns = self.times(NS as u64).whole_part();
        if ns < i64::MIN as i128 {
            i64::MIN
        } else if ns > i64::MAX as i128 {
            i64::MAX
        } else {
            ns as i64
        }
    }
}

/// A length as the buffers count it.
pub fn count_ns(ns: i64) -> (counted: i64)
    ensures
        counted == counted_ns(ns as int),
{
    Seconds::of_ns(ns).in_ns()
}

/// How many digits a product takes, and one more for its rounding.
proof fn lemma_product_fits(number: nat, times: u64, product: nat)
    requires
        product <= 2 * (number * times),
    ensures
        number <= pow2(122) ==> product <= pow2(187),
        number <= pow2(122) || (number <= pow2(187) && times <= 2) ==> product <= pow2(200),
{
    lemma2_to64();
    lemma_pow2_adds(64, 1);
    lemma_pow2_adds(122, 65);
    lemma_pow2_adds(187, 2);
    lemma_pow2_grows(187, 200);
    lemma_pow2_grows(189, 200);
    let (a, b) = (pow2(122), pow2(187));
    assert(pow2(65) == 0x2_0000_0000_0000_0000);
    assert(b == a * 0x2_0000_0000_0000_0000);
    assert(pow2(189) == b * 4);
    if number <= a {
        assert(number * times <= a * 0x1_0000_0000_0000_0000) by (nonlinear_arith)
            requires
                number <= a,
                times <= 0x1_0000_0000_0000_0000,
        ;
    }
    if number <= b && times <= 2 {
        assert(number * times <= b * 2) by (nonlinear_arith)
            requires
                number <= b,
                times <= 2,
        ;
    }
}

proof fn lemma_sign_of_product(a: int, n: int)
    requires
        n >= 0,
    ensures
        a > 0 ==> a * n >= 0,
        a <= 0 ==> a * n <= 0,
        (-a) * n == -(a * n),
{
    assert(a > 0 ==> a * n >= 0) by (nonlinear_arith)
        requires
            n >= 0,
    ;
    assert(a <= 0 ==> a * n <= 0) by (nonlinear_arith)
        requires
            n >= 0,
    ;
    assert((-a) * n == -(a * n)) by (nonlinear_arith);
}

// ----------------------------------------------------------------- the laws

/// A number in double precision is off by one part in `DIGITS` at most.
pub proof fn law_rounding_is_near(n: int)
    requires
        n >= 0,
    ensures
        n * (DIGITS - 1) <= rounded(n) * DIGITS <= n * (DIGITS + 1),
{
    lemma_nearest_is_near(n as nat, 1);
}

/// A length in seconds is off by one part in `DIGITS` at most.
pub proof fn law_seconds_are_near(ns: int)
    requires
        ns >= 0,
    ensures
        ns * SECOND * (DIGITS - 1) <= seconds_of(ns) * NS * DIGITS <= ns * SECOND * (DIGITS + 1),
{
    let p = ns as nat * SECOND as nat;
    if ns == 0 {
        assert(last_digit(0, NS as nat) == 1);
    }
    lemma_nearest_is_near(p, NS as nat);
}

/// A length keeps all its nanoseconds but one at most. Lengths are some weeks at
/// most.
pub proof fn law_counted_length_is_near(ns: int)
    requires
        0 <= ns <= 0x8_0000_0000_0000,
    ensures
        ns - 1 <= counted_ns(ns) <= ns,
{
    law_seconds_are_near(ns);
    law_rounding_is_near(seconds_of(ns) * NS);
}

proof fn lemma_last_digit_of_multiple(c: nat, p: nat, q: nat)
    requires
        c > 0,
    ensures
        last_digit(c * p, c * q) == last_digit(p, q),
    decreases p - q,
{
    assert(0 < c * q <==> 0 < q) by (nonlinear_arith)
        requires
            c > 0,
    ;
    assert(DIGITS * (c * q) <= c * p <==> DIGITS * q <= p) by (nonlinear_arith)
        requires
            c > 0,
    ;
    if 0 < q && DIGITS * q <= p {
        lemma_last_digit_of_multiple(c, p, 2 * q);
        assert(c * (2 * q) == 2 * (c * q)) by (nonlinear_arith);
    }
}

/// A quotient does not depend on how it is written.
pub proof fn law_rounding_does_not_depend_on_the_fraction(c: nat, p: nat, q: nat)
    requires
        c > 0,
        q > 0,
    ensures
        nearest(c * p, c * q) == nearest(p, q),
{
    let digit = last_digit(p, q);
    lemma_last_digit_of_multiple(c, p, q);
    lemma_last_digit(p, q);
    let d = q * digit;
    assert(d > 0) by (nonlinear_arith)
        requires
            d == q * digit,
            q > 0,
            digit > 0,
    ;
    assert((c * q) * digit == c * d) by (nonlinear_arith)
        requires
            d == q * digit,
    ;
    let (f, r) = ((p / d) as int, (p % d) as int);
    lemma_fundamental_div_mod(p as int, d as int);
    assert(c * p == f * (c * d) + c * r) by (nonlinear_arith)
        requires
            p == d * f + r,
    ;
    assert(0 <= c * r < c * d) by (nonlinear_arith)
        requires
            0 <= r < d,
            c > 0,
    ;
    lemma_fundamental_div_mod_converse(c * p as int, c * d as int, f, c * r);
    assert(2 * (c * r) < c * d <==> 2 * r < d) by (nonlinear_arith)
        requires
            c > 0,
    ;
    assert(2 * (c * r) == c * d <==> 2 * r == d) by (nonlinear_arith)
        requires
            c > 0,
    ;
}

/// Numbers that have a place stay what they are: whole seconds, and so many
/// times whole seconds.
pub proof fn law_whole_seconds_are_exact(seconds: nat)
    requires
        seconds < DIGITS,
    ensures
        seconds_of((seconds * NS) as int) == seconds * SECOND,
        rounded((seconds * SECOND) as int) == seconds * SECOND,
        whole((seconds * SECOND) as int) == seconds,
{
    lemma_powers();
    lemma_nearest_shifted(seconds, 82);
    lemma_short_is_exact(seconds);
    let x = seconds * SECOND as nat;
    law_rounding_does_not_depend_on_the_fraction(NS as nat, x, 1);
    assert((seconds * NS) as nat * SECOND as nat == NS as nat * x) by (nonlinear_arith)
        requires
            x == seconds * SECOND,
    ;
}

/// A number in double precision is the nearest that there is: it is a multiple
/// of its last digit, no further off than half of it, and has as many digits as
/// can be counted, unless the last digit is a whole unit.
pub proof fn law_rounding_is_to_the_nearest(p: nat, q: nat)
    requires
        q > 0,
    ensures
        ({
            let digit = last_digit(p, q);
            let r = nearest(p, q);
            &&& digit >= 1
            &&& r % digit == 0
            &&& 2 * p <= 2 * (r * q) + q * digit
            &&& 2 * (r * q) <= 2 * p + q * digit
            &&& p < DIGITS * (q * digit)
            &&& digit > 1 ==> DIGITS * (q * digit) <= 2 * p
        }),
{
    let digit = last_digit(p, q);
    let d = q * digit;
    let h = half_even(p, d);
    lemma_last_digit(p, q);
    assert(d > 0) by (nonlinear_arith)
        requires
            d == q * digit,
            q > 0,
            digit > 0,
    ;
    lemma_half_even(p, d);
    assert(nearest(p, q) * q == h * d) by (nonlinear_arith)
        requires
            nearest(p, q) == h * digit,
            d == q * digit,
    ;
    lemma_fundamental_div_mod_converse((h * digit) as int, digit as int, h as int, 0);
}

/// The whole part of a number is what is left without its fraction, on either
/// side of zero.
pub proof fn law_whole_part_drops_the_fraction(n: int)
    ensures
        n >= 0 ==> whole(n) * SECOND <= n < (whole(n) + 1) * SECOND,
        n <= 0 ==> (whole(n) - 1) * SECOND < n <= whole(n) * SECOND,
        whole(-n) == -whole(n),
        rounded(-n) == -rounded(n),
        seconds_of(-n) == -seconds_of(n),
{
    lemma_nearest_is_near(0, 1);
    lemma_short_is_exact(0);
    lemma_nearest_is_near(0, NS as nat);
}

/// Halfway between two numbers the even one is taken.
pub proof fn law_halfway_the_even_one_is_taken(p: nat, q: nat)
    requires
        q > 0,
        2 * (p % (q * last_digit(p, q))) == q * last_digit(p, q),
    ensures
        (nearest(p, q) / last_digit(p, q)) % 2 == 0,
{
    let digit = last_digit(p, q);
    lemma_last_digit(p, q);
    let h = half_even(p, q * digit);
    assert(h % 2 == 0);
    lemma_fundamental_div_mod_converse((h * digit) as int, digit as int, h as int, 0);
}

/// Nanoseconds are counted alike on either side of zero, and stop where the
/// counter ends.
pub proof fn law_counter_does_not_wrap(seconds: int)
    requires
        seconds >= 0,
    ensures
        0 <= ns_of(seconds) <= i64::MAX,
        ns_of(-seconds) == -ns_of(seconds) || (ns_of(seconds) == i64::MAX && ns_of(-seconds)
            == i64::MIN),
        ns_of(seconds) < i64::MAX ==> ns_of(seconds) * SECOND <= rounded(seconds * NS) < (ns_of(
            seconds,
        ) + 1) * SECOND,
        ns_of(seconds) == i64::MAX ==> rounded(seconds * NS) >= i64::MAX * SECOND,
{
    let n = seconds * NS;
    assert((-seconds) * NS == -n);
    law_whole_part_drops_the_fraction(n);
    law_whole_part_drops_the_fraction(rounded(n));
    assert(rounded(n) >= 0);
}

} // verus!
