//! Exact arithmetic behind the figures on screen: quotients of counters, the
//! way they are rounded, and the way they are written out.

use vstd::arithmetic::power2::{lemma_pow2_pos, lemma_pow2_unfold, pow2};
use vstd::prelude::*;

use crate::text::{dec, digit, digit_char, repeat, repeated};

verus! {

/// The whole number nearest to `a / b`; half-way cases go to the even one.
pub open spec fn nearest_even(a: nat, b: nat) -> nat {
    let q = a / b;
    let r = a % b;
    if 2 * r > b || (2 * r == b && q % 2 == 1) {
        q + 1
    } else {
        q
    }
}

/// The whole number nearest to `a / b`; half-way cases go up.
pub open spec fn nearest_up(a: nat, b: nat) -> nat {
    if 2 * (a % b) >= b {
        a / b + 1
    } else {
        a / b
    }
}

pub fn round_even(a: u128, b: u128) -> (r: u128)
    requires
        0 < b <= 0x4000_0000_0000_0000_0000_0000_0000_0000,
    ensures
        r == nearest_even(a as nat, b as nat),
        r <= a + 1,
{
    let q: u128 = a / b;
    let rest: u128 = a % b;
    assert(q <= a) by (nonlinear_arith)
        requires
            q == a / b,
            b > 0,
            a >= 0,
    ;
    assert(q < u128::MAX || rest == 0) by (nonlinear_arith)
        requires
            q == a / b,
            rest == a % b,
            b > 0,
            0 <= a <= u128::MAX,
    ;
    if 2 * rest > b || (2 * rest == b && q % 2 == 1) {
        q + 1
    } else {
        q
    }
}

pub fn round_up(a: u128, b: u128) -> (r: u128)
    requires
        0 < b <= 0x4000_0000_0000_0000_0000_0000_0000_0000,
        a < u128::MAX,
    ensures
        r == nearest_up(a as nat, b as nat),
        r <= a + 1,
{
    let q: u128 = a / b;
    let rest: u128 = a % b;
    assert(q <= a) by (nonlinear_arith)
        requires
            q == a / b,
            b > 0,
            a >= 0,
    ;
    if 2 * rest >= b {
        q + 1
    } else {
        q
    }
}

/// A part of a whole, scaled to `m` and rounded, is at most `m`.
pub proof fn lemma_nearest_up_within(n: nat, d: nat, m: nat)
    requires
        0 < d,
        n <= d,
    ensures
        nearest_up(n * m, d) <= m,
{
    let a = n * m;
    let q = a / d;
    let r = a % d;
    assert(a <= m * d) by (nonlinear_arith)
        requires
            a == n * m,
            n <= d,
    ;
    assert(a == q * d + r && 0 <= r < d) by (nonlinear_arith)
        requires
            q == a / d,
            r == a % d,
            d > 0,
    ;
    assert(q < m || (q == m && r == 0)) by (nonlinear_arith)
        requires
            a == q * d + r,
            a <= m * d,
            0 <= r < d,
    ;
}

/// How many times `n` has to be doubled to reach `bound`.
pub open spec fn doublings(n: nat, bound: nat) -> nat
    decreases (if n >= bound { 0 } else { bound - n }),
{
    if n == 0 || n >= bound {
        0
    } else {
        1 + doublings(2 * n, bound)
    }
}

/// The binary places a double keeps below the point when it holds `n / d`.
pub open spec fn places_below(n: nat, d: nat) -> nat {
    doublings(n, pow2(52) * d)
}

/// The binary places a double drops above the point when it holds `n / d`.
pub open spec fn places_dropped(n: nat, d: nat) -> nat {
    doublings(pow2(53) * d, n + 1)
}

/// The significand of the double nearest to `n / d`.
///
/// A double keeps 53 significant binary places. With `below` places kept and
/// `dropped` places given up, the double nearest to `n / d` is
/// `significand * 2^dropped / 2^below`.
pub open spec fn significand(n: nat, d: nat) -> nat {
    nearest_even(n * pow2(places_below(n, d)), d * pow2(places_dropped(n, d)))
}

/// `n / d`, held as a double, in units of `1 / unit`, to the nearest whole
/// number. This is what printing the quotient with a fixed number of decimal
/// places shows, with the point left out: `unit` is ten to that number.
pub open spec fn shown(n: nat, d: nat, unit: nat) -> nat {
    shown_over(n, d, unit, 1)
}

/// The same after the double has been divided by `over`, a power of two, which
/// a double does exactly.
pub open spec fn shown_over(n: nat, d: nat, unit: nat, over: nat) -> nat {
    nearest_even(
        significand(n, d) * pow2(places_dropped(n, d)) * unit,
        pow2(places_below(n, d)) * over,
    )
}

proof fn lemma_scaled_step(n: nat, k: nat)
    ensures
        n * pow2(k + 1) == 2 * (n * pow2(k)),
        pow2(k + 1) == 2 * pow2(k),
{
    lemma_pow2_unfold(k + 1);
    assert(n * (2 * pow2(k)) == 2 * (n * pow2(k))) by (nonlinear_arith);
}

/// `n / d` in units of `1 / unit`, rounded as a double would show it.
pub fn scaled(n: u128, d: u64, unit: u64) -> (r: u128)
    requires
        d > 0,
        n < 0x10_0000_0000_0000_0000_0000_0000,
        unit <= 10000,
    ensures
        r == shown(n as nat, d as nat, unit as nat),
        r < u128::MAX,
{
    proof {
        vstd::arithmetic::power2::lemma2_to64();
        vstd::arithmetic::power2::lemma2_to64_rest();
        lemma_pow2_pos(0);
    }
    let low: u128 = 0x10_0000_0000_0000 * d as u128;
    let mut x: u128 = n;
    let mut below: u128 = 1;
    let ghost mut k: nat = 0;
    assert(n as nat * pow2(0) == n as nat) by (nonlinear_arith)
        requires
            pow2(0) == 1,
    ;
    while x != 0 && x < low
        invariant
            low == 0x10_0000_0000_0000 * d,
            0 < d,
            x == n as nat * pow2(k),
            below == pow2(k),
            below > 0,
            doublings(n as nat, low as nat) == k + doublings(x as nat, low as nat),
            x == n || x < 2 * low,
            x == 0 ==> n == 0 && k == 0,
            below <= x || below == 1,
        decreases (if x >= low { 0 } else { low - x }),
    {
        proof {
            lemma_scaled_step(n as nat, k);
            k = k + 1;
        }
        x = 2 * x;
        below = 2 * below;
    }
    let mut y: u128 = d as u128;
    let mut dropped: u128 = 1;
    let ghost mut j: nat = 0;
    let ghost high: nat = (0x20_0000_0000_0000 * d) as nat;
    assert(d as nat * pow2(0) == d as nat) by (nonlinear_arith)
        requires
            pow2(0) == 1,
    ;
    while 0x20_0000_0000_0000 * y <= n
        invariant
            n < 0x10_0000_0000_0000_0000_0000_0000,
            high == 0x20_0000_0000_0000 * d,
            0 < d,
            y == d as nat * pow2(j),
            dropped == pow2(j),
            y == d || 0x10_0000_0000_0000 * y <= n,
            d <= y,
            dropped <= y,
            doublings(high, (n + 1) as nat) == j + doublings(
                (0x20_0000_0000_0000 * y) as nat,
                (n + 1) as nat,
            ),
        decreases n - y,
    {
        proof {
            lemma_scaled_step(d as nat, j);
            j = j + 1;
        }
        y = 2 * y;
        dropped = 2 * dropped;
    }
    proof {
        assert(low as nat == pow2(52) * d as nat);
        assert(high == pow2(53) * d as nat);
        assert(doublings(x as nat, low as nat) == 0);
        assert(doublings((0x20_0000_0000_0000 * y) as nat, (n + 1) as nat) == 0);
        assert(k == places_below(n as nat, d as nat));
        assert(j == places_dropped(n as nat, d as nat));
    }
    let m: u128 = round_even(x, y);
    proof {
        if y == d {
            if x == n {
                assert(x < 0x20_0000_0000_0000 * y);
            } else {
                assert(x < 2 * low);
            }
            assert(x < 0x20_0000_0000_0000 * y);
            assert(x / y < 0x20_0000_0000_0000) by (nonlinear_arith)
                requires
                    0 <= x < 0x20_0000_0000_0000 * y,
                    y > 0,
            ;
            assert(m <= 0x20_0000_0000_0000);
            assert(j == 0) by {
                if j > 0 {
                    assert(d as nat * pow2(j) >= 2 * d) by {
                        lemma_pow2_unfold(j);
                        lemma_pow2_pos((j - 1) as nat);
                        assert(d as nat * (2 * pow2((j - 1) as nat)) >= 2 * d) by (nonlinear_arith)
                            requires
                                pow2((j - 1) as nat) >= 1,
                        ;
                    }
                }
            }
            assert(m * dropped == m) by (nonlinear_arith)
                requires
                    dropped == 1,
            ;
        } else {
            assert(x == n) by {
                assert(n >= low) by (nonlinear_arith)
                    requires
                        0x10_0000_0000_0000 * y <= n,
                        y >= d,
                        low == 0x10_0000_0000_0000 * d,
                ;
                if x != n {
                    lemma_pow2_pos(k);
                    assert(x >= n) by (nonlinear_arith)
                        requires
                            x == n as nat * pow2(k),
                            pow2(k) >= 1,
                    ;
                    if k == 0 {
                    } else {
                        assert(doublings(n as nat, low as nat) == 0);
                    }
                }
            }
            let q: int = x as int / y as int;
            assert(q * y <= x) by (nonlinear_arith)
                requires
                    q == x as int / y as int,
                    y > 0,
                    x >= 0,
            ;
            assert(m <= q + 1);
            assert(m * dropped <= 2 * n) by (nonlinear_arith)
                requires
                    m <= q + 1,
                    q >= 0,
                    q * y <= x,
                    x == n,
                    0 <= dropped <= y,
                    y <= n,
            ;
        }
        assert(m * dropped <= 0x20_0000_0000_0000_0000_0000_0000);
        assert(m * dropped * unit <= 0x20_0000_0000_0000_0000_0000_0000 * 10000) by (nonlinear_arith)
            requires
                0 <= m * dropped <= 0x20_0000_0000_0000_0000_0000_0000,
                0 <= unit <= 10000,
        ;
        assert(x < 0x100_0000_0000_0000_0000_0000_0000_0000);
        assert(below <= 0x100_0000_0000_0000_0000_0000_0000_0000);
        assert(below * 1 == below) by (nonlinear_arith);
    }
    let whole: u128 = m * dropped;
    round_even(whole * unit as u128, below)
}

/// `n` in decimal with leading zeros up to `width` digits.
pub open spec fn zero_padded(n: nat, width: nat) -> Seq<char> {
    if dec(n).len() >= width {
        dec(n)
    } else {
        repeated('0', (width - dec(n).len()) as nat) + dec(n)
    }
}

/// A number of `10^-places` units with its decimal point: `1234` of two
/// places is `12.34`.
pub open spec fn fixed_point(units: nat, places: nat) -> Seq<char> {
    if places == 0 {
        dec(units)
    } else {
        let unit = vstd::arithmetic::power::pow(10, places) as nat;
        dec(units / unit) + seq!['.'] + zero_padded(units % unit, places)
    }
}

/// The whole of `n` in decimal.
pub fn wide_decimal(n: u128) -> (r: String)
    ensures
        r@ == dec(n as nat),
    decreases n,
{
    if n < 10 {
        let mut out = String::new();
        out.push(digit_char(n as u64));
        assert(out@ == dec(n as nat));
        out
    } else {
        let mut out = wide_decimal(n / 10);
        out.push(digit_char((n % 10) as u64));
        out
    }
}

fn write_fixed(units: u128, unit: u128, places: usize) -> (r: String)
    requires
        1 <= places <= 4,
        unit == vstd::arithmetic::power::pow(10, places as nat),
        unit > 0,
    ensures
        r@ == fixed_point(units as nat, places as nat),
{
    let mut out = wide_decimal(units / unit);
    out.push('.');
    let rest = wide_decimal(units % unit);
    let shown_digits: usize = rest.as_str().unicode_len();
    if shown_digits < places {
        out.append(repeat('0', places - shown_digits).as_str());
        out.append(rest.as_str());
        assert(out@ == fixed_point(units as nat, places as nat));
        out
    } else {
        out.append(rest.as_str());
        assert(out@ == fixed_point(units as nat, places as nat));
        out
    }
}

/// Hundredths, with both places written.
pub fn write_hundredths(units: u128) -> (r: String)
    ensures
        r@ == fixed_point(units as nat, 2),
{
    proof {
        reveal_with_fuel(vstd::arithmetic::power::pow, 3);
    }
    write_fixed(units, 100, 2)
}

/// `n / d` written with `places` decimal places.
pub open spec fn quotient_text(n: nat, d: nat, places: nat) -> Seq<char> {
    quotient_text_over(n, d, 1, places)
}

/// `n / d`, divided by a power of two, written with `places` decimal places.
pub open spec fn quotient_text_over(n: nat, d: nat, over: nat, places: nat) -> Seq<char> {
    fixed_point(
        shown_over(n, d, vstd::arithmetic::power::pow(10, places) as nat, over),
        places,
    )
}

/// Writes `n / d` with up to four decimal places.
pub fn write_quotient(n: u128, d: u64, places: usize) -> (r: String)
    requires
        d > 0,
        n < 0x10_0000_0000_0000_0000_0000_0000,
        places <= 4,
    ensures
        r@ == quotient_text(n as nat, d as nat, places as nat),
{
    proof {
        reveal_with_fuel(vstd::arithmetic::power::pow, 6);
    }
    if places == 0 {
        wide_decimal(scaled(n, d, 1))
    } else if places == 1 {
        write_fixed(scaled(n, d, 10), 10, 1)
    } else if places == 2 {
        write_fixed(scaled(n, d, 100), 100, 2)
    } else if places == 3 {
        write_fixed(scaled(n, d, 1000), 1000, 3)
    } else {
        write_fixed(scaled(n, d, 10000), 10000, 4)
    }
}

/// Whether `n / d`, held as a double, is below `k`.
pub open spec fn held_below(n: nat, d: nat, k: nat) -> bool {
    significand(n, d) * pow2(places_dropped(n, d)) < k * pow2(places_below(n, d))
}

/// Seconds as a double holds them are `seconds_top / seconds_bottom`.
pub open spec fn seconds_top(nanos: nat) -> nat {
    significand(nanos, 1_000_000_000)
}

pub open spec fn seconds_bottom(nanos: nat) -> nat {
    pow2(places_below(nanos, 1_000_000_000))
}

/// A quotient as a double holds it: `m * up / down`.
#[derive(Debug, Clone, Copy, PartialEq, Eq, Structural)]
pub struct Double {
    pub m: u64,
    pub up: u128,
    pub down: u128,
}

impl Double {
    /// Whether this is the double nearest to `n / d`.
    pub open spec fn holds(self, n: nat, d: nat) -> bool {
        &&& self.m == significand(n, d)
        &&& self.up == pow2(places_dropped(n, d))
        &&& self.down == pow2(places_below(n, d))
    }

    /// Whether it is neither very large nor very small.
    pub open spec fn moderate(self) -> bool {
        &&& self.m <= 0x20_0000_0000_0000
        &&& 0 < self.up <= 0x800_0000_0000
        &&& 0 < self.down <= 0x400_0000_0000_0000_0000_0000_0000
    }

    /// Whether it is below `k`.
    pub fn below(self, k: u64) -> (r: bool)
        requires
            self.moderate(),
            k <= 0x10_0000,
        ensures
            r == (self.m * self.up < k * self.down),
    {
        assert(self.m * self.up <= 0x20_0000_0000_0000 * 0x800_0000_0000) by (nonlinear_arith)
            requires
                0 <= self.m <= 0x20_0000_0000_0000,
                0 < self.up <= 0x800_0000_0000,
        ;
        assert(k * self.down <= 0x10_0000 * 0x400_0000_0000_0000_0000_0000_0000)
            by (nonlinear_arith)
            requires
                0 <= k <= 0x10_0000,
                0 < self.down <= 0x400_0000_0000_0000_0000_0000_0000,
        ;
        (self.m as u128) * self.up < (k as u128) * self.down
    }

    /// In units of `1 / unit`, after it was divided by `over`.
    fn in_units(self, unit: u64, over: u64) -> (r: u128)
        requires
            self.moderate(),
            unit <= 10,
            0 < over <= 0x10_0000,
        ensures
            r == nearest_even(
                (self.m * self.up * unit) as nat,
                (self.down * over) as nat,
            ),
    {
        assert(self.m * self.up <= 0x20_0000_0000_0000 * 0x800_0000_0000) by (nonlinear_arith)
            requires
                0 <= self.m <= 0x20_0000_0000_0000,
                0 < self.up <= 0x800_0000_0000,
        ;
        let whole: u128 = self.m as u128 * self.up;
        assert(0 <= whole * unit <= 0x20_0000_0000_0000 * 0x800_0000_0000 * 10)
            by (nonlinear_arith)
            requires
                0 <= whole <= 0x20_0000_0000_0000 * 0x800_0000_0000,
                0 <= unit <= 10,
        ;
        assert(0 < self.down * over <= 0x10_0000 * 0x400_0000_0000_0000_0000_0000_0000)
            by (nonlinear_arith)
            requires
                0 < over <= 0x10_0000,
                0 < self.down <= 0x400_0000_0000_0000_0000_0000_0000,
        ;
        round_even(whole * unit as u128, self.down * over as u128)
    }

    /// Written to the nearest whole number.
    pub fn write_whole(self) -> (r: String)
        requires
            self.moderate(),
        ensures
            forall|n: nat, d: nat| #[trigger] self.holds(n, d) ==> r@ == quotient_text(n, d, 0),
    {
        proof {
            reveal_with_fuel(vstd::arithmetic::power::pow, 2);
        }
        wide_decimal(self.in_units(1, 1))
    }

    /// Divided by a power of two, and written with one decimal place.
    pub fn write_tenths(self, over: u64) -> (r: String)
        requires
            self.moderate(),
            0 < over <= 0x10_0000,
        ensures
            forall|n: nat, d: nat| #[trigger]
                self.holds(n, d) ==> r@ == quotient_text_over(n, d, over as nat, 1),
    {
        proof {
            reveal_with_fuel(vstd::arithmetic::power::pow, 2);
        }
        write_fixed(self.in_units(10, over), 10, 1)
    }
}

proof fn lemma_doublings_are(n: nat, bound: nat, j: nat)
    requires
        n > 0,
        n * pow2(j) >= bound,
        j > 0 ==> n * pow2((j - 1) as nat) < bound,
    ensures
        doublings(n, bound) == j,
    decreases j,
{
    vstd::arithmetic::power2::lemma2_to64();
    if j == 0 {
        assert(n * pow2(0) == n) by (nonlinear_arith)
            requires
                pow2(0) == 1,
        ;
    } else {
        let k = (j - 1) as nat;
        lemma_pow2_pos(k);
        lemma_pow2_unfold(j);
        assert(n <= n * pow2(k)) by (nonlinear_arith)
            requires
                pow2(k) >= 1,
        ;
        assert((2 * n) * pow2(k) == n * pow2(j)) by (nonlinear_arith)
            requires
                pow2(j) == 2 * pow2(k),
        ;
        if k > 0 {
            lemma_pow2_unfold(k);
            assert((2 * n) * pow2((k - 1) as nat) == n * pow2(k)) by (nonlinear_arith)
                requires
                    pow2(k) == 2 * pow2((k - 1) as nat),
            ;
        }
        lemma_doublings_are(2 * n, bound, k);
    }
}

/// Rounding a quotient does not depend on what both of its sides share.
proof fn lemma_same_rounding(a: nat, b: nat, c: nat)
    requires
        b > 0,
        c > 0,
    ensures
        nearest_even(a * c, b * c) == nearest_even(a, b),
{
    let q = a / b;
    let r = a % b;
    assert(a == q * b + r && 0 <= r < b) by (nonlinear_arith)
        requires
            q == a / b,
            r == a % b,
            b > 0,
    ;
    assert(a * c == q * (b * c) + r * c) by (nonlinear_arith)
        requires
            a == q * b + r,
    ;
    assert(0 <= r * c < b * c) by (nonlinear_arith)
        requires
            0 <= r < b,
            c > 0,
    ;
    vstd::arithmetic::div_mod::lemma_fundamental_div_mod_converse(
        (a * c) as int,
        (b * c) as int,
        q as int,
        (r * c) as int,
    );
    assert(2 * (r * c) > b * c <==> 2 * r > b) by (nonlinear_arith)
        requires
            c > 0,
    ;
    assert(2 * (r * c) == b * c <==> 2 * r == b) by (nonlinear_arith)
        requires
            c > 0,
    ;
}

/// A power of two over another.
proof fn lemma_pow2_over(a: nat, b: nat)
    requires
        a >= b,
    ensures
        pow2(a) == pow2((a - b) as nat) * pow2(b),
        pow2(a) / pow2(b) == pow2((a - b) as nat),
{
    let c = (a - b) as nat;
    vstd::arithmetic::power2::lemma_pow2_adds(c, b);
    lemma_pow2_pos(b);
    vstd::arithmetic::div_mod::lemma_div_multiples_vanish(pow2(c) as int, pow2(b) as int);
    assert(pow2(c) * pow2(b) == pow2(b) * pow2(c)) by (nonlinear_arith);
}

/// The double nearest to `n * 2^e / d` is the one nearest to `n / d`, moved by
/// `e` places: with `k` doublings of `n` to fill a significand, the places kept
/// below the point are what `k` has more than `e`, and those dropped above it are
/// what `e` has more than `k`.
proof fn lemma_moved(n: nat, e: nat, d: nat, k: nat)
    requires
        n > 0,
        d > 0,
        pow2(52) * d <= n * pow2(k) < pow2(53) * d,
    ensures
        places_below(n * pow2(e), d) == if k >= e {
            (k - e) as nat
        } else {
            0
        },
        places_dropped(n * pow2(e), d) == if k >= e {
            0
        } else {
            (e - k) as nat
        },
        significand(n * pow2(e), d) == nearest_even(n * pow2(k), d),
{
    vstd::arithmetic::power2::lemma2_to64();
    vstd::arithmetic::power2::lemma2_to64_rest();
    let w = n * pow2(e);
    let x = n * pow2(k);
    let low = pow2(52) * d;
    let high = pow2(53) * d;
    lemma_pow2_pos(e);
    lemma_pow2_pos(k);
    assert(high == 2 * low) by (nonlinear_arith)
        requires
            high == pow2(53) * d,
            low == pow2(52) * d,
            pow2(53) == 2 * pow2(52),
    ;
    assert(w > 0) by (nonlinear_arith)
        requires
            w == n * pow2(e),
            n > 0,
            pow2(e) > 0,
    ;
    assert(high > 0) by (nonlinear_arith)
        requires
            high == pow2(53) * d,
            pow2(53) > 0,
            d > 0,
    ;
    if k >= e {
        let j = (k - e) as nat;
        lemma_pow2_over(k, e);
        lemma_pow2_pos(j);
        assert(w * pow2(j) == x) by (nonlinear_arith)
            requires
                w == n * pow2(e),
                x == n * pow2(k),
                pow2(k) == pow2(j) * pow2(e),
        ;
        if j > 0 {
            lemma_pow2_unfold(j);
            assert(2 * (w * pow2((j - 1) as nat)) == w * pow2(j)) by (nonlinear_arith)
                requires
                    pow2(j) == 2 * pow2((j - 1) as nat),
            ;
        }
        lemma_doublings_are(w, low, j);
        assert(w <= x) by (nonlinear_arith)
            requires
                w * pow2(j) == x,
                pow2(j) >= 1,
                w >= 0,
        ;
        assert(high * pow2(0) == high) by (nonlinear_arith)
            requires
                pow2(0) == 1,
        ;
        lemma_doublings_are(high, w + 1, 0);
        assert(d * pow2(0) == d) by (nonlinear_arith)
            requires
                pow2(0) == 1,
        ;
    } else {
        let j = (e - k) as nat;
        lemma_pow2_over(e, k);
        lemma_pow2_pos(j);
        assert(w == x * pow2(j)) by (nonlinear_arith)
            requires
                w == n * pow2(e),
                x == n * pow2(k),
                pow2(e) == pow2(j) * pow2(k),
        ;
        assert(w >= x) by (nonlinear_arith)
            requires
                w == x * pow2(j),
                pow2(j) >= 1,
                x >= 0,
        ;
        assert(w * pow2(0) == w) by (nonlinear_arith)
            requires
                pow2(0) == 1,
        ;
        lemma_doublings_are(w, low, 0);
        assert(high * pow2(j) >= w + 1) by (nonlinear_arith)
            requires
                w == x * pow2(j),
                x < high,
                pow2(j) >= 1,
        ;
        lemma_pow2_unfold(j);
        assert(high * pow2((j - 1) as nat) < w + 1) by (nonlinear_arith)
            requires
                high == 2 * low,
                low <= x,
                w == x * pow2(j),
                pow2(j) == 2 * pow2((j - 1) as nat),
        ;
        lemma_doublings_are(high, w + 1, j);
        lemma_same_rounding(x, d, pow2(j));
    }
}

/// Nothing over anything is held as nothing.
pub proof fn lemma_nothing_held(d: nat)
    requires
        d > 0,
    ensures
        (Double { m: 0, up: 1, down: 1 }).holds(0, d),
{
    vstd::arithmetic::power2::lemma2_to64();
    vstd::arithmetic::power2::lemma2_to64_rest();
    assert(pow2(53) * d >= 1) by (nonlinear_arith)
        requires
            pow2(53) >= 1,
            d >= 1,
    ;
    assert(d * pow2(0) == d) by (nonlinear_arith)
        requires
            pow2(0) == 1,
    ;
    assert(0int / d as int == 0 && 0int % d as int == 0) by (nonlinear_arith)
        requires
            d > 0,
    ;
    assert(0 * pow2(0) == 0);
}

/// The double nearest to a count over a time, which is first held as a double in
/// seconds.
pub fn per_second(count: u64, nanos: u64) -> (r: Double)
    requires
        nanos > 0,
    ensures
        r.holds(
            count as nat * seconds_bottom(nanos as nat),
            seconds_top(nanos as nat),
        ),
        r.moderate(),
{
    proof {
        vstd::arithmetic::power2::lemma2_to64();
        vstd::arithmetic::power2::lemma2_to64_rest();
    }
    let (top, bottom) = split_seconds(nanos);
    let ghost e = places_below(nanos as nat, 1_000_000_000);
    if count == 0 {
        proof {
            assert(0 * seconds_bottom(nanos as nat) == 0);
            lemma_nothing_held(top as nat);
        }
        return Double { m: 0, up: 1, down: 1 };
    }
    let low: u128 = 0x10_0000_0000_0000 * top as u128;
    let mut x: u128 = count as u128;
    let mut power: u128 = 1;
    let ghost mut k: nat = 0;
    assert(count as nat * pow2(0) == count as nat) by (nonlinear_arith)
        requires
            pow2(0) == 1,
    ;
    while x < low
        invariant
            low == 0x10_0000_0000_0000 * top,
            0x10_0000_0000_0000 <= top <= 0x20_0000_0000_0000,
            0 < count,
            x == count as nat * pow2(k),
            power == pow2(k),
            0 < power <= x < 2 * low,
        decreases (if x >= low { 0 } else { low - x }),
    {
        proof {
            lemma_scaled_step(count as nat, k);
            k = k + 1;
        }
        x = 2 * x;
        power = 2 * power;
    }
    let m: u128 = round_even(x, top as u128);
    proof {
        assert(low as nat == pow2(52) * top as nat);
        assert(2 * low as nat == pow2(53) * top as nat);
        lemma_moved(count as nat, e, top as nat, k);
        assert(x as int / top as int <= 0x1f_ffff_ffff_ffff) by (nonlinear_arith)
            requires
                0 <= x < 2 * low,
                low == 0x10_0000_0000_0000 * top,
                top > 0,
        ;
        assert(power > 0x100_0000_0000) by (nonlinear_arith)
            requires
                x == count * power,
                x >= 0x10_0000_0000_0000 * 0x10_0000_0000_0000,
                0 < count <= 0xffff_ffff_ffff_ffff,
        ;
        if k >= e {
            lemma_pow2_over(k, e);
            lemma_pow2_pos((k - e) as nat);
            lemma_pow2_pos(e);
        } else {
            lemma_pow2_over(e, k);
            lemma_pow2_pos((e - k) as nat);
        }
    }
    if power >= bottom {
        proof {
            if k < e {
                vstd::arithmetic::power2::lemma_pow2_strictly_increases(k, e);
            }
            assert(power / bottom <= power) by (nonlinear_arith)
                requires
                    bottom > 0,
                    power >= 0,
            ;
        }
        Double { m: m as u64, up: 1, down: power / bottom }
    } else {
        proof {
            if k >= e {
                if k > e {
                    vstd::arithmetic::power2::lemma_pow2_strictly_increases(e, k);
                }
            }
            let q = bottom as int / power as int;
            assert(q * power <= bottom) by (nonlinear_arith)
                requires
                    q == bottom as int / power as int,
                    power > 0,
            ;
            assert(q <= 0x800_0000_0000) by (nonlinear_arith)
                requires
                    q * power <= bottom,
                    bottom <= 0x8_0000_0000_0000_0000_0000,
                    power > 0x100_0000_0000,
            ;
        }
        Double { m: m as u64, up: bottom / power, down: 1 }
    }
}

/// A time in seconds, as a double holds it.
fn split_seconds(nanos: u64) -> (r: (u64, u128))
    requires
        nanos > 0,
    ensures
        r.0 == seconds_top(nanos as nat),
        r.1 == seconds_bottom(nanos as nat),
        0x10_0000_0000_0000 <= r.0 <= 0x20_0000_0000_0000,
        0 < r.1 <= 0x8_0000_0000_0000_0000_0000,
{
    proof {
        vstd::arithmetic::power2::lemma2_to64();
        vstd::arithmetic::power2::lemma2_to64_rest();
    }
    let low: u128 = 0x10_0000_0000_0000 * 1_000_000_000;
    let mut x: u128 = nanos as u128;
    let mut power: u128 = 1;
    let ghost mut k: nat = 0;
    assert(nanos as nat * pow2(0) == nanos as nat) by (nonlinear_arith)
        requires
            pow2(0) == 1,
    ;
    while x < low
        invariant
            low == 0x10_0000_0000_0000 * 1_000_000_000,
            0 < nanos,
            x == nanos as nat * pow2(k),
            power == pow2(k),
            0 < power <= x < 2 * low,
        decreases (if x >= low { 0 } else { low - x }),
    {
        proof {
            lemma_scaled_step(nanos as nat, k);
            k = k + 1;
        }
        x = 2 * x;
        power = 2 * power;
    }
    proof {
        assert(nanos as nat * pow2(0) == nanos as nat) by (nonlinear_arith)
            requires
                pow2(0) == 1,
        ;
        lemma_moved(nanos as nat, 0, 1_000_000_000, k);
    }
    let m: u128 = round_even(x, 1_000_000_000);
    (m as u64, power)
}

/// A product, or the largest number that fits.
pub open spec fn product_up(a: int, b: int) -> int {
    if a * b > u64::MAX {
        u64::MAX as int
    } else {
        a * b
    }
}

pub fn multiply_up(a: u64, b: u64) -> (r: u64)
    ensures
        r == product_up(a as int, b as int),
{
    assert(a * b <= u64::MAX * u64::MAX) by (nonlinear_arith)
        requires
            a <= u64::MAX,
            b <= u64::MAX,
    ;
    let product: u128 = a as u128 * b as u128;
    if product > u64::MAX as u128 {
        u64::MAX
    } else {
        product as u64
    }
}

/// A quotient of two counts, such as busy ticks over all ticks. Over zero it
/// stands for nothing measured and counts as zero.
#[derive(Debug, Clone, Copy, PartialEq, Eq, Structural)]
pub struct Ratio {
    pub num: u64,
    pub den: u64,
}

impl Ratio {
    /// The numerator, or zero if there is no denominator.
    pub open spec fn top(self) -> nat {
        if self.den == 0 {
            0
        } else {
            self.num as nat
        }
    }

    /// The denominator, or one if there is none.
    pub open spec fn bottom(self) -> nat {
        if self.den == 0 {
            1
        } else {
            self.den as nat
        }
    }

    /// The same value with a denominator that is not zero.
    pub open spec fn proper(self) -> Ratio {
        if self.den == 0 {
            Ratio { num: 0, den: 1 }
        } else {
            self
        }
    }

    pub fn settled(self) -> (r: Ratio)
        ensures
            r == self.proper(),
            r.den > 0,
            r.num == self.top(),
            r.den == self.bottom(),
    {
        if self.den == 0 {
            Ratio { num: 0, den: 1 }
        } else {
            self
        }
    }

    pub fn new(num: u64, den: u64) -> (r: Ratio)
        ensures
            r == (Ratio { num, den }),
    {
        Ratio { num, den }
    }

    /// The value, or one if it is more than one.
    pub open spec fn capped(self) -> Ratio {
        if self.den == 0 {
            Ratio { num: 0, den: 1 }
        } else if self.num > self.den {
            Ratio { num: self.den, den: self.den }
        } else {
            self
        }
    }

    pub fn at_most_one(self) -> (r: Ratio)
        ensures
            r == self.capped(),
            r.num <= r.den,
            0 < r.den,
    {
        if self.den == 0 {
            Ratio { num: 0, den: 1 }
        } else if self.num > self.den {
            Ratio { num: self.den, den: self.den }
        } else {
            self
        }
    }

    /// This part of `m`, to the nearest whole number.
    pub open spec fn of(self, m: nat) -> nat {
        nearest_up(self.num as nat * m, self.den as nat)
    }

    pub fn part_of(self, m: usize) -> (r: usize)
        requires
            self.num <= self.den,
            0 < self.den,
        ensures
            r == self.of(m as nat),
            r <= m,
    {
        assert(self.num * m <= u64::MAX * u64::MAX) by (nonlinear_arith)
            requires
                self.num <= u64::MAX,
                m <= usize::MAX,
                usize::MAX <= u64::MAX,
        ;
        proof {
            lemma_nearest_up_within(self.num as nat, self.den as nat, m as nat);
        }
        round_up(self.num as u128 * m as u128, self.den as u128) as usize
    }

    /// Whether this is below `other`.
    pub open spec fn below(self, other: Ratio) -> bool {
        self.top() * other.bottom() < other.top() * self.bottom()
    }

    pub fn less_than(self, other: Ratio) -> (r: bool)
        ensures
            r == self.below(other),
    {
        let a = self.settled();
        let b = other.settled();
        assert(a.num * b.den <= u64::MAX * u64::MAX) by (nonlinear_arith)
            requires
                a.num <= u64::MAX,
                b.den <= u64::MAX,
        ;
        assert(b.num * a.den <= u64::MAX * u64::MAX) by (nonlinear_arith)
            requires
                b.num <= u64::MAX,
                a.den <= u64::MAX,
        ;
        (a.num as u128) * (b.den as u128) < (b.num as u128) * (a.den as u128)
    }

    /// Whether this is at least `percent` hundredths.
    pub open spec fn reaches(self, percent: nat) -> bool {
        self.top() * 100 >= percent * self.bottom()
    }

    pub fn at_least(self, percent: u64) -> (r: bool)
        ensures
            r == self.reaches(percent as nat),
    {
        let a = self.settled();
        assert(percent * a.den <= u64::MAX * u64::MAX) by (nonlinear_arith)
            requires
                percent <= u64::MAX,
                a.den <= u64::MAX,
        ;
        a.num as u128 * 100 >= percent as u128 * a.den as u128
    }

    /// The value in percent, written with `places` decimal places.
    pub open spec fn percent_text(self, places: nat) -> Seq<char> {
        quotient_text(self.top() * 100, self.bottom(), places)
    }

    pub fn percent(self, places: usize) -> (r: String)
        requires
            places <= 4,
        ensures
            r@ == self.percent_text(places as nat),
    {
        let a = self.settled();
        write_quotient(a.num as u128 * 100, a.den, places)
    }
}

/// `n / d` for a signed `n`, written with `places` decimal places.
pub open spec fn signed_quotient_text(n: int, d: nat, places: nat) -> Seq<char> {
    if n < 0 {
        seq!['-'] + quotient_text((-n) as nat, d, places)
    } else {
        quotient_text(n as nat, d, places)
    }
}

pub fn write_signed_quotient(n: i64, d: u64, places: usize) -> (r: String)
    requires
        d > 0,
        places <= 4,
    ensures
        r@ == signed_quotient_text(n as int, d as nat, places as nat),
{
    if n < 0 {
        let size: u128 = (-(n as i128)) as u128;
        let mut out = String::new();
        out.push('-');
        out.append(write_quotient(size, d, places).as_str());
        assert(out@ == signed_quotient_text(n as int, d as nat, places as nat));
        out
    } else {
        write_quotient(n as u128, d, places)
    }
}

/// A measurement kept in millionths, written with `places` decimal places.
pub open spec fn micro_text(n: int, places: nat) -> Seq<char> {
    signed_quotient_text(n, 1_000_000, places)
}

pub fn write_micro(n: i64, places: usize) -> (r: String)
    requires
        places <= 4,
    ensures
        r@ == micro_text(n as int, places as nat),
{
    write_signed_quotient(n, 1_000_000, places)
}

proof fn lemma_doublings_reach(n: nat, bound: nat)
    requires
        n > 0,
    ensures
        n * pow2(doublings(n, bound)) >= bound,
    decreases (if n >= bound { 0 } else { bound - n }),
{
    if n >= bound {
        vstd::arithmetic::power2::lemma2_to64();
    } else {
        lemma_doublings_reach(2 * n, bound);
        let k = doublings(2 * n, bound);
        lemma_pow2_unfold(k + 1);
        assert(n * pow2(k + 1) == (2 * n) * pow2(k)) by (nonlinear_arith)
            requires
                pow2(k + 1) == 2 * pow2(k),
        ;
    }
}

proof fn lemma_nearest_even_near(a: nat, b: nat)
    requires
        b > 0,
    ensures
        2 * nearest_even(a, b) * b <= 2 * a + b,
{
    let q = a / b;
    let r = a % b;
    assert(a == q * b + r && 0 <= r < b) by (nonlinear_arith)
        requires
            q == a / b,
            r == a % b,
            b > 0,
    ;
    let e = nearest_even(a, b);
    assert(e == q || (e == q + 1 && 2 * r >= b));
    assert(2 * e * b <= 2 * a + b) by (nonlinear_arith)
        requires
            a == q * b + r,
            0 <= r < b,
            e == q || (e == q + 1 && 2 * r >= b),
    ;
}

/// What is below `1000 - 1/20` of a unit is shown with three digits before the
/// point: it is never rounded up to a fourth.
pub proof fn lemma_shown_in_tenths(n: nat, d: nat)
    requires
        1000 <= d <= 1_000_000_000,
        20 * n + 20 <= 19_999 * d,
    ensures
        shown(n, d, 10) <= 9_999,
{
    let k = places_below(n, d);
    vstd::arithmetic::power2::lemma2_to64();
    vstd::arithmetic::power2::lemma2_to64_rest();
    lemma_pow2_pos(k);
    assert(pow2(53) == 0x20_0000_0000_0000);
    assert(pow2(52) == 0x10_0000_0000_0000);
    assert(places_dropped(n, d) == 0) by {
        assert(pow2(53) * d >= n + 1) by (nonlinear_arith)
            requires
                pow2(53) == 0x20_0000_0000_0000,
                20 * n + 20 <= 19_999 * d,
        ;
    }
    assert(pow2(0) == 1);
    let m = significand(n, d);
    let p = pow2(k);
    assert(m == nearest_even(n * p, d)) by {
        assert(d * pow2(0) == d) by (nonlinear_arith)
            requires
                pow2(0) == 1,
        ;
    }
    let s = shown(n, d, 10);
    assert(s == nearest_even(m * 10, p)) by {
        assert(m * pow2(0) * 10 == m * 10) by (nonlinear_arith)
            requires
                pow2(0) == 1,
        ;
        assert(p * 1 == p);
    }
    if n == 0 {
        assert(n * p == 0) by (nonlinear_arith)
            requires
                n == 0,
        ;
        lemma_nearest_even_near(0, d);
        assert(m == 0) by (nonlinear_arith)
            requires
                2 * m * d <= d,
                d > 0,
        ;
        lemma_nearest_even_near(0, p);
        assert(s == 0) by (nonlinear_arith)
            requires
                2 * s * p <= p,
                p > 0,
        ;
    } else {
        lemma_doublings_reach(n, pow2(52) * d);
        lemma_nearest_even_near(n * p, d);
        lemma_nearest_even_near(m * 10, p);
        assert(p > d) by (nonlinear_arith)
            requires
                n * p >= pow2(52) * d,
                pow2(52) == 0x10_0000_0000_0000,
                20 * n + 20 <= 19_999 * d,
                1000 <= d <= 1_000_000_000,
        ;
        assert(2 * s * p * d <= 20 * (n * p) + 10 * d + p * d) by (nonlinear_arith)
            requires
                2 * m * d <= 2 * (n * p) + d,
                2 * s * p <= 2 * (m * 10) + p,
                d > 0,
                p > 0,
        ;
        assert(s < 10_000) by (nonlinear_arith)
            requires
                2 * s * p * d <= 20 * (n * p) + 10 * d + p * d,
                20 * n + 20 <= 19_999 * d,
                p > d,
                d > 0,
        ;
    }
}

/// A number below a power of ten has no more digits than that has noughts.
pub proof fn lemma_digits(n: nat)
    ensures
        n < 10 ==> dec(n).len() == 1,
        n < 1000 ==> dec(n).len() <= 3,
    decreases n,
{
    if n >= 10 {
        lemma_digits(n / 10);
        if n < 1000 {
            if n / 10 >= 10 {
                lemma_digits(n / 100);
                assert(n / 10 / 10 == n / 100);
                assert(dec(n / 10) == dec(n / 100).push(digit((n / 10 % 10) as int)));
            }
            assert(dec(n) == dec(n / 10).push(digit((n % 10) as int)));
        }
    }
}

/// A rounded quotient is a nearest whole number, and of two equally near the
/// even one.
pub proof fn rounds_to_the_nearest(a: nat, b: nat)
    requires
        b > 0,
    ensures
        2 * (nearest_even(a, b) * b) <= 2 * a + b,
        2 * a <= 2 * (nearest_even(a, b) * b) + b,
        2 * (nearest_even(a, b) * b) == 2 * a + b || 2 * a == 2 * (nearest_even(a, b) * b) + b
            ==> nearest_even(a, b) % 2 == 0,
{
    let q = a / b;
    let r = a % b;
    assert(a == q * b + r && 0 <= r < b) by (nonlinear_arith)
        requires
            q == a / b,
            r == a % b,
            b > 0,
    ;
    assert((q + 1) * b == q * b + b) by (nonlinear_arith);
}

/// A rounded share is a nearest whole number, and of two equally near the larger
/// one.
pub proof fn shares_round_up(a: nat, b: nat)
    requires
        b > 0,
    ensures
        2 * (nearest_up(a, b) * b) <= 2 * a + b,
        2 * a < 2 * (nearest_up(a, b) * b) + b,
{
    let q = a / b;
    let r = a % b;
    assert(a == q * b + r && 0 <= r < b) by (nonlinear_arith)
        requires
            q == a / b,
            r == a % b,
            b > 0,
    ;
    assert((q + 1) * b == q * b + b) by (nonlinear_arith);
}

proof fn lemma_exact(x: nat, d: nat)
    requires
        d > 0,
    ensures
        nearest_even(x * d, d) == x,
{
    let n = x * d;
    assert(n / d == x && n % d == 0) by (nonlinear_arith)
        requires
            n == x * d,
            d > 0,
    ;
}

/// What a whole number of units is held as.
proof fn lemma_whole_is_held(m: nat, d: nat)
    requires
        0 < m < 0x20_0000_0000_0000,
        d > 0,
    ensures
        places_dropped(m * d, d) == 0,
        significand(m * d, d) == m * pow2(places_below(m * d, d)),
        pow2(places_dropped(m * d, d)) == 1,
        pow2(places_below(m * d, d)) > 0,
{
    let n = m * d;
    vstd::arithmetic::power2::lemma2_to64();
    vstd::arithmetic::power2::lemma2_to64_rest();
    assert(pow2(53) == 0x20_0000_0000_0000);
    assert(pow2(53) * d >= n + 1) by (nonlinear_arith)
        requires
            pow2(53) == 0x20_0000_0000_0000,
            m < 0x20_0000_0000_0000,
            n == m * d,
            d > 0,
    ;
    let k = places_below(n, d);
    let p = pow2(k);
    lemma_pow2_pos(k);
    assert(n * p == (m * p) * d) by (nonlinear_arith)
        requires
            n == m * d,
    ;
    assert(d * pow2(0) == d) by (nonlinear_arith)
        requires
            pow2(0) == 1,
    ;
    lemma_exact(m * p, d);
}

/// A whole number of units is shown as that many, in whichever part of a unit
/// it is shown, and so where it is shown in a larger unit of which it is a whole
/// number.
pub proof fn whole_numbers_are_shown_exactly(m: nat, d: nat, unit: nat, over: nat)
    requires
        m * over < 0x20_0000_0000_0000,
        d > 0,
        over > 0,
    ensures
        shown_over((m * over) * d, d, unit, over) == m * unit,
{
    let w = m * over;
    let n = w * d;
    if m == 0 {
        assert(w == 0) by (nonlinear_arith)
            requires
                m == 0,
                w == m * over,
        ;
        assert(n == 0) by (nonlinear_arith)
            requires
                w == 0,
                n == w * d,
        ;
        lemma_nothing_shown(d, unit, over);
    } else {
        assert(w > 0) by (nonlinear_arith)
            requires
                m > 0,
                over > 0,
                w == m * over,
        ;
        lemma_whole_is_held(w, d);
        let p = pow2(places_below(n, d));
        let a = significand(n, d) * pow2(places_dropped(n, d)) * unit;
        assert(a == (m * unit) * (p * over)) by (nonlinear_arith)
            requires
                a == significand(n, d) * pow2(places_dropped(n, d)) * unit,
                significand(n, d) == w * p,
                pow2(places_dropped(n, d)) == 1,
                w == m * over,
        ;
        assert(p * over > 0) by (nonlinear_arith)
            requires
                p > 0,
                over > 0,
        ;
        lemma_exact(m * unit, p * over);
    }
    assert(0 * unit == 0);
    assert(m == 0 ==> m * unit == 0) by (nonlinear_arith);
}

proof fn lemma_nothing_shown(d: nat, unit: nat, over: nat)
    requires
        d > 0,
        over > 0,
    ensures
        shown_over(0, d, unit, over) == 0,
{
    let k = places_below(0, d);
    let j = places_dropped(0, d);
    lemma_pow2_pos(k);
    lemma_pow2_pos(j);
    let p = pow2(k);
    assert(0 * p == 0 * (d * pow2(j))) by (nonlinear_arith);
    assert(d * pow2(j) > 0) by (nonlinear_arith)
        requires
            d > 0,
            pow2(j) > 0,
    ;
    lemma_exact(0, d * pow2(j));
    assert(significand(0, d) == 0);
    assert(0 * pow2(j) * unit == 0 * (p * over)) by (nonlinear_arith);
    assert(p * over > 0) by (nonlinear_arith)
        requires
            p > 0,
            over > 0,
    ;
    lemma_exact(0, p * over);
}

/// A whole number of units is written as that number, with noughts behind the
/// point where there is one.
pub proof fn whole_numbers_are_written_exactly(m: nat, d: nat)
    requires
        m < 0x20_0000_0000_0000,
        d > 0,
    ensures
        quotient_text(m * d, d, 0) == dec(m),
        quotient_text(m * d, d, 1) == dec(m) + ".0"@,
{
    whole_numbers_are_shown_exactly(m, d, 1, 1);
    whole_numbers_are_shown_exactly(m, d, 10, 1);
    assert(m * 1 == m);
    reveal_with_fuel(vstd::arithmetic::power::pow, 3);
    assert(vstd::arithmetic::power::pow(10, 0) == 1);
    assert(vstd::arithmetic::power::pow(10, 1) == 10);
    reveal_strlit(".0");
    assert((m * 10) / 10 == m && (m * 10) % 10 == 0);
    assert(dec(0) == seq!['0']);
    assert(dec(m) + seq!['.'] + seq!['0'] == dec(m) + ".0"@);
}

/// A whole number of a thousand and twenty-four units, or of a million of them,
/// is written as that number of the larger unit.
pub proof fn larger_units_are_written_exactly(m: nat, d: nat, over: nat)
    requires
        m * over < 0x20_0000_0000_0000,
        d > 0,
        over > 0,
    ensures
        quotient_text_over((m * over) * d, d, over, 1) == dec(m) + ".0"@,
{
    whole_numbers_are_shown_exactly(m, d, 10, over);
    reveal_with_fuel(vstd::arithmetic::power::pow, 3);
    assert(vstd::arithmetic::power::pow(10, 1) == 10);
    reveal_strlit(".0");
    assert((m * 10) / 10 == m && (m * 10) % 10 == 0);
    assert(dec(0) == seq!['0']);
    assert(dec(m) + seq!['.'] + seq!['0'] == dec(m) + ".0"@);
}

/// A whole number is below a bound as it is held exactly when it is below it.
pub proof fn whole_numbers_are_held_exactly(m: nat, d: nat, k: nat)
    requires
        m < 0x20_0000_0000_0000,
        d > 0,
    ensures
        held_below(m * d, d, k) <==> m < k,
{
    let n = m * d;
    if m == 0 {
        assert(n == 0) by (nonlinear_arith)
            requires
                m == 0,
                n == m * d,
        ;
        let p = pow2(places_below(0, d));
        let j = pow2(places_dropped(0, d));
        lemma_pow2_pos(places_below(0, d));
        lemma_pow2_pos(places_dropped(0, d));
        assert(0 * p == 0 * (d * j)) by (nonlinear_arith);
        assert(d * j > 0) by (nonlinear_arith)
            requires
                d > 0,
                j > 0,
        ;
        lemma_exact(0, d * j);
        assert(significand(0, d) == 0);
        assert(0 * j < k * p <==> 0 < k) by (nonlinear_arith)
            requires
                p > 0,
        ;
    } else {
        lemma_whole_is_held(m, d);
        let p = pow2(places_below(n, d));
        let held = significand(n, d) * pow2(places_dropped(n, d));
        assert(held == m * p) by (nonlinear_arith)
            requires
                held == significand(n, d) * pow2(places_dropped(n, d)),
                significand(n, d) == m * p,
                pow2(places_dropped(n, d)) == 1,
        ;
        assert(m * p < k * p <==> m < k) by (nonlinear_arith)
            requires
                p > 0,
        ;
    }
}

/// A whole percentage is written as it is.
pub proof fn whole_percentages_are_exact(share: Ratio, percent: nat)
    requires
        share.den > 0,
        share.num * 100 == percent * share.den,
        percent < 0x20_0000_0000_0000,
    ensures
        share.percent_text(0) == dec(percent),
{
    whole_numbers_are_written_exactly(percent, share.den as nat);
    assert(share.num as nat * 100 == percent * share.den as nat);
}

/// A share reaches a percentage exactly when it is at least that many
/// hundredths, and with it every smaller one. Where there is nothing to share,
/// only nothing is reached.
pub proof fn percentages_are_hundredths(share: Ratio, percent: nat, lower: nat)
    requires
        lower <= percent,
    ensures
        share.den > 0 ==> (share.reaches(percent) <==> share.num * 100 >= percent * share.den),
        share.den == 0 ==> (share.reaches(percent) <==> percent == 0),
        share.reaches(percent) ==> share.reaches(lower),
        share.den > 0 && share.num == share.den ==> share.reaches(100) && !share.reaches(101),
{
    let b = share.bottom();
    assert(lower * b <= percent * b) by (nonlinear_arith)
        requires
            lower <= percent,
    ;
    assert(percent * 1 == percent);
}

/// Shares are compared as the quotients they stand for, and are never both
/// before each other.
pub proof fn shares_are_in_order(a: Ratio, b: Ratio)
    ensures
        a.below(b) ==> !b.below(a),
        !a.below(a),
        a.den > 0 && b.den > 0 ==> (a.below(b) <==> a.num * b.den < b.num * a.den),
        a.den == b.den && a.den > 0 ==> (a.below(b) <==> a.num < b.num),
        a.den == 0 && b.den > 0 ==> (a.below(b) <==> b.num > 0),
{
    if a.den == b.den && a.den > 0 {
        assert(a.num * b.den < b.num * a.den <==> a.num < b.num) by (nonlinear_arith)
            requires
                a.den == b.den,
                a.den > 0,
        ;
    }
    assert(0 * b.bottom() == 0);
}

/// A share is never shown as more than the whole, and one within it is shown as
/// it is.
pub proof fn shares_stay_within_the_whole(share: Ratio)
    ensures
        share.capped().den > 0,
        share.capped().num <= share.capped().den,
        share.den > 0 && share.num <= share.den ==> share.capped() == share,
        share.den > 0 && share.num > share.den ==> share.capped().num == share.capped().den,
        share.den == 0 ==> share.capped().num == 0,
{
}

/// A product is exact until it no longer fits, and then as large as can be.
pub proof fn products_never_wrap(a: u64, b: u64)
    ensures
        a * b <= u64::MAX ==> product_up(a as int, b as int) == a * b,
        a * b > u64::MAX ==> product_up(a as int, b as int) == u64::MAX,
{
}

/// A number below nought is written as its size with a minus before it.
pub proof fn signs_are_written_in_front(n: int, d: nat, places: nat)
    requires
        n > 0,
    ensures
        signed_quotient_text(-n, d, places) == seq!['-'] + signed_quotient_text(n, d, places),
        micro_text(n, places) == quotient_text(n as nat, 1_000_000, places),
{
}

/// A number has as many digits as it takes, so that one below a power of ten
/// fits in that many places.
pub proof fn digits_fit_their_places(n: nat, places: nat)
    requires
        places > 0,
        n < vstd::arithmetic::power::pow(10, places),
    ensures
        dec(n).len() <= places,
        zero_padded(n, places).len() == places,
    decreases places,
{
    vstd::arithmetic::power::lemma_pow0(10);
    if n >= 10 {
        if places == 1 {
            vstd::arithmetic::power::lemma_pow1(10);
        } else {
            let fewer = (places - 1) as nat;
            reveal(vstd::arithmetic::power::pow);
            assert(vstd::arithmetic::power::pow(10, places) == 10 * vstd::arithmetic::power::pow(
                10,
                fewer,
            ));
            digits_fit_their_places(n / 10, fewer);
        }
    }
}

/// A number in units of a fixed part is its whole part, a point and as many
/// digits as there are places; the two parts make up the number.
pub proof fn fixed_point_splits_the_number(units: nat, places: nat)
    requires
        places > 0,
    ensures
        exists|whole: nat, part: nat|
            {
                &&& units == whole * (vstd::arithmetic::power::pow(10, places) as nat) + part
                &&& part < vstd::arithmetic::power::pow(10, places)
                &&& fixed_point(units, places) == #[trigger] dec(whole) + seq!['.']
                    + #[trigger] zero_padded(part, places)
                &&& zero_padded(part, places).len() == places
            },
{
    vstd::arithmetic::power::lemma_pow_positive(10, places);
    let unit = vstd::arithmetic::power::pow(10, places) as nat;
    let whole = units / unit;
    let part = units % unit;
    assert(units == whole * unit + part && part < unit) by (nonlinear_arith)
        requires
            whole == units / unit,
            part == units % unit,
            unit > 0,
    ;
    digits_fit_their_places(part, places);
    assert(fixed_point(units, places) == dec(whole) + seq!['.'] + zero_padded(part, places));
}

/// One whole unit is held with as many places above the point as below it.
pub proof fn lemma_one_unit_is_held(d: nat)
    requires
        d > 0,
    ensures
        significand(d, d) == pow2(places_below(d, d)),
        significand(d, d) > 0,
{
    lemma_whole_is_held(1, d);
    assert(1 * d == d);
    assert(1 * pow2(places_below(d, d)) == pow2(places_below(d, d)));
}

/// A time that has passed is never held as none.
pub proof fn lemma_seconds_are_some(nanos: nat)
    requires
        0 < nanos <= u64::MAX,
    ensures
        seconds_top(nanos) > 0,
{
    let d = 1_000_000_000nat;
    let k = places_below(nanos, d);
    let p = pow2(k);
    vstd::arithmetic::power2::lemma2_to64();
    vstd::arithmetic::power2::lemma2_to64_rest();
    assert(pow2(53) == 0x20_0000_0000_0000);
    assert(pow2(52) == 0x10_0000_0000_0000);
    assert(places_dropped(nanos, d) == 0);
    lemma_doublings_reach(nanos, pow2(52) * d);
    assert(d * pow2(0) == d) by (nonlinear_arith)
        requires
            pow2(0) == 1,
    ;
    rounds_to_the_nearest(nanos * p, d);
    let m = nearest_even(nanos * p, d);
    assert(m > 0) by (nonlinear_arith)
        requires
            2 * (nanos * p) <= 2 * (m * d) + d,
            nanos * p >= pow2(52) * d,
            pow2(52) == 0x10_0000_0000_0000,
            d > 0,
    ;
}

/// A whole number to two places has two zeros behind its point.
pub proof fn whole_numbers_have_two_zeros(m: nat, d: nat)
    requires
        m < 0x20_0000_0000_0000,
        d > 0,
    ensures
        quotient_text(m * d, d, 2) == dec(m) + ".00"@,
{
    whole_numbers_are_shown_exactly(m, d, 100, 1);
    assert(m * 1 == m);
    reveal_with_fuel(vstd::arithmetic::power::pow, 4);
    assert(vstd::arithmetic::power::pow(10, 2) == 100);
    reveal_strlit(".00");
    assert((m * 100) / 100 == m && (m * 100) % 100 == 0);
    assert(dec(0) == seq!['0']);
    assert(zero_padded(0, 2) == seq!['0', '0']);
    assert(dec(m) + seq!['.'] + seq!['0', '0'] == dec(m) + ".00"@);
}

} // verus!
