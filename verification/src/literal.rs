//! Floats as text: the shortest decimal that reads back as the same float.

use vstd::prelude::*;

use crate::big;
use crate::big::{product_of_powers, Big};
use crate::float;
use crate::float::Float;
use crate::text;
use crate::text::{chars_of, decimal_text, signed_decimal_text, text_of};

verus! {

// ---------------------------------------------------------------------------
// Decimals and the float they are next to
//
// With `s` for the power of two that a quarter of a unit is, a decimal
// `d * 10^k` is compared with `c * 2^s` as `d * down(s, k)` with
// `c * up(s, k)`.

/// The exponent, where it is not negative.
pub open spec fn above(n: int) -> nat {
    if n > 0 {
        n as nat
    } else {
        0
    }
}

/// What `c` is taken times to compare `c * 2^s` with a multiple of `10^k`.
pub open spec fn up(s: int, k: int) -> nat {
    big::power(2, above(s)) * big::power(10, above(-k))
}

/// What `d` is taken times to compare `d * 10^k` with a multiple of `2^s`.
pub open spec fn down(s: int, k: int) -> nat {
    big::power(2, above(-s)) * big::power(10, above(k))
}

/// The power of two that a quarter of a unit in the last place is.
pub open spec fn quarter(x: Float) -> int {
    float::scale(x) - 2
}

/// The magnitude, in quarters.
pub open spec fn centre(x: Float) -> nat {
    4 * float::significand(x)
}

/// Halfway to the next float toward zero, in quarters. Below a power of two
/// floats lie twice as close.
pub open spec fn floor_end(x: Float) -> nat {
    if float::fraction(x) == 0 && float::exponent(x) > 1 {
        (centre(x) - 1) as nat
    } else {
        (centre(x) - 2) as nat
    }
}

/// Halfway to the next float away from zero, in quarters.
pub open spec fn ceil_end(x: Float) -> nat {
    centre(x) + 2
}

/// Whether `d * 10^k` reads as a float: it lies nearer to it than to any
/// other, or halfway with an even significand.
pub open spec fn rounds_to(x: Float, d: nat, k: int) -> bool {
    let low = floor_end(x) * up(quarter(x), k);
    let high = ceil_end(x) * up(quarter(x), k);
    let here = d * down(quarter(x), k);
    if float::significand(x) % 2 == 0 {
        low <= here <= high
    } else {
        low < here < high
    }
}

/// Whether the magnitude is below `10^e`.
pub open spec fn below_power(x: Float, e: int) -> bool {
    centre(x) * up(quarter(x), e) < down(quarter(x), e)
}

/// The first exponent from `e` on whose power of ten is above the magnitude.
pub open spec fn magnitude_from(x: Float, e: int) -> int
    decreases 40 - e,
{
    if e >= 40 || below_power(x, e) {
        e
    } else {
        magnitude_from(x, e + 1)
    }
}

/// The exponent of the first power of ten above the magnitude.
pub open spec fn magnitude(x: Float) -> int {
    magnitude_from(x, -44)
}

/// The magnitude in units of `10^k`, with what is over dropped.
pub open spec fn whole_units(x: Float, k: int) -> nat {
    (centre(x) * up(quarter(x), k)) / down(quarter(x), k)
}

/// The magnitude in units of `10^k`, to the nearest.
pub open spec fn nearest_units(x: Float, k: int) -> nat {
    let d = whole_units(x, k);
    if 2 * centre(x) * up(quarter(x), k) < (2 * d + 1) * down(quarter(x), k) {
        d
    } else {
        d + 1
    }
}

/// The multiple of `10^k` next to the magnitude that reads as the float; the
/// nearer one where both do.
pub open spec fn candidate(x: Float, k: int) -> Option<nat> {
    let d = whole_units(x, k);
    if rounds_to(x, d, k) && rounds_to(x, d + 1, k) {
        Some(nearest_units(x, k))
    } else if rounds_to(x, d, k) {
        Some(d)
    } else if rounds_to(x, d + 1, k) {
        Some(d + 1)
    } else {
        None
    }
}

/// The shortest decimal that reads as the float, of `n` digits or more. Nine
/// are always enough.
pub open spec fn shortest_from(x: Float, n: int) -> (nat, int)
    decreases 9 - n,
{
    let k = magnitude(x) - n;
    if n >= 9 {
        (nearest_units(x, k), k)
    } else {
        match candidate(x, k) {
            Some(d) => (d, k),
            None => shortest_from(x, n + 1),
        }
    }
}

/// The same decimal without zeros at the end.
pub open spec fn trimmed_zeros(d: nat, k: int) -> (nat, int)
    decreases d,
{
    if d > 0 && d % 10 == 0 {
        trimmed_zeros(d / 10, k + 1)
    } else {
        (d, k)
    }
}

/// The shortest decimal that reads as the float.
pub open spec fn shortest(x: Float) -> (nat, int) {
    let (d, k) = shortest_from(x, 1);
    trimmed_zeros(d, k)
}

// ---------------------------------------------------------------------------
// Layout

/// As many zeros.
pub open spec fn zeros(n: int) -> Seq<char> {
    Seq::new(above(n), |i: int| '0')
}

/// Digits with a point before the `p`th, and one more on each side where there
/// is none.
pub open spec fn with_point(digits: Seq<char>, p: int) -> Seq<char> {
    if p <= 0 {
        "0."@ + zeros(-p) + digits
    } else if p >= digits.len() {
        digits + zeros(p - digits.len()) + ".0"@
    } else {
        digits.take(p) + "."@ + digits.skip(p)
    }
}

/// Digits with a point after the first and an exponent.
pub open spec fn with_exponent(digits: Seq<char>, p: int) -> Seq<char> {
    (if digits.len() > 1 {
        digits.take(1) + "."@ + digits.skip(1)
    } else {
        digits
    }) + "e"@ + text::signed_decimal(p - 1)
}

/// Whether a float is written with an exponent: below `1e-4`, and from `1e16`
/// on.
pub open spec fn takes_exponent(x: Float) -> bool {
    let m = x.bits % 0x8000_0000;
    m < 0x38d1_b717 || m >= 0x5a0e_1bca
}

/// The magnitude of a float as text.
pub open spec fn magnitude_text(x: Float) -> Seq<char> {
    let (d, k) = shortest(x);
    let digits = text::decimal(d);
    let p = digits.len() + k;
    if float::is_zero(x) {
        "0.0"@
    } else if takes_exponent(x) {
        with_exponent(digits, p)
    } else {
        with_point(digits, p)
    }
}

/// A float as a literal. There is none for an infinity or a NaN.
pub open spec fn float_literal(x: Float) -> Option<Seq<char>> {
    if float::finite(x) {
        Some(
            if float::negative(x) {
                "-"@ + magnitude_text(x)
            } else {
                magnitude_text(x)
            },
        )
    } else {
        None
    }
}

// ---------------------------------------------------------------------------
// Powers

proof fn lemma_power_add(b: nat, m: nat, n: nat)
    ensures
        big::power(b, m + n) == big::power(b, m) * big::power(b, n),
    decreases m,
{
    if m == 0 {
        assert(big::power(b, 0) * big::power(b, n) == big::power(b, n)) by (nonlinear_arith)
            requires
                big::power(b, 0) == 1,
        ;
    } else {
        lemma_power_add(b, (m - 1) as nat, n);
        let p = big::power(b, (m - 1) as nat);
        let q = big::power(b, n);
        assert(b * (p * q) == (b * p) * q) by (nonlinear_arith);
        assert((m + n - 1) as nat == (m - 1) as nat + n);
    }
}

/// The comparison in units of one power of ten and of another.
proof fn lemma_units(s: int, k: int, n: nat)
    ensures
        up(s, k) * down(s, k + n) == up(s, k + n) * down(s, k) * big::power(10, n),
        up(s, k) > 0,
        down(s, k) > 0,
{
    let a = big::power(2, above(s));
    let b = big::power(2, above(-s));
    let p = big::power(10, above(-k));
    let q = big::power(10, above(k + n));
    let r = big::power(10, above(-(k + n)));
    let t = big::power(10, above(k));
    let u = big::power(10, n);
    big::lemma_power_positive(2, above(s));
    big::lemma_power_positive(2, above(-s));
    big::lemma_power_positive(10, above(-k));
    big::lemma_power_positive(10, above(k));
    assert(a * p > 0) by (nonlinear_arith)
        requires
            a > 0,
            p > 0,
    ;
    assert(b * t > 0) by (nonlinear_arith)
        requires
            b > 0,
            t > 0,
    ;
    lemma_power_add(10, above(-k), above(k + n));
    lemma_power_add(10, above(-(k + n)), above(k));
    lemma_power_add(10, above(-(k + n)) + above(k), n);
    assert(above(-k) + above(k + n) == above(-(k + n)) + above(k) + n);
    assert(p * q == r * t * u);
    assert((a * p) * (b * q) == (a * r) * (b * t) * u) by (nonlinear_arith)
        requires
            p * q == r * t * u,
    ;
}

proof fn lemma_power_grows(a: nat, b: nat, n: nat)
    requires
        a <= b,
    ensures
        big::power(a, n) <= big::power(b, n),
    decreases n,
{
    if n > 0 {
        lemma_power_grows(a, b, (n - 1) as nat);
        let p = big::power(a, (n - 1) as nat);
        let q = big::power(b, (n - 1) as nat);
        assert(a * p <= b * q) by (nonlinear_arith)
            requires
                a <= b,
                p <= q,
        ;
    }
}

proof fn lemma_power_of_power(b: nat, m: nat, n: nat)
    ensures
        big::power(big::power(b, m), n) == big::power(b, m * n),
    decreases n,
{
    if n > 0 {
        lemma_power_of_power(b, m, (n - 1) as nat);
        lemma_power_add(b, m, m * ((n - 1) as nat));
        assert(m + m * ((n - 1) as nat) == m * n) by (nonlinear_arith)
            requires
                n > 0,
        ;
    } else {
        assert(m * n == 0) by (nonlinear_arith)
            requires
                n == 0,
        ;
    }
}

proof fn lemma_power_widens(b: nat, m: nat, n: nat)
    requires
        b > 0,
        m <= n,
    ensures
        big::power(b, m) <= big::power(b, n),
{
    lemma_power_add(b, m, (n - m) as nat);
    big::lemma_power_positive(b, (n - m) as nat);
    let p = big::power(b, m);
    let q = big::power(b, (n - m) as nat);
    assert(p <= p * q) by (nonlinear_arith)
        requires
            q > 0,
    ;
}

proof fn lemma_significand(x: Float)
    requires
        float::finite(x),
    ensures
        float::significand(x) < 0x100_0000,
        -149 <= float::scale(x) <= 104,
        !float::is_zero(x) ==> float::significand(x) > 0,
{
}

/// Every float is below `10^40`.
proof fn lemma_all_below(x: Float)
    requires
        float::finite(x),
    ensures
        below_power(x, 40),
{
    lemma_significand(x);
    let s = quarter(x);
    let c = centre(x);
    assert(big::power(10, 0) == 1);
    assert(up(s, 40) == big::power(2, above(s))) by {
        assert(big::power(2, above(s)) * 1 == big::power(2, above(s)));
    }
    lemma_power_widens(2, above(s), 102);
    assert(big::power(2, 13) == 8192) by {
        reveal_with_fuel(big::power, 14);
    }
    assert(big::power(10, 4) == 10000) by {
        reveal_with_fuel(big::power, 5);
    }
    assert(big::power(2, 26) == 0x400_0000) by {
        reveal_with_fuel(big::power, 27);
    }
    lemma_power_of_power(2, 13, 10);
    lemma_power_of_power(10, 4, 10);
    lemma_power_grows(8192, 10000, 10);
    lemma_power_add(2, 28, 102);
    lemma_power_add(2, 2, 26);
    assert(big::power(2, 2) == 4) by {
        reveal_with_fuel(big::power, 3);
    }
    let t = big::power(2, above(s));
    let w = big::power(2, 102);
    big::lemma_power_positive(2, 102);
    big::lemma_power_positive(2, above(-s));
    let b = big::power(2, above(-s));
    let ten = big::power(10, 40);
    assert(c * t < b * ten) by (nonlinear_arith)
        requires
            c <= 0x400_0000,
            t <= w,
            w > 0,
            b >= 1,
            ten >= 0x1000_0000 * w,
    ;
}

proof fn lemma_magnitude(x: Float, e: int)
    requires
        float::finite(x),
        e <= 40,
    ensures
        e <= magnitude_from(x, e) <= 40,
        below_power(x, magnitude_from(x, e)),
    decreases 40 - e,
{
    lemma_all_below(x);
    if e < 40 && !below_power(x, e) {
        lemma_magnitude(x, e + 1);
    }
}

/// In units of the `n`th digit the magnitude has `n` digits at most.
proof fn lemma_units_bound(x: Float, n: nat)
    requires
        float::finite(x),
    ensures
        centre(x) * up(quarter(x), magnitude(x) - n) < big::power(10, n) * down(
            quarter(x),
            magnitude(x) - n,
        ),
        down(quarter(x), magnitude(x) - n) > 0,
        up(quarter(x), magnitude(x) - n) > 0,
{
    lemma_magnitude(x, -44);
    let s = quarter(x);
    let e = magnitude(x);
    let k = e - n;
    lemma_units(s, k, n);
    lemma_units(s, e, 0);
    assert(k + n == e);
    let c = centre(x);
    let u = up(s, k);
    let w = down(s, k);
    let ue = up(s, e);
    let we = down(s, e);
    let t = big::power(10, n);
    big::lemma_power_positive(10, n);
    let wt = w * t;
    assert(wt > 0) by (nonlinear_arith)
        requires
            wt == w * t,
            w > 0,
            t > 0,
    ;
    assert(c * u * we == c * ue * wt) by (nonlinear_arith)
        requires
            u * we == ue * w * t,
            wt == w * t,
    ;
    assert(c * ue * wt < we * wt) by (nonlinear_arith)
        requires
            c * ue < we,
            wt > 0,
    ;
    assert(c * u < t * w) by (nonlinear_arith)
        requires
            c * u * we < we * wt,
            wt == w * t,
            we > 0,
    ;
}

// ---------------------------------------------------------------------------
// Printing

fn positive_part(n: i32) -> (r: u32)
    requires
        n > -1000,
    ensures
        r == above(n as int),
{
    if n > 0 {
        n as u32
    } else {
        0
    }
}

/// A magnitude in quarters, the ends of what reads as it, and both scales
/// against a power of ten.
struct Units {
    centre: u32,
    floor_end: u32,
    ceil_end: u32,
    even: bool,
    up: Big,
    down: Big,
}

spec fn measures(u: Units, x: Float, k: int) -> bool {
    &&& u.centre == centre(x)
    &&& u.floor_end == floor_end(x)
    &&& u.ceil_end == ceil_end(x)
    &&& u.even == (float::significand(x) % 2 == 0)
    &&& u.up@ == up(quarter(x), k)
    &&& u.down@ == down(quarter(x), k)
    &&& 4 <= u.centre < 0x400_0000
    &&& u.down@ > 0
}

fn units_of(x: Float, k: i32) -> (r: Units)
    requires
        float::finite(x),
        !float::is_zero(x),
        -100 <= k <= 100,
    ensures
        measures(r, x, k as int),
{
    let e: u32 = (x.bits / 0x80_0000) % 256;
    let f: u32 = x.bits % 0x80_0000;
    let m: u32 = if e == 0 {
        f
    } else {
        f + 0x80_0000
    };
    let s: i32 = if e == 0 {
        -151
    } else {
        e as i32 - 152
    };
    proof {
        lemma_significand(x);
        lemma_units(quarter(x), k as int, 0);
    }
    Units {
        centre: 4 * m,
        floor_end: if f == 0 && e > 1 {
            4 * m - 1
        } else {
            4 * m - 2
        },
        ceil_end: 4 * m + 2,
        even: m % 2 == 0,
        up: product_of_powers(positive_part(s), positive_part(-k)),
        down: product_of_powers(positive_part(-s), positive_part(k)),
    }
}

fn is_below_power(x: Float, e: i32) -> (r: bool)
    requires
        float::finite(x),
        !float::is_zero(x),
        -100 <= e <= 100,
    ensures
        r == below_power(x, e as int),
{
    let u = units_of(x, e);
    proof {
        let a = up(quarter(x), e as int);
        let c = centre(x);
        assert(a * c == c * a) by (nonlinear_arith);
    }
    u.up.times(u.centre).is_below(&u.down)
}

/// The exponent of the first power of ten above the magnitude.
fn find_magnitude(x: Float) -> (r: i32)
    requires
        float::finite(x),
        !float::is_zero(x),
    ensures
        r == magnitude(x),
        -44 <= r <= 40,
{
    let mut e: i32 = -44;
    while e < 40 && !is_below_power(x, e)
        invariant
            float::finite(x),
            !float::is_zero(x),
            -44 <= e <= 40,
            magnitude_from(x, e as int) == magnitude(x),
        decreases 40 - e,
    {
        e += 1;
    }
    e
}

impl Units {
    /// The magnitude in units, with what is over dropped.
    fn whole(&self, Ghost(x): Ghost<Float>, Ghost(k): Ghost<int>) -> (r: u32)
        requires
            measures(*self, x, k),
            self.centre * self.up@ < 0x3b9a_ca00 * self.down@,
        ensures
            r == whole_units(x, k),
            r < 0x3b9a_ca00,
    {
        let v = self.up.times(self.centre);
        let ghost w = self.down@;
        proof {
            let a = self.up@;
            let c = self.centre as nat;
            assert(a * c == c * a) by (nonlinear_arith);
        }
        let mut low: u32 = 0;
        let mut high: u32 = 0x3b9a_ca00;
        assert(w * 0 == 0) by (nonlinear_arith);
        assert(w * 0x3b9a_ca00 == 0x3b9a_ca00 * w) by (nonlinear_arith);
        while high - low > 1
            invariant
                low < high <= 0x3b9a_ca00,
                w == self.down@,
                w * low <= v@ < w * high,
            decreases high - low,
        {
            let mid: u32 = low + (high - low) / 2;
            if v.is_below(&self.down.times(mid)) {
                high = mid;
            } else {
                low = mid;
            }
        }
        proof {
            let q = low as int;
            let r = v@ - w * low;
            assert(w * high == w * low + w) by (nonlinear_arith)
                requires
                    high == low + 1,
            ;
            assert(v@ == q * w + r) by (nonlinear_arith)
                requires
                    r == v@ - w * low,
                    q == low as int,
            ;
            vstd::arithmetic::div_mod::lemma_fundamental_div_mod_converse(
                v@ as int,
                w as int,
                q,
                r,
            );
        }
        low
    }

    /// Whether a number of units reads as the float.
    fn reads_back(&self, d: u32, Ghost(x): Ghost<Float>, Ghost(k): Ghost<int>) -> (r: bool)
        requires
            measures(*self, x, k),
        ensures
            r == rounds_to(x, d as nat, k),
    {
        let low = self.up.times(self.floor_end);
        let high = self.up.times(self.ceil_end);
        let here = self.down.times(d);
        proof {
            let a = self.up@;
            let f = self.floor_end as nat;
            let c = self.ceil_end as nat;
            let w = self.down@;
            assert(a * f == f * a) by (nonlinear_arith);
            assert(a * c == c * a) by (nonlinear_arith);
            assert(w * d == d as nat * w) by (nonlinear_arith);
        }
        if self.even {
            !here.is_below(&low) && !high.is_below(&here)
        } else {
            low.is_below(&here) && here.is_below(&high)
        }
    }

    /// Whether the magnitude is nearer to a number of units than to the next.
    fn is_nearer(&self, d: u32, Ghost(x): Ghost<Float>, Ghost(k): Ghost<int>) -> (r: bool)
        requires
            measures(*self, x, k),
            d < 0x3b9a_ca00,
        ensures
            r == (2 * centre(x) * up(quarter(x), k) < (2 * d + 1) * down(quarter(x), k)),
    {
        proof {
            let a = self.up@;
            let c = self.centre as nat;
            let w = self.down@;
            let m = (2 * d + 1) as nat;
            assert(a * (2 * c) == 2 * c * a) by (nonlinear_arith);
            assert(w * m == m * w) by (nonlinear_arith);
        }
        self.up.times(2 * self.centre).is_below(&self.down.times(2 * d + 1))
    }
}

proof fn lemma_nine(n: nat)
    requires
        n <= 9,
    ensures
        big::power(10, n) <= 0x3b9a_ca00,
{
    lemma_power_widens(10, n, 9);
    assert(big::power(10, 9) == 0x3b9a_ca00) by {
        reveal_with_fuel(big::power, 10);
    }
}

/// The shortest decimal that reads as the float, with what zeros it may have
/// at the end.
fn find_shortest(x: Float) -> (r: (u32, i32))
    requires
        float::finite(x),
        !float::is_zero(x),
    ensures
        r.0 == shortest_from(x, 1).0,
        r.1 == shortest_from(x, 1).1,
        -60 <= r.1 <= 40,
{
    let e: i32 = find_magnitude(x);
    let mut n: i32 = 1;
    loop
        invariant
            float::finite(x),
            !float::is_zero(x),
            e == magnitude(x),
            -44 <= e <= 40,
            1 <= n <= 9,
            shortest_from(x, n as int) == shortest_from(x, 1),
        decreases 10 - n,
    {
        let k: i32 = e - n;
        let u = units_of(x, k);
        proof {
            lemma_units_bound(x, n as nat);
            lemma_nine(n as nat);
            let w = down(quarter(x), k as int);
            let t = big::power(10, n as nat);
            assert(t * w <= 0x3b9a_ca00 * w) by (nonlinear_arith)
                requires
                    t <= 0x3b9a_ca00,
            ;
        }
        let d: u32 = u.whole(Ghost(x), Ghost(k as int));
        let near: u32 = if u.is_nearer(d, Ghost(x), Ghost(k as int)) {
            d
        } else {
            d + 1
        };
        assert(near == nearest_units(x, k as int));
        if n >= 9 {
            return (near, k);
        }
        let down_reads = u.reads_back(d, Ghost(x), Ghost(k as int));
        let up_reads = u.reads_back(d + 1, Ghost(x), Ghost(k as int));
        if down_reads && up_reads {
            return (near, k);
        }
        if down_reads {
            return (d, k);
        }
        if up_reads {
            return (d + 1, k);
        }
        n += 1;
    }
}

fn trim_zeros(d: u32, k: i32) -> (r: (u32, i32))
    requires
        -60 <= k <= 40,
    ensures
        r.0 == trimmed_zeros(d as nat, k as int).0,
        r.1 == trimmed_zeros(d as nat, k as int).1,
        k <= r.1 <= k + 10,
{
    let mut a: u32 = d;
    let mut b: i32 = k;
    let ghost bound: int = 0x1_0000_0000;
    let mut i: u32 = 0;
    assert(a * big::power(10, 0) == a) by (nonlinear_arith)
        requires
            big::power(10, 0) == 1,
    ;
    while a > 0 && a % 10 == 0 && i < 10
        invariant
            -60 <= k <= 40,
            i <= 10,
            b == k + i,
            trimmed_zeros(a as nat, b as int) == trimmed_zeros(d as nat, k as int),
            a * big::power(10, i as nat) < bound,
            bound == 0x1_0000_0000,
        decreases 10 - i,
    {
        proof {
            let p = big::power(10, i as nat);
            let q = (a / 10) as int;
            assert(big::power(10, (i + 1) as nat) == 10 * p);
            assert(q * (10 * p) <= a * p) by (nonlinear_arith)
                requires
                    q * 10 <= a,
            ;
        }
        a = a / 10;
        b += 1;
        i += 1;
    }
    proof {
        if i == 10 && a > 0 {
            assert(big::power(10, 10) == 10000000000) by {
                reveal_with_fuel(big::power, 11);
            }
            assert(a * big::power(10, 10) >= 10000000000) by (nonlinear_arith)
                requires
                    a >= 1,
                    big::power(10, 10) == 10000000000,
            ;
        }
    }
    (a, b)
}

fn push_zeros(out: &mut String, n: i32)
    ensures
        final(out)@ == old(out)@ + zeros(n as int),
{
    let ghost start = out@;
    let mut i: i32 = 0;
    assert(start + zeros(0) =~= start);
    while i < n
        invariant
            0 <= i,
            i <= n || i == 0,
            out@ == start + zeros(i as int),
        decreases n - i,
    {
        out.push('0');
        assert(start + zeros(i as int).push('0') =~= start + zeros(i + 1));
        assert((start + zeros(i as int)).push('0') =~= start + zeros(i + 1));
        i += 1;
    }
    assert(zeros(n as int) =~= zeros(i as int));
}

fn point_text(digits: &str, p: i32) -> (r: String)
    requires
        -1000 < p < 1000,
        digits@.len() < 1000,
    ensures
        r@ == with_point(digits@, p as int),
{
    let chars = chars_of(digits);
    let n: usize = chars.len();
    if p <= 0 {
        let mut out = "0.".to_owned();
        push_zeros(&mut out, -p);
        out.append(digits);
        out
    } else if p as usize >= n {
        let mut out = digits.to_owned();
        push_zeros(&mut out, p - n as i32);
        out.append(".0");
        out
    } else {
        let mut out = text_of(&chars, 0, p as usize);
        out.append(".");
        let rest = text_of(&chars, p as usize, n);
        out.append(rest.as_str());
        assert(digits@.subrange(0, p as int) =~= digits@.take(p as int));
        assert(digits@.subrange(p as int, n as int) =~= digits@.skip(p as int));
        out
    }
}

fn exponent_text(digits: &str, p: i32) -> (r: String)
    requires
        -1000 < p < 1000,
    ensures
        r@ == with_exponent(digits@, p as int),
{
    let chars = chars_of(digits);
    let n: usize = chars.len();
    let mut out = if n > 1 {
        let mut head = text_of(&chars, 0, 1);
        head.append(".");
        let rest = text_of(&chars, 1, n);
        head.append(rest.as_str());
        assert(digits@.subrange(0, 1) =~= digits@.take(1));
        assert(digits@.subrange(1, n as int) =~= digits@.skip(1));
        head
    } else {
        digits.to_owned()
    };
    out.append("e");
    out.append(signed_decimal_text(p as i64 - 1).as_str());
    out
}

proof fn lemma_decimal_short(n: nat)
    requires
        n < 0x1_0000_0000,
    ensures
        text::decimal(n).len() <= 10,
{
    reveal_with_fuel(text::decimal, 11);
}

impl Float {
    /// The float as a literal: the shortest decimal that reads back as it.
    /// There is none for an infinity or a NaN.
    pub fn literal(self) -> (r: Option<String>)
        ensures
            text::opt_of(r) == float_literal(self),
    {
        if !self.is_finite() {
            return None;
        }
        let magnitude = if self.is_zero() {
            "0.0".to_owned()
        } else {
            let (d, k) = find_shortest(self);
            let (d, k) = trim_zeros(d, k);
            let digits = decimal_text(d as u64);
            proof {
                lemma_decimal_short(d as nat);
            }
            let n: i32 = chars_of(digits.as_str()).len() as i32;
            let m: u32 = self.bits % 0x8000_0000;
            if m < 0x38d1_b717 || m >= 0x5a0e_1bca {
                exponent_text(digits.as_str(), n + k)
            } else {
                point_text(digits.as_str(), n + k)
            }
        };
        if self.bits >= 0x8000_0000 {
            let mut out = "-".to_owned();
            out.append(magnitude.as_str());
            Some(out)
        } else {
            Some(magnitude)
        }
    }
}

// ---------------------------------------------------------------------------
// Laws

proof fn lemma_smallest_float()
    ensures
        big::power(2, 149) <= big::power(10, 45),
{
    assert(big::power(2, 93) < big::power(10, 28)) by {
        reveal_with_fuel(big::power, 94);
    }
    assert(big::power(2, 56) < big::power(10, 17)) by {
        reveal_with_fuel(big::power, 57);
    }
    lemma_power_add(2, 93, 56);
    lemma_power_add(10, 28, 17);
    let a = big::power(2, 93);
    let b = big::power(2, 56);
    let c = big::power(10, 28);
    let d = big::power(10, 17);
    assert(a * b <= c * d) by (nonlinear_arith)
        requires
            a < c,
            b < d,
    ;
}

/// Every float but zero is `10^-45` at least.
proof fn lemma_all_above(x: Float)
    requires
        float::finite(x),
        !float::is_zero(x),
    ensures
        !below_power(x, -45),
{
    lemma_significand(x);
    lemma_smallest_float();
    let s = quarter(x);
    let c = centre(x);
    assert(big::power(10, 0) == 1 && big::power(2, 0) == 1);
    let t = big::power(2, above(s));
    let b = big::power(2, above(-s));
    let ten = big::power(10, 45);
    lemma_power_widens(2, above(-s), 151);
    lemma_power_add(2, 2, 149);
    assert(big::power(2, 2) == 4) by {
        reveal_with_fuel(big::power, 3);
    }
    big::lemma_power_positive(2, above(s));
    assert(b * 1 == b);
    assert(c * (t * ten) >= b) by (nonlinear_arith)
        requires
            c >= 4,
            t >= 1,
            4 * ten >= b,
            ten >= 0,
    ;
}

proof fn lemma_magnitude_least(x: Float, e: int)
    requires
        float::finite(x),
        !float::is_zero(x),
        -44 <= e <= 40,
        !below_power(x, e - 1),
    ensures
        !below_power(x, magnitude_from(x, e) - 1),
    decreases 40 - e,
{
    if e < 40 && !below_power(x, e) {
        lemma_magnitude_least(x, e + 1);
    }
}

/// In units of the `n`th digit the magnitude has `n` digits.
proof fn lemma_units_at_least(x: Float, n: nat)
    requires
        float::finite(x),
        !float::is_zero(x),
        n >= 1,
    ensures
        centre(x) * up(quarter(x), magnitude(x) - n) >= big::power(10, (n - 1) as nat) * down(
            quarter(x),
            magnitude(x) - n,
        ),
{
    lemma_all_above(x);
    lemma_magnitude_least(x, -44);
    let s = quarter(x);
    let e = magnitude(x) - 1;
    let k = magnitude(x) - n;
    let m = (n - 1) as nat;
    lemma_units(s, k, m);
    lemma_units(s, e, 0);
    assert(k + m == e);
    let c = centre(x);
    let u = up(s, k);
    let w = down(s, k);
    let ue = up(s, e);
    let we = down(s, e);
    let t = big::power(10, m);
    let wt = w * t;
    assert(c * u * we == c * ue * wt) by (nonlinear_arith)
        requires
            u * we == ue * w * t,
            wt == w * t,
    ;
    assert(c * ue * wt >= we * wt) by (nonlinear_arith)
        requires
            c * ue >= we,
            wt >= 0,
    ;
    assert(c * u >= t * w) by (nonlinear_arith)
        requires
            c * u * we >= we * wt,
            wt == w * t,
            we > 0,
    ;
}

proof fn lemma_whole_units(x: Float, k: int)
    ensures
        whole_units(x, k) * down(quarter(x), k) <= centre(x) * up(quarter(x), k),
        centre(x) * up(quarter(x), k) < (whole_units(x, k) + 1) * down(quarter(x), k),
{
    lemma_units(quarter(x), k, 0);
    let v = (centre(x) * up(quarter(x), k)) as int;
    let w = down(quarter(x), k) as int;
    vstd::arithmetic::div_mod::lemma_fundamental_div_mod(v, w);
    vstd::arithmetic::div_mod::lemma_mod_bound(v, w);
    let q = v / w;
    let r = v % w;
    assert(q * w <= v && v < (q + 1) * w) by (nonlinear_arith)
        requires
            v == w * q + r,
            0 <= r < w,
    ;
}

/// Nine digits read as the float.
proof fn lemma_nine_read_back(x: Float)
    requires
        float::finite(x),
        !float::is_zero(x),
    ensures
        rounds_to(x, nearest_units(x, magnitude(x) - 9), magnitude(x) - 9),
{
    let k = magnitude(x) - 9;
    let s = quarter(x);
    let c = centre(x);
    let u = up(s, k);
    let w = down(s, k);
    lemma_significand(x);
    lemma_units(s, k, 0);
    lemma_units_at_least(x, 9);
    assert(big::power(10, 8) == 100000000) by {
        reveal_with_fuel(big::power, 9);
    }
    lemma_whole_units(x, k);
    let d = whole_units(x, k);
    let n = nearest_units(x, k);
    assert(w < u) by (nonlinear_arith)
        requires
            c * u >= 100000000 * w,
            c < 0x400_0000,
            u > 0,
            w > 0,
    ;
    assert(2 * (n * w) <= 2 * (c * u) + w && 2 * (c * u) <= 2 * (n * w) + w) by {
        assert((2 * d + 1) * w == 2 * (d * w) + w) by (nonlinear_arith);
        assert((d + 1) * w == d * w + w) by (nonlinear_arith);
        assert(2 * c * u == 2 * (c * u)) by (nonlinear_arith);
    }
    let f = floor_end(x);
    let h = ceil_end(x);
    assert(f * u < n * w && n * w < h * u) by (nonlinear_arith)
        requires
            2 * (n * w) <= 2 * (c * u) + w,
            2 * (c * u) <= 2 * (n * w) + w,
            w < u,
            f + 1 <= c,
            h == c + 2,
            u > 0,
    ;
}

proof fn lemma_shortest_reads_back(x: Float, n: int)
    requires
        float::finite(x),
        !float::is_zero(x),
        1 <= n <= 9,
    ensures
        rounds_to(x, shortest_from(x, n).0, shortest_from(x, n).1),
    decreases 9 - n,
{
    if n >= 9 {
        lemma_nine_read_back(x);
    } else if candidate(x, magnitude(x) - n) is None {
        lemma_shortest_reads_back(x, n + 1);
    }
}

/// A decimal and the same without a zero at the end are compared alike.
proof fn lemma_one_zero(c: nat, s: int, d: nat, k: int)
    ensures
        c * up(s, k) <= (10 * d) * down(s, k) <==> c * up(s, k + 1) <= d * down(s, k + 1),
        (10 * d) * down(s, k) <= c * up(s, k) <==> d * down(s, k + 1) <= c * up(s, k + 1),
{
    lemma_units(s, k, 1);
    lemma_units(s, k + 1, 0);
    assert(big::power(10, 1) == 10) by {
        reveal_with_fuel(big::power, 2);
    }
    let u = up(s, k);
    let w = down(s, k);
    let u1 = up(s, k + 1);
    let w1 = down(s, k + 1);
    let a = c * u;
    let b = (10 * d) * w;
    let a1 = c * u1;
    let b1 = d * w1;
    let t = 10 * w;
    assert(a * w1 == a1 * t) by (nonlinear_arith)
        requires
            a == c * u,
            a1 == c * u1,
            t == 10 * w,
            u * w1 == u1 * w * 10,
    ;
    assert(b * w1 == b1 * t) by (nonlinear_arith)
        requires
            b == (10 * d) * w,
            b1 == d * w1,
            t == 10 * w,
    ;
    assert(a <= b <==> a1 <= b1) by (nonlinear_arith)
        requires
            a * w1 == a1 * t,
            b * w1 == b1 * t,
            w1 > 0,
            t > 0,
    ;
    assert(b <= a <==> b1 <= a1) by (nonlinear_arith)
        requires
            a * w1 == a1 * t,
            b * w1 == b1 * t,
            w1 > 0,
            t > 0,
    ;
}

proof fn lemma_trimmed_reads_back(x: Float, d: nat, k: int)
    requires
        rounds_to(x, d, k),
    ensures
        rounds_to(x, trimmed_zeros(d, k).0, trimmed_zeros(d, k).1),
    decreases d,
{
    if d > 0 && d % 10 == 0 {
        let e = d / 10;
        assert(d == 10 * e);
        lemma_one_zero(floor_end(x), quarter(x), e, k);
        lemma_one_zero(ceil_end(x), quarter(x), e, k);
        lemma_trimmed_reads_back(x, e, k + 1);
    }
}

/// The decimal that a float is written as reads back as that float.
pub proof fn literals_read_back(x: Float)
    requires
        float::finite(x),
        !float::is_zero(x),
    ensures
        rounds_to(x, shortest(x).0, shortest(x).1),
{
    lemma_shortest_reads_back(x, 1);
    let (d, k) = shortest_from(x, 1);
    lemma_trimmed_reads_back(x, d, k);
}

proof fn lemma_shifted(x: Float, d: nat, k: int, n: nat)
    ensures
        rounds_to(x, d * big::power(10, n), k) == rounds_to(x, d, k + n),
    decreases n,
{
    let p = big::power(10, n);
    if n == 0 {
        assert(d * p == d) by (nonlinear_arith)
            requires
                p == 1,
        ;
    } else {
        let q = big::power(10, (n - 1) as nat);
        lemma_shifted(x, d, k + 1, (n - 1) as nat);
        lemma_one_zero(floor_end(x), quarter(x), d * q, k);
        lemma_one_zero(ceil_end(x), quarter(x), d * q, k);
        assert(d * p == 10 * (d * q)) by (nonlinear_arith)
            requires
                p == 10 * q,
        ;
    }
}

/// A decimal that reads as the float has a neighbour of the magnitude in the
/// same units that does.
proof fn lemma_neighbour(x: Float, d: nat, k: int)
    requires
        float::finite(x),
        !float::is_zero(x),
        rounds_to(x, d, k),
    ensures
        candidate(x, k) is Some,
{
    lemma_significand(x);
    lemma_units(quarter(x), k, 0);
    lemma_whole_units(x, k);
    let u = up(quarter(x), k);
    let w = down(quarter(x), k);
    let c = centre(x);
    let n = whole_units(x, k);
    let f = floor_end(x);
    let h = ceil_end(x);
    assert(f * u < c * u && c * u < h * u) by (nonlinear_arith)
        requires
            f < c,
            c < h,
            u > 0,
    ;
    if d <= n {
        assert(d * w <= n * w) by (nonlinear_arith)
            requires
                d <= n,
        ;
    } else {
        assert((n + 1) * w <= d * w) by (nonlinear_arith)
            requires
                n + 1 <= d,
        ;
    }
}

/// A decimal of at most `j` digits that reads as the float shows up as one of
/// `j` digits.
proof fn lemma_shows_up(x: Float, d: nat, k: int, j: nat)
    requires
        float::finite(x),
        !float::is_zero(x),
        j >= 1,
        d < big::power(10, j),
        rounds_to(x, d, k),
    ensures
        candidate(x, magnitude(x) - j) is Some,
{
    let kj = magnitude(x) - j;
    if k >= kj {
        let n = (k - kj) as nat;
        lemma_shifted(x, d, kj, n);
        lemma_neighbour(x, d * big::power(10, n), kj);
    } else {
        let n = (kj - k) as nat;
        let m = (j - 1 + n) as nat;
        let t = big::power(10, m);
        lemma_units_at_least(x, m + 1);
        assert(magnitude(x) - (m + 1) == k);
        lemma_power_widens(10, j, m);
        lemma_significand(x);
        lemma_units(quarter(x), k, 0);
        let u = up(quarter(x), k);
        let w = down(quarter(x), k);
        let c = centre(x);
        let f = floor_end(x);
        let h = ceil_end(x);
        assert(c * u < h * u) by (nonlinear_arith)
            requires
                c < h,
                u > 0,
        ;
        assert(d * w <= t * w) by (nonlinear_arith)
            requires
                d <= t,
        ;
        assert(rounds_to(x, t, k));
        lemma_power_add(10, (j - 1) as nat, n);
        lemma_shifted(x, big::power(10, (j - 1) as nat), k, n);
        lemma_neighbour(x, big::power(10, (j - 1) as nat), kj);
    }
}

/// The number of digits that the search stops at.
spec fn stops_at(x: Float, n: int) -> int
    decreases 9 - n,
{
    if n >= 9 || candidate(x, magnitude(x) - n) is Some {
        n
    } else {
        stops_at(x, n + 1)
    }
}

proof fn lemma_stops_at(x: Float, n: int)
    requires
        float::finite(x),
        !float::is_zero(x),
        1 <= n <= 9,
    ensures
        n <= stops_at(x, n) <= 9,
        shortest_from(x, n).0 <= big::power(10, stops_at(x, n) as nat),
        forall|j: int| n <= j < stops_at(x, n) ==> #[trigger] candidate(x, magnitude(x) - j) is None,
    decreases 9 - n,
{
    let k = magnitude(x) - n;
    if n < 9 && candidate(x, k) is None {
        lemma_stops_at(x, n + 1);
        assert forall|j: int| n <= j < stops_at(x, n) implies #[trigger] candidate(
            x,
            magnitude(x) - j,
        ) is None by {
            if j == n {
                assert(candidate(x, magnitude(x) - n) is None);
            }
        }
    } else {
        lemma_units_bound(x, n as nat);
        lemma_whole_units(x, k);
        let w = down(quarter(x), k);
        let d = whole_units(x, k);
        let t = big::power(10, n as nat);
        let v = centre(x) * up(quarter(x), k);
        assert(d < t) by (nonlinear_arith)
            requires
                d * w <= v,
                v < t * w,
                w > 0,
        ;
    }
}

proof fn lemma_decimal_len(d: nat, m: nat)
    requires
        m >= 1,
    ensures
        d < big::power(10, m) <==> text::decimal(d).len() <= m,
    decreases m,
{
    let p = big::power(10, (m - 1) as nat);
    if m == 1 {
        assert(big::power(10, 1) == 10) by {
            reveal_with_fuel(big::power, 2);
        }
        if d >= 10 {
            text::lemma_decimal_digits(d / 10);
        }
    } else {
        lemma_decimal_len(d / 10, (m - 1) as nat);
        assert(d / 10 < p <==> d < 10 * p);
        if d < 10 {
            lemma_power_widens(10, 1, m);
            assert(big::power(10, 1) == 10) by {
                reveal_with_fuel(big::power, 2);
            }
        }
    }
}

proof fn lemma_trimmed_smaller(d: nat, k: int)
    ensures
        trimmed_zeros(d, k).0 <= d,
        d > 0 && d % 10 == 0 ==> trimmed_zeros(d, k).0 < d,
    decreases d,
{
    if d > 0 && d % 10 == 0 {
        lemma_trimmed_smaller(d / 10, k + 1);
    }
}

/// No decimal of fewer digits than the one that a float is written as reads as
/// that float.
pub proof fn no_shorter_decimal_reads_back(x: Float, d: nat, k: int)
    requires
        float::finite(x),
        !float::is_zero(x),
        rounds_to(x, d, k),
    ensures
        text::decimal(d).len() >= text::decimal(shortest(x).0).len(),
{
    let (d0, k0) = shortest_from(x, 1);
    let m = stops_at(x, 1);
    lemma_stops_at(x, 1);
    let t = shortest(x).0;
    lemma_trimmed_smaller(d0, k0);
    big::lemma_power_positive(10, (m - 1) as nat);
    assert(big::power(10, m as nat) == 10 * big::power(10, (m - 1) as nat));
    assert(t < big::power(10, m as nat));
    lemma_decimal_len(t, m as nat);
    text::lemma_decimal_digits(d);
    let j = text::decimal(d).len();
    if j < m {
        lemma_decimal_len(d, j);
        lemma_shows_up(x, d, k, j);
        assert(candidate(x, magnitude(x) - (j as int)) is None);
    }
}

} // verus!
