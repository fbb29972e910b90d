//! Natural numbers of any size, as far as printing a float needs them.

use vstd::prelude::*;

verus! {

/// `b` to the power of `n`.
pub open spec fn power(b: nat, n: nat) -> nat
    decreases n,
{
    if n == 0 {
        1
    } else {
        b * power(b, (n - 1) as nat)
    }
}

/// A power is never zero.
pub proof fn lemma_power_positive(b: nat, n: nat)
    requires
        b > 0,
    ensures
        power(b, n) > 0,
    decreases n,
{
    if n > 0 {
        lemma_power_positive(b, (n - 1) as nat);
        assert(b * power(b, (n - 1) as nat) > 0) by (nonlinear_arith)
            requires
                b > 0,
                power(b, (n - 1) as nat) > 0,
        ;
    }
}

/// What a digit stands for times.
spec fn place(n: nat) -> nat {
    power(0x1_0000_0000, n)
}

/// The number that these digits stand for, the lowest first.
spec fn number(s: Seq<u32>) -> nat
    decreases s.len(),
{
    if s.len() == 0 {
        0
    } else {
        number(s.drop_last()) + s.last() as nat * place((s.len() - 1) as nat)
    }
}

proof fn lemma_number_bound(s: Seq<u32>)
    ensures
        number(s) < place(s.len()),
    decreases s.len(),
{
    if s.len() > 0 {
        lemma_number_bound(s.drop_last());
        let p = place((s.len() - 1) as nat);
        let d = s.last() as nat;
        let n = number(s.drop_last());
        assert(n + d * p < 0x1_0000_0000 * p) by (nonlinear_arith)
            requires
                n < p,
                d <= 0xffff_ffff,
        ;
    }
}

proof fn lemma_number_step(s: Seq<u32>, i: int)
    requires
        0 <= i < s.len(),
    ensures
        number(s.take(i + 1)) == number(s.take(i)) + s[i] as nat * place(i as nat),
{
    assert(s.take(i + 1).drop_last() =~= s.take(i));
}

/// A natural number.
pub struct Big {
    digits: Vec<u32>,
}

impl View for Big {
    type V = nat;

    closed spec fn view(&self) -> nat {
        number(self.digits@)
    }
}

impl Big {
    /// The number 1.
    pub fn one() -> (r: Self)
        ensures
            r@ == 1,
    {
        let mut digits: Vec<u32> = Vec::new();
        digits.push(1);
        assert(digits@.drop_last() =~= Seq::<u32>::empty());
        assert(number(digits@) == 1) by {
            assert(number(digits@.drop_last()) == 0);
            assert(place(0) == 1);
        }
        Big { digits }
    }

    /// The number times a small one.
    pub fn times(&self, m: u32) -> (r: Self)
        ensures
            r@ == self@ * m,
    {
        let ghost s = self.digits@;
        let mut digits: Vec<u32> = Vec::new();
        let mut carry: u64 = 0;
        let mut i: usize = 0;
        assert(s.take(0) =~= Seq::<u32>::empty());
        assert(number(digits@) + carry * place(0) == m * number(s.take(0))) by {
            assert(number(digits@) == 0);
            assert(number(s.take(0)) == 0);
        }
        while i < self.digits.len()
            invariant
                i <= s.len() == self.digits@.len(),
                s == self.digits@,
                digits@.len() == i,
                carry <= 0xffff_ffff,
                number(digits@) + carry * place(i as nat) == m * number(s.take(i as int)),
            decreases s.len() - i,
        {
            let d: u64 = self.digits[i] as u64;
            assert(d * m + carry <= 0xffff_ffff * 0x1_0000_0000) by (nonlinear_arith)
                requires
                    d <= 0xffff_ffff,
                    m <= 0xffff_ffff,
                    carry <= 0xffff_ffff,
            ;
            assert(d * m <= 0xffff_ffff * 0xffff_ffff) by (nonlinear_arith)
                requires
                    d <= 0xffff_ffff,
                    m <= 0xffff_ffff,
            ;
            let t: u64 = d * (m as u64) + carry;
            let low: u32 = (t % 0x1_0000_0000) as u32;
            let ghost before = digits@;
            let ghost old_carry = carry;
            carry = t / 0x1_0000_0000;
            digits.push(low);
            proof {
                assert(digits@.drop_last() =~= before);
                lemma_number_step(s, i as int);
                let p = place(i as nat);
                let p1 = place((i + 1) as nat);
                assert(p1 == 0x1_0000_0000 * p);
                let n = number(before);
                let v = number(s.take(i as int));
                assert(n + low * p + carry * p1 == m * (v + d * p)) by (nonlinear_arith)
                    requires
                        p1 == 0x1_0000_0000 * p,
                        n + old_carry * p == m * v,
                        t == d * m + old_carry,
                        t == low + 0x1_0000_0000 * carry,
                ;
            }
            i += 1;
        }
        let ghost before = digits@;
        digits.push(carry as u32);
        proof {
            assert(digits@.drop_last() =~= before);
            assert(s.take(i as int) =~= s);
            assert(number(s) * m == m * number(s)) by (nonlinear_arith);
        }
        Big { digits }
    }

    fn digit(&self, i: usize) -> (r: u32)
        ensures
            r == (if i < self.digits@.len() {
                self.digits@[i as int]
            } else {
                0
            }),
    {
        if i < self.digits.len() {
            self.digits[i]
        } else {
            0
        }
    }

    /// Whether the number is below another.
    pub fn is_below(&self, other: &Big) -> (r: bool)
        ensures
            r == (self@ < other@),
    {
        let n: usize = if self.digits.len() < other.digits.len() {
            other.digits.len()
        } else {
            self.digits.len()
        };
        let ghost a = padded(self.digits@, n as nat);
        let ghost b = padded(other.digits@, n as nat);
        proof {
            lemma_padded(self.digits@, n as nat);
            lemma_padded(other.digits@, n as nat);
            assert(a.take(n as int) =~= a);
            assert(b.take(n as int) =~= b);
        }
        let mut i: usize = n;
        while i > 0
            invariant
                i <= n,
                a == padded(self.digits@, n as nat),
                b == padded(other.digits@, n as nat),
                n >= self.digits@.len(),
                n >= other.digits@.len(),
                a.len() == n == b.len(),
                number(a) == self@,
                number(b) == other@,
                number(a) - number(a.take(i as int)) == number(b) - number(b.take(i as int)),
            decreases i,
        {
            i -= 1;
            let x: u32 = self.digit(i);
            let y: u32 = other.digit(i);
            proof {
                lemma_number_step(a, i as int);
                lemma_number_step(b, i as int);
                lemma_number_bound(a.take(i as int));
                lemma_number_bound(b.take(i as int));
                assert(a[i as int] == x && b[i as int] == y);
                let p = place(i as nat);
                let u = number(a.take(i as int));
                let v = number(b.take(i as int));
                if x < y {
                    assert(u + x * p < v + y * p) by (nonlinear_arith)
                        requires
                            u < p,
                            x + 1 <= y,
                            v >= 0,
                    ;
                }
                if y < x {
                    assert(v + y * p < u + x * p) by (nonlinear_arith)
                        requires
                            v < p,
                            y + 1 <= x,
                            u >= 0,
                    ;
                }
            }
            if x < y {
                return true;
            }
            if y < x {
                return false;
            }
        }
        proof {
            assert(a.take(0) =~= Seq::<u32>::empty());
            assert(b.take(0) =~= Seq::<u32>::empty());
        }
        false
    }
}

spec fn padded(s: Seq<u32>, n: nat) -> Seq<u32> {
    Seq::new(
        n,
        |i: int|
            if i < s.len() {
                s[i]
            } else {
                0u32
            },
    )
}

proof fn lemma_padded(s: Seq<u32>, n: nat)
    requires
        n >= s.len(),
    ensures
        number(padded(s, n)) == number(s),
    decreases n,
{
    if n > s.len() {
        lemma_padded(s, (n - 1) as nat);
        assert(padded(s, n).drop_last() =~= padded(s, (n - 1) as nat));
        assert(padded(s, n).last() == 0);
        assert(0 * place((n - 1) as nat) == 0) by (nonlinear_arith);
    } else {
        assert(padded(s, n) =~= s);
    }
}

/// Two to one power times ten to another.
pub fn product_of_powers(twos: u32, tens: u32) -> (r: Big)
    ensures
        r@ == power(2, twos as nat) * power(10, tens as nat),
{
    let mut r = Big::one();
    let mut i: u32 = 0;
    while i < twos
        invariant
            i <= twos,
            r@ == power(2, i as nat),
        decreases twos - i,
    {
        r = r.times(2);
        assert(power(2, (i + 1) as nat) == 2 * power(2, i as nat));
        i += 1;
    }
    let mut j: u32 = 0;
    let ghost base = r@;
    assert(base * power(10, 0) == base) by (nonlinear_arith)
        requires
            power(10, 0) == 1,
    ;
    while j < tens
        invariant
            j <= tens,
            base == power(2, twos as nat),
            r@ == base * power(10, j as nat),
        decreases tens - j,
    {
        r = r.times(10);
        proof {
            let p = power(10, j as nat);
            assert(power(10, (j + 1) as nat) == 10 * p);
            assert(base * p * 10 == base * (10 * p)) by (nonlinear_arith);
        }
        j += 1;
    }
    r
}

} // verus!
