//! Natural numbers of any size by their decimal digits, and fractions in lowest terms.

use crate::text::{chars_of, decimal, digit_char, digit_text, digits_value, is_digit, unsigned_part};
use vstd::arithmetic::div_mod::{
    lemma_div_multiples_vanish, lemma_fundamental_div_mod, lemma_fundamental_div_mod_converse,
    lemma_mod_multiples_basic, lemma_mod_self_0, lemma_truncate_middle,
};
use vstd::arithmetic::power::{lemma_pow0, lemma_pow_increases, lemma_pow_positive, pow};
use vstd::prelude::*;

verus! {

/// Digits of a number, the lowest first, without a leading zero.
pub struct Digits {
    low: Vec<u8>,
}

/// The number that digits spell, the lowest first.
pub open spec fn low_value(s: Seq<u8>) -> nat
    decreases s.len(),
{
    if s.len() == 0 {
        0
    } else {
        s[0] as nat + 10 * low_value(s.drop_first())
    }
}

/// Whether each of some digits is one.
pub open spec fn all_digits(s: Seq<u8>) -> bool {
    forall|i: int| 0 <= i < s.len() ==> #[trigger] s[i] < 10
}

/// Whether digits are those of a number without a leading zero.
pub open spec fn trimmed(s: Seq<u8>) -> bool {
    all_digits(s) && (s.len() > 0 ==> s.last() > 0)
}

spec fn ten(n: nat) -> nat {
    pow(10, n) as nat
}

proof fn ten_steps(n: nat)
    ensures
        ten(0) == 1,
        ten(n) > 0,
        ten(n + 1) == 10 * ten(n),
{
    lemma_pow0(10);
    lemma_pow_positive(10, n);
    lemma_pow_positive(10, n + 1);
    reveal(pow);
}

proof fn ten_grows(n: nat, m: nat)
    requires
        n <= m,
    ensures
        ten(n) <= ten(m),
{
    lemma_pow_increases(10, n, m);
    lemma_pow_positive(10, n);
}

proof fn value_push(s: Seq<u8>, d: u8)
    ensures
        low_value(s.push(d)) == low_value(s) + d * ten(s.len()),
    decreases s.len(),
{
    ten_steps(0);
    if s.len() == 0 {
        assert(s.push(d).drop_first() =~= Seq::<u8>::empty());
        assert(low_value(s.push(d).drop_first()) == 0);
    } else {
        value_push(s.drop_first(), d);
        assert(s.push(d).drop_first() =~= s.drop_first().push(d));
        ten_steps((s.len() - 1) as nat);
        let p = ten((s.len() - 1) as nat);
        assert(10 * (d * p) == d * (10 * p)) by (nonlinear_arith);
    }
}

proof fn value_bound(s: Seq<u8>)
    requires
        all_digits(s),
    ensures
        low_value(s) < ten(s.len()),
    decreases s.len(),
{
    ten_steps(0);
    if s.len() > 0 {
        value_bound(s.drop_first());
        ten_steps((s.len() - 1) as nat);
        assert(s[0] < 10);
    }
}

proof fn value_floor(s: Seq<u8>)
    requires
        trimmed(s),
        s.len() > 0,
    ensures
        low_value(s) >= ten((s.len() - 1) as nat),
        low_value(s) > 0,
{
    let p = ten((s.len() - 1) as nat);
    value_push(s.drop_last(), s.last());
    assert(s.drop_last().push(s.last()) =~= s);
    ten_steps((s.len() - 1) as nat);
    assert(s.last() * p >= p) by (nonlinear_arith)
        requires
            s.last() >= 1,
            p > 0,
    ;
}

proof fn longer_is_more(a: Seq<u8>, b: Seq<u8>)
    requires
        trimmed(a),
        trimmed(b),
        a.len() < b.len(),
    ensures
        low_value(a) < low_value(b),
{
    value_bound(a);
    value_floor(b);
    ten_grows(a.len(), (b.len() - 1) as nat);
}

impl View for Digits {
    type V = nat;

    closed spec fn view(&self) -> nat {
        low_value(self.low@)
    }
}

impl Digits {
    #[verifier::type_invariant]
    spec fn has_no_leading_zero(self) -> bool {
        trimmed(self.low@)
    }

    fn zero() -> (r: Digits)
        ensures
            r@ == 0,
    {
        Digits { low: Vec::new() }
    }

    fn copy(&self) -> (r: Digits)
        ensures
            r@ == self@,
    {
        proof {
            use_type_invariant(self);
        }
        let mut low: Vec<u8> = Vec::new();
        let mut i: usize = 0;
        while i < self.low.len()
            invariant
                i <= self.low@.len(),
                low@ == self.low@.take(i as int),
            decreases self.low.len() - i,
        {
            low.push(self.low[i]);
            assert(low@ =~= self.low@.take(i + 1));
            i = i + 1;
        }
        assert(low@ =~= self.low@);
        Digits { low }
    }

    /// Whether the number is zero.
    pub fn is_zero(&self) -> (b: bool)
        ensures
            b == (self@ == 0),
    {
        proof {
            use_type_invariant(self);
            if self.low@.len() > 0 {
                value_floor(self.low@);
            }
        }
        self.low.len() == 0
    }

    /// The number with one more digit behind the others.
    fn with_digit(self, d: u8) -> (r: Digits)
        requires
            d < 10,
        ensures
            r@ == 10 * self@ + d,
    {
        proof {
            use_type_invariant(&self);
        }
        let mut low: Vec<u8> = self.low;
        let ghost s = low@;
        if low.len() == 0 && d == 0 {
            return Digits { low };
        }
        low.insert(0, d);
        proof {
            assert(low@.drop_first() =~= s);
            assert forall|i: int| 0 <= i < low@.len() implies #[trigger] low@[i] < 10 by {
                if i > 0 {
                    assert(low@[i] == s[i - 1]);
                }
            }
            if s.len() > 0 {
                assert(low@.last() == s.last());
            }
        }
        Digits { low }
    }

    fn less(&self, other: &Digits) -> (b: bool)
        ensures
            b == (self@ < other@),
    {
        proof {
            use_type_invariant(self);
            use_type_invariant(other);
        }
        if self.low.len() < other.low.len() {
            proof {
                longer_is_more(self.low@, other.low@);
            }
            return true;
        }
        if self.low.len() > other.low.len() {
            proof {
                longer_is_more(other.low@, self.low@);
            }
            return false;
        }
        let ghost a = self.low@;
        let ghost b = other.low@;
        let mut less: bool = false;
        let mut i: usize = 0;
        while i < self.low.len()
            invariant
                a == self.low@,
                b == other.low@,
                i <= a.len(),
                a.len() == b.len(),
                all_digits(a),
                all_digits(b),
                less == (low_value(a.take(i as int)) < low_value(b.take(i as int))),
            decreases self.low.len() - i,
        {
            let x: u8 = self.low[i];
            let y: u8 = other.low[i];
            proof {
                let p = ten(i as nat);
                let u = low_value(a.take(i as int));
                let v = low_value(b.take(i as int));
                value_push(a.take(i as int), x);
                value_push(b.take(i as int), y);
                assert(a.take(i + 1) =~= a.take(i as int).push(x));
                assert(b.take(i + 1) =~= b.take(i as int).push(y));
                value_bound(a.take(i as int));
                value_bound(b.take(i as int));
                if x < y {
                    assert(u + x * p < v + y * p) by (nonlinear_arith)
                        requires
                            x < y,
                            u < p,
                    ;
                } else if x > y {
                    assert(u + x * p > v + y * p) by (nonlinear_arith)
                        requires
                            x > y,
                            v < p,
                    ;
                }
            }
            if x < y {
                less = true;
            } else if x > y {
                less = false;
            }
            i = i + 1;
        }
        assert(a.take(i as int) =~= a);
        assert(b.take(i as int) =~= b);
        less
    }

    fn minus(&self, other: &Digits) -> (r: Digits)
        requires
            other@ <= self@,
        ensures
            r@ == self@ - other@,
    {
        proof {
            use_type_invariant(self);
            use_type_invariant(other);
            if self.low@.len() < other.low@.len() {
                longer_is_more(self.low@, other.low@);
            }
        }
        let ghost a = self.low@;
        let ghost b = other.low@;
        let held: usize = other.low.len();
        let mut low: Vec<u8> = Vec::new();
        let mut borrow: u8 = 0;
        let mut i: usize = 0;
        proof {
            ten_steps(0);
            assert(b.take(0) =~= Seq::<u8>::empty());
            assert(a.take(0) =~= Seq::<u8>::empty());
        }
        while i < self.low.len()
            invariant
                a == self.low@,
                b == other.low@,
                held == b.len() <= a.len(),
                i <= a.len(),
                all_digits(a),
                all_digits(b),
                all_digits(low@),
                low@.len() == i,
                borrow <= 1,
                low_value(low@) + low_value(
                    b.take(
                        if i < held {
                            i as int
                        } else {
                            held as int
                        },
                    ),
                ) == low_value(a.take(i as int)) + borrow * ten(i as nat),
            decreases self.low.len() - i,
        {
            let x: u8 = self.low[i];
            let y: u8 = if i < held {
                other.low[i]
            } else {
                0
            };
            let need: u8 = y + borrow;
            let ghost was = borrow;
            let ghost done = low@;
            let d: u8 = if x < need {
                borrow = 1;
                x + 10 - need
            } else {
                borrow = 0;
                x - need
            };
            low.push(d);
            proof {
                let p = ten(i as nat);
                value_push(done, d);
                value_push(a.take(i as int), x);
                assert(a.take(i + 1) =~= a.take(i as int).push(x));
                if i < held {
                    value_push(b.take(i as int), y);
                    assert(b.take(i + 1) =~= b.take(i as int).push(y));
                }
                ten_steps(i as nat);
                assert(d + y + was == x + 10 * borrow);
                assert(d * p + y * p + was * p == x * p + borrow * (10 * p)) by (nonlinear_arith)
                    requires
                        d + y + was == x + 10 * borrow,
                ;
                assert(i >= held ==> y * p == 0) by (nonlinear_arith)
                    requires
                        i >= held ==> y == 0,
                ;
            }
            i = i + 1;
        }
        proof {
            assert(a.take(i as int) =~= a);
            assert(b.take(held as int) =~= b);
            value_bound(low@);
            let p = ten(i as nat);
            assert(borrow == 0) by {
                if borrow == 1 {
                    assert(borrow * p == p);
                }
            }
            assert(borrow * p == 0);
        }
        let ghost total = low_value(low@);
        while low.len() > 0 && low[low.len() - 1] == 0
            invariant
                all_digits(low@),
                low_value(low@) == total,
            decreases low.len(),
        {
            proof {
                let s = low@.drop_last();
                value_push(s, 0);
                assert(s.push(0) =~= low@);
                assert(0 * ten(s.len()) == 0);
            }
            low.pop();
        }
        Digits { low }
    }

    /// The quotient and the remainder.
    fn divided(&self, by: &Digits) -> (r: (Digits, Digits))
        requires
            by@ > 0,
        ensures
            r.0@ == self@ / by@,
            r.1@ == self@ % by@,
    {
        proof {
            use_type_invariant(self);
        }
        let ghost n = self.low@;
        let ghost d = by@;
        let mut q: Digits = Digits::zero();
        let mut rest: Digits = Digits::zero();
        let mut i: usize = self.low.len();
        proof {
            assert(n.skip(i as int) =~= Seq::<u8>::empty());
            assert(0 * d == 0);
        }
        while i > 0
            invariant
                n == self.low@,
                all_digits(n),
                d == by@,
                d > 0,
                i <= n.len(),
                q@ * d + rest@ == low_value(n.skip(i as int)),
                rest@ < d,
            decreases i,
        {
            let ghost q0 = q@;
            let ghost r0 = rest@;
            i = i - 1;
            let x: u8 = self.low[i];
            assert(n.skip(i as int).drop_first() =~= n.skip(i + 1));
            rest = rest.with_digit(x);
            let mut k: u8 = 0;
            assert(0 * d == 0);
            while !rest.less(by)
                invariant
                    k <= 9,
                    x < 10,
                    r0 < d,
                    d == by@,
                    d > 0,
                    k * d + rest@ == 10 * r0 + x,
                decreases rest@,
            {
                assert(k < 9) by {
                    if k == 9 {
                        assert(9 * d + d <= 9 * d + rest@);
                    }
                }
                rest = rest.minus(by);
                assert((k + 1) * d == k * d + d) by (nonlinear_arith);
                k = k + 1;
            }
            q = q.with_digit(k);
            assert((10 * q0 + k) * d == 10 * (q0 * d) + k * d) by (nonlinear_arith);
        }
        proof {
            assert(n.skip(0) =~= n);
            lemma_fundamental_div_mod_converse(
                self@ as int,
                d as int,
                q@ as int,
                rest@ as int,
            );
        }
        (q, rest)
    }

    /// The digits of a text, where it spells a number: digits, with or without a plus sign before
    /// them.
    pub fn parse(s: &str) -> (r: Option<Digits>)
        ensures
            match r {
                Some(n) => spelled(s@) == Some(n@),
                None => spelled(s@) is None,
            },
    {
        let v: Vec<char> = chars_of(s);
        let start: usize = if v.len() > 0 && v[0] == '+' {
            1
        } else {
            0
        };
        let ghost d = unsigned_part(s@);
        assert(d =~= s@.skip(start as int));
        if v.len() == start {
            return None;
        }
        let mut n: Digits = Digits::zero();
        let mut i: usize = start;
        assert(d.take(0) =~= Seq::<char>::empty());
        while i < v.len()
            invariant
                start <= i <= v@.len(),
                v@ == s@,
                d == unsigned_part(s@),
                d == s@.skip(start as int),
                n@ == digits_value(d.take(i - start)),
                forall|j: int| 0 <= j < i - start ==> is_digit(#[trigger] d[j]),
            decreases v.len() - i,
        {
            let c: char = v[i];
            assert(d[i - start] == c);
            if !('0' <= c && c <= '9') {
                return None;
            }
            let digit: u8 = (c as u32 - '0' as u32) as u8;
            proof {
                let k = i - start;
                assert(d.take(k + 1).drop_last() =~= d.take(k));
                assert(d.take(k + 1).last() == c);
            }
            n = n.with_digit(digit);
            i = i + 1;
        }
        assert(d.take(i - start) =~= d);
        Some(n)
    }

    /// The number in decimal notation.
    pub fn text(&self) -> (s: String)
        ensures
            s@ == decimal(self@),
    {
        proof {
            use_type_invariant(self);
        }
        let mut s: String = String::new();
        if self.low.len() == 0 {
            s.append("0");
            proof {
                reveal_strlit("0");
                assert(s@ =~= decimal(0));
            }
            return s;
        }
        let ghost n = self.low@;
        let mut i: usize = self.low.len();
        proof {
            assert(n.skip(i as int) =~= Seq::<u8>::empty());
        }
        while i > 0
            invariant
                n == self.low@,
                trimmed(n),
                n.len() > 0,
                i <= n.len(),
                i == n.len() ==> s@ == Seq::<char>::empty(),
                i < n.len() ==> s@ == decimal(low_value(n.skip(i as int))),
            decreases i,
        {
            i = i - 1;
            let ghost before = s@;
            s.append(digit_text(self.low[i] as u64));
            proof {
                let more = n.skip(i + 1);
                let now = n.skip(i as int);
                assert(now.drop_first() =~= more);
                assert(now[0] < 10);
                if i + 1 == n.len() {
                    assert(more =~= Seq::<u8>::empty());
                    assert(low_value(more) == 0);
                    assert(s@ =~= decimal(low_value(now)));
                } else {
                    assert(trimmed(more)) by {
                        assert(more.last() == n.last());
                    }
                    value_floor(more);
                    assert(low_value(now) / 10 == low_value(more));
                    assert(low_value(now) % 10 == now[0] as nat);
                    assert(s@ =~= before.push(digit_char(now[0] as nat)));
                    assert(s@ =~= decimal(low_value(now)));
                }
            }
        }
        assert(n.skip(0) =~= n);
        s
    }
}

/// The number that a text spells, however large.
pub open spec fn spelled(s: Seq<char>) -> Option<nat> {
    let d = unsigned_part(s);
    if d.len() > 0 && (forall|i: int| 0 <= i < d.len() ==> is_digit(#[trigger] d[i])) {
        Some(digits_value(d))
    } else {
        None
    }
}

/// The greatest common divisor.
pub open spec fn gcd(a: nat, b: nat) -> nat
    decreases b,
{
    if b == 0 {
        a
    } else {
        gcd(b, a % b)
    }
}

/// The greatest common divisor.
fn common(a: &Digits, b: &Digits) -> (g: Digits)
    ensures
        g@ == gcd(a@, b@),
{
    let mut x: Digits = a.copy();
    let mut y: Digits = b.copy();
    while !y.is_zero()
        invariant
            gcd(x@, y@) == gcd(a@, b@),
        decreases y@,
    {
        let (q, rest): (Digits, Digits) = x.divided(&y);
        x = y;
        y = rest;
    }
    x
}

/// The parts of a fraction in lowest terms. Nothing over nothing is the invalid fraction, and stays
/// as it is.
pub open spec fn lowest(n: nat, d: nat) -> (nat, nat) {
    if n == 0 && d == 0 {
        (0, 0)
    } else {
        (n / gcd(n, d), d / gcd(n, d))
    }
}

/// Brings a fraction to lowest terms.
pub fn reduce(n: Digits, d: Digits) -> (r: (Digits, Digits))
    ensures
        (r.0@, r.1@) == lowest(n@, d@),
{
    if n.is_zero() && d.is_zero() {
        return (n, d);
    }
    proof {
        divides_both(n@, d@);
    }
    let g: Digits = common(&n, &d);
    let top: (Digits, Digits) = n.divided(&g);
    let bottom: (Digits, Digits) = d.divided(&g);
    (top.0, bottom.0)
}

proof fn divides_both(a: nat, b: nat)
    ensures
        a > 0 || b > 0 ==> gcd(a, b) > 0,
        gcd(a, b) > 0 ==> a % gcd(a, b) == 0 && b % gcd(a, b) == 0,
    decreases b,
{
    if b > 0 {
        divides_both(b, a % b);
        let g = gcd(a, b);
        let r = a % b;
        let q = a / b;
        let x = b / g;
        let y = r / g;
        assert(b == g * x && r == g * y) by {
            lemma_fundamental_div_mod(b as int, g as int);
            lemma_fundamental_div_mod(r as int, g as int);
        }
        lemma_fundamental_div_mod(a as int, b as int);
        assert(a == g * (x * q + y)) by (nonlinear_arith)
            requires
                a == b * q + r,
                b == g * x,
                r == g * y,
        ;
        lemma_mod_multiples_basic((x * q + y) as int, g as int);
        assert((x * q + y) * g == g * (x * q + y)) by (nonlinear_arith);
    } else if a > 0 {
        lemma_mod_self_0(a as int);
    }
}

/// A common factor of two numbers is one of their greatest common divisor.
pub proof fn gcd_scales(k: nat, a: nat, b: nat)
    requires
        k > 0,
    ensures
        gcd(k * a, k * b) == k * gcd(a, b),
    decreases b,
{
    if b > 0 {
        assert(k * b > 0) by (nonlinear_arith)
            requires
                k > 0,
                b > 0,
        ;
        lemma_truncate_middle(a as int, k as int, b as int);
        gcd_scales(k, b, a % b);
    } else {
        assert(k * b == 0) by (nonlinear_arith)
            requires
                b == 0,
        ;
    }
}

/// The greatest common divisor divides both numbers, and no common divisor is greater.
pub proof fn gcd_is_greatest(a: nat, b: nat, k: nat)
    requires
        a > 0 || b > 0,
        k > 0,
        a % k == 0,
        b % k == 0,
    ensures
        gcd(a, b) > 0,
        a % gcd(a, b) == 0,
        b % gcd(a, b) == 0,
        k <= gcd(a, b),
{
    divides_both(a, b);
    let x = a / k;
    let y = b / k;
    lemma_fundamental_div_mod(a as int, k as int);
    lemma_fundamental_div_mod(b as int, k as int);
    gcd_scales(k, x, y);
    divides_both(x, y);
    let g = gcd(x, y);
    assert(x > 0 || y > 0) by {
        if x == 0 && y == 0 {
            assert(k * 0 == 0);
        }
    }
    assert(k * g >= k) by (nonlinear_arith)
        requires
            g >= 1,
    ;
}

/// A fraction in lowest terms has no common factor left.
pub proof fn lowest_is_lowest(n: nat, d: nat)
    requires
        n > 0 || d > 0,
    ensures
        gcd(lowest(n, d).0, lowest(n, d).1) == 1,
        lowest(lowest(n, d).0, lowest(n, d).1) == lowest(n, d),
        d > 0 ==> lowest(n, d).1 > 0,
{
    let g = gcd(n, d);
    divides_both(n, d);
    let x = n / g;
    let y = d / g;
    lemma_fundamental_div_mod(n as int, g as int);
    lemma_fundamental_div_mod(d as int, g as int);
    gcd_scales(g, x, y);
    if y == 0 {
        assert(g * 0 == 0);
    }
    assert(gcd(x, y) == 1) by (nonlinear_arith)
        requires
            g == g * gcd(x, y),
            g > 0,
    ;
}

/// Fractions that are equal have the same parts in lowest terms.
pub proof fn equal_fractions_are_one(n1: nat, d1: nat, n2: nat, d2: nat)
    requires
        d1 > 0,
        d2 > 0,
        n1 * d2 == n2 * d1,
    ensures
        lowest(n1, d1) == lowest(n2, d2),
{
    scaled(d2, n1, d1);
    scaled(d1, n2, d2);
    assert(d2 * n1 == d1 * n2) by (nonlinear_arith)
        requires
            n1 * d2 == n2 * d1,
    ;
    assert(d2 * d1 == d1 * d2) by (nonlinear_arith);
}

proof fn scaled(k: nat, n: nat, d: nat)
    requires
        k > 0,
        d > 0,
    ensures
        lowest(k * n, k * d) == lowest(n, d),
{
    let g = gcd(n, d);
    divides_both(n, d);
    gcd_scales(k, n, d);
    assert(k * d > 0 && k * g > 0) by (nonlinear_arith)
        requires
            k > 0,
            d > 0,
            g > 0,
    ;
    lemma_fundamental_div_mod(n as int, g as int);
    lemma_fundamental_div_mod(d as int, g as int);
    cancels(k, n, g);
    cancels(k, d, g);
}

proof fn cancels(k: nat, a: nat, g: nat)
    requires
        k > 0,
        g > 0,
        a % g == 0,
    ensures
        (k * a) / (k * g) == a / g,
{
    let x = a / g;
    lemma_fundamental_div_mod(a as int, g as int);
    assert(k * g > 0) by (nonlinear_arith)
        requires
            k > 0,
            g > 0,
    ;
    assert(k * a == x * (k * g)) by (nonlinear_arith)
        requires
            a == g * x,
    ;
    lemma_div_multiples_vanish(x as int, (k * g) as int);
}

} // verus!
