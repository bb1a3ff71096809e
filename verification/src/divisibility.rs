//! Divisibility and greatest common divisors of unsigned 64-bit amounts.
//!
//! The vault stores a basket's composition in lowest terms, so everything
//! it promises about compositions rests on the facts collected here: what
//! it means for one amount to divide another, what the greatest common
//! divisor of a list of amounts is, and that Euclid's algorithm computes it.

use vstd::arithmetic::div_mod::{
    lemma_div_multiples_vanish, lemma_fundamental_div_mod, lemma_mod_multiples_basic,
};
use vstd::prelude::*;

verus! {

/// `d` divides `n`: `n` is a whole multiple of `d`. Zero divides only zero.
pub open spec fn divides(d: nat, n: nat) -> bool {
    if d == 0 {
        n == 0
    } else {
        n % d == 0
    }
}

/// `d` divides every amount in `s`.
pub open spec fn divides_all(d: nat, s: Seq<u64>) -> bool {
    forall|i: int| 0 <= i < s.len() ==> divides(d, #[trigger] s[i] as nat)
}

/// `g` is the greatest common divisor of the amounts in `s`: it divides all
/// of them, and every other common divisor divides it. For the empty list
/// and for a list of zeros this is zero.
pub open spec fn is_gcd_of(g: nat, s: Seq<u64>) -> bool {
    &&& divides_all(g, s)
    &&& forall|d: nat| #[trigger] divides_all(d, s) ==> divides(d, g)
}

/// `scaled` is `base` with every amount multiplied by `factor`.
pub open spec fn scaled_by(base: Seq<u64>, factor: nat, scaled: Seq<u64>) -> bool {
    &&& scaled.len() == base.len()
    &&& forall|i: int| 0 <= i < scaled.len() ==> #[trigger] scaled[i] == factor * base[i]
}

/// Euclid's recurrence for the greatest common divisor of two numbers.
pub open spec fn gcd(a: nat, b: nat) -> nat
    decreases b,
{
    if b == 0 {
        a
    } else {
        gcd(b, a % b)
    }
}

/// The greatest common divisor of a list, folded from the left.
pub open spec fn gcd_of(s: Seq<u64>) -> nat
    decreases s.len(),
{
    if s.len() == 0 {
        0
    } else {
        gcd(gcd_of(s.drop_last()), s.last() as nat)
    }
}

/// Every multiple of `d` is divisible by `d`.
pub proof fn lemma_multiple_divides(d: nat, k: nat)
    ensures
        divides(d, d * k),
        divides(d, k * d),
{
    assert(d * k == k * d) by (nonlinear_arith);
    if d == 0 {
        assert(k * d == 0) by (nonlinear_arith)
            requires
                d == 0,
        ;
    } else {
        lemma_mod_multiples_basic(k as int, d as int);
    }
}

/// Dividing a multiple of a positive `d` by `d` leaves no remainder and
/// gives the factor back.
pub proof fn lemma_multiple_quotient(d: nat, k: nat)
    requires
        d > 0,
    ensures
        (d * k) % d == 0,
        (d * k) / d == k,
{
    lemma_multiple_divides(d, k);
    lemma_div_multiples_vanish(k as int, d as int);
}

/// What `d` divides is `d` times the quotient.
pub proof fn lemma_divides_quotient(d: nat, n: nat)
    requires
        divides(d, n),
    ensures
        n == d * (n / d),
        n == (n / d) * d,
{
    assert(d * (n / d) == (n / d) * d) by (nonlinear_arith);
    if d == 0 {
        assert((n / d) * d == 0) by (nonlinear_arith)
            requires
                d == 0,
        ;
    } else {
        lemma_fundamental_div_mod(n as int, d as int);
    }
}

/// Divisibility is transitive.
pub proof fn lemma_divides_transitive(a: nat, b: nat, c: nat)
    requires
        divides(a, b),
        divides(b, c),
    ensures
        divides(a, c),
{
    lemma_divides_quotient(a, b);
    lemma_divides_quotient(b, c);
    let k: nat = (b / a) * (c / b);
    assert(c == a * k) by (nonlinear_arith)
        requires
            b == a * (b / a),
            c == b * (c / b),
            k == (b / a) * (c / b),
    ;
    lemma_multiple_divides(a, k);
}

/// Two numbers that divide each other are equal.
pub proof fn lemma_divides_antisymmetric(a: nat, b: nat)
    requires
        divides(a, b),
        divides(b, a),
    ensures
        a == b,
{
    lemma_divides_quotient(a, b);
    lemma_divides_quotient(b, a);
    if a != 0 && b != 0 {
        assert(a == b) by (nonlinear_arith)
            requires
                a > 0,
                b > 0,
                b == a * (b / a),
                a == b * (a / b),
        ;
    }
}

/// A divisor of `a` and of `b` divides the remainder of `a` by `b`.
pub proof fn lemma_divides_remainder(d: nat, a: nat, b: nat)
    requires
        b > 0,
        divides(d, a),
        divides(d, b),
    ensures
        divides(d, a % b),
{
    lemma_divides_quotient(d, a);
    lemma_divides_quotient(d, b);
    lemma_fundamental_div_mod(a as int, b as int);
    let ka: nat = a / d;
    let kb: nat = b / d;
    let q: nat = a / b;
    let r: nat = a % b;
    assert(d > 0);
    assert(ka >= kb * q && r == d * ((ka - kb * q) as nat)) by (nonlinear_arith)
        requires
            d > 0,
            a == d * ka,
            b == d * kb,
            a == b * q + r,
    ;
    lemma_multiple_divides(d, (ka - kb * q) as nat);
}

/// A divisor of `b` and of the remainder of `a` by `b` divides `a`.
pub proof fn lemma_divides_dividend(d: nat, a: nat, b: nat)
    requires
        b > 0,
        divides(d, b),
        divides(d, a % b),
    ensures
        divides(d, a),
{
    lemma_divides_quotient(d, b);
    lemma_divides_quotient(d, a % b);
    lemma_fundamental_div_mod(a as int, b as int);
    let kb: nat = b / d;
    let kr: nat = (a % b) / d;
    let q: nat = a / b;
    let r: nat = a % b;
    assert(a == d * (kb * q + kr)) by (nonlinear_arith)
        requires
            b == d * kb,
            r == d * kr,
            a == b * q + r,
    ;
    lemma_multiple_divides(d, kb * q + kr);
}

/// Euclid's recurrence yields the greatest common divisor: `gcd(a, b)`
/// divides both numbers, and whatever divides both divides it.
pub proof fn lemma_gcd_is_greatest(a: nat, b: nat)
    ensures
        divides(gcd(a, b), a),
        divides(gcd(a, b), b),
        forall|d: nat| divides(d, a) && divides(d, b) ==> #[trigger] divides(d, gcd(a, b)),
    decreases b,
{
    let g = gcd(a, b);
    if b == 0 {
        lemma_multiple_divides(a, 1);
        lemma_multiple_divides(a, 0);
        assert(a * 1 == a && a * 0 == 0) by (nonlinear_arith);
    } else {
        lemma_gcd_is_greatest(b, a % b);
        lemma_divides_dividend(g, a, b);
        assert forall|d: nat| divides(d, a) && divides(d, b) implies #[trigger] divides(d, g) by {
            lemma_divides_remainder(d, a, b);
        }
    }
}

/// The greatest common divisor of two numbers is no larger than either,
/// unless that one is zero.
pub proof fn lemma_gcd_bounded(a: nat, b: nat)
    ensures
        a > 0 ==> gcd(a, b) <= a,
        b > 0 ==> gcd(a, b) <= b,
        gcd(a, b) == 0 <==> a == 0 && b == 0,
{
    lemma_gcd_is_greatest(a, b);
    let g = gcd(a, b);
    lemma_divides_quotient(g, a);
    lemma_divides_quotient(g, b);
    assert(a > 0 ==> g <= a) by (nonlinear_arith)
        requires
            a == g * (a / g),
    ;
    assert(b > 0 ==> g <= b) by (nonlinear_arith)
        requires
            b == g * (b / g),
    ;
    if a == 0 && b == 0 {
        assert(divides(0, a) && divides(0, b));
        assert(divides(0, g));
    }
}

/// The folded greatest common divisor of a list is its greatest common
/// divisor.
pub proof fn lemma_gcd_of_is_greatest(s: Seq<u64>)
    ensures
        is_gcd_of(gcd_of(s), s),
    decreases s.len(),
{
    let g = gcd_of(s);
    if s.len() == 0 {
        assert forall|d: nat| #[trigger] divides_all(d, s) implies divides(d, g) by {
            lemma_multiple_divides(d, 0);
            assert(d * 0 == 0) by (nonlinear_arith);
        }
    } else {
        let front = s.drop_last();
        let h = gcd_of(front);
        let x = s.last() as nat;
        lemma_gcd_of_is_greatest(front);
        lemma_gcd_is_greatest(h, x);
        assert forall|i: int| 0 <= i < s.len() implies divides(g, #[trigger] s[i] as nat) by {
            if i < s.len() - 1 {
                assert(divides(h, front[i] as nat));
                lemma_divides_transitive(g, h, s[i] as nat);
            }
        }
        assert forall|d: nat| #[trigger] divides_all(d, s) implies divides(d, g) by {
            assert forall|i: int| 0 <= i < front.len() implies divides(
                d,
                #[trigger] front[i] as nat,
            ) by {
                assert(divides(d, s[i] as nat));
            }
            assert(divides_all(d, front));
            assert(divides(d, h));
            assert(divides(d, s[s.len() - 1] as nat));
        }
    }
}

/// A list has only one greatest common divisor.
pub proof fn lemma_gcd_unique(g: nat, h: nat, s: Seq<u64>)
    requires
        is_gcd_of(g, s),
        is_gcd_of(h, s),
    ensures
        g == h,
{
    assert(divides_all(g, s));
    assert(divides_all(h, s));
    lemma_divides_antisymmetric(g, h);
}

/// What is left of a list when its greatest common divisor is taken out of
/// every amount is in lowest terms: the only common divisor left is one.
pub proof fn lemma_quotients_in_lowest_terms(base: Seq<u64>, g: nat, scaled: Seq<u64>)
    requires
        g > 0,
        is_gcd_of(g, scaled),
        scaled_by(base, g, scaled),
    ensures
        is_gcd_of(1, base),
{
    assert(divides_all(1, base)) by {
        assert forall|i: int| 0 <= i < base.len() implies divides(
            1,
            #[trigger] base[i] as nat,
        ) by {}
    }
    assert forall|d: nat| #[trigger] divides_all(d, base) implies divides(d, 1) by {
        let dg: nat = d * g;
        assert forall|i: int| 0 <= i < scaled.len() implies divides(
            dg,
            #[trigger] scaled[i] as nat,
        ) by {
            let y = base[i] as nat;
            assert(divides(d, y));
            lemma_divides_quotient(d, y);
            let m: nat = y / d;
            assert(scaled[i] as nat == dg * m) by (nonlinear_arith)
                requires
                    y == d * m,
                    scaled[i] as nat == g * y,
                    dg == d * g,
            ;
            lemma_multiple_divides(dg, m);
        }
        assert(divides_all(dg, scaled));
        assert(divides(dg, g));
        lemma_divides_quotient(dg, g);
        let t: nat = g / dg;
        assert(d == 1) by (nonlinear_arith)
            requires
                g > 0,
                g == dg * t,
                dg == d * g,
        ;
    }
}

/// The greatest common divisor of a list is zero exactly when every amount
/// in it is zero, and otherwise no larger than any non-zero amount.
pub proof fn lemma_gcd_of_bounded(s: Seq<u64>)
    ensures
        gcd_of(s) <= u64::MAX,
        gcd_of(s) == 0 <==> (forall|i: int| 0 <= i < s.len() ==> #[trigger] s[i] == 0),
        forall|i: int| 0 <= i < s.len() && #[trigger] s[i] > 0 ==> gcd_of(s) <= s[i],
    decreases s.len(),
{
    if s.len() > 0 {
        let front = s.drop_last();
        lemma_gcd_of_bounded(front);
        lemma_gcd_bounded(gcd_of(front), s.last() as nat);
        assert forall|i: int| 0 <= i < s.len() && #[trigger] s[i] > 0 implies gcd_of(s) <= s[i] by {
            lemma_gcd_of_is_greatest(s);
            lemma_divides_quotient(gcd_of(s), s[i] as nat);
            let g = gcd_of(s);
            let x = s[i] as nat;
            assert(g <= x) by (nonlinear_arith)
                requires
                    x > 0,
                    x == g * (x / g),
            ;
        }
        if gcd_of(s) == 0 {
            assert forall|i: int| 0 <= i < s.len() implies #[trigger] s[i] == 0 by {
                if i < s.len() - 1 {
                    assert(front[i] == 0);
                }
            }
        }
        if forall|i: int| 0 <= i < s.len() ==> #[trigger] s[i] == 0 {
            assert forall|i: int| 0 <= i < front.len() implies #[trigger] front[i] == 0 by {
                assert(s[i] == 0);
            }
            assert(s[s.len() - 1] == 0);
        }
    }
}

/// The greatest common divisor of `a` and `b`; zero when both are zero.
pub fn gcd_u64(a: u64, b: u64) -> (g: u64)
    ensures
        g == gcd(a as nat, b as nat),
        divides(g as nat, a as nat),
        divides(g as nat, b as nat),
        forall|d: nat|
            divides(d, a as nat) && divides(d, b as nat) ==> #[trigger] divides(d, g as nat),
{
    let mut x: u64 = a;
    let mut y: u64 = b;
    while y != 0
        invariant
            gcd(x as nat, y as nat) == gcd(a as nat, b as nat),
        decreases y,
    {
        let t: u64 = x % y;
        x = y;
        y = t;
    }
    proof {
        lemma_gcd_is_greatest(a as nat, b as nat);
    }
    x
}

/// The greatest common divisor of all the amounts in `amounts`; zero for
/// the empty list and for a list of zeros.
pub fn gcd_of_list(amounts: &Vec<u64>) -> (g: u64)
    ensures
        g == gcd_of(amounts@),
        is_gcd_of(g as nat, amounts@),
{
    let mut g: u64 = 0;
    let mut i: usize = 0;
    while i < amounts.len()
        invariant
            i <= amounts.len(),
            g == gcd_of(amounts@.take(i as int)),
        decreases amounts.len() - i,
    {
        proof {
            let next = amounts@.take(i + 1);
            assert(next.drop_last() == amounts@.take(i as int));
            assert(next.last() == amounts@[i as int]);
        }
        g = gcd_u64(g, amounts[i]);
        i += 1;
    }
    proof {
        assert(amounts@.take(i as int) == amounts@);
        lemma_gcd_of_is_greatest(amounts@);
    }
    g
}

} // verus!
