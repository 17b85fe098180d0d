//! The greatest common divisor, reduced over a list by the iterative
//! Euclidean algorithm, together with the algebraic laws the service
//! relies on: the result divides every input, every common divisor
//! divides the result, and the two-argument gcd is commutative and
//! associative.

use vstd::prelude::*;

verus! {

use vstd::arithmetic::div_mod::lemma_fundamental_div_mod;

/// `d` divides `n` evenly.
pub open spec fn divides(d: int, n: int) -> bool {
    exists|k: int| n == #[trigger] (d * k)
}

/// Euclid's greatest common divisor, the mathematical reference for the
/// executable code. `gcd_spec(a, 0) == a`, so `gcd_spec(0, 0) == 0`.
pub open spec fn gcd_spec(a: nat, b: nat) -> nat
    decreases b,
{
    if b == 0 {
        a
    } else {
        gcd_spec(b, a % b)
    }
}

/// The gcd of a non-empty sequence, reduced left to right: the first
/// element seeds the accumulator, and each later element is folded in.
pub open spec fn gcd_seq(s: Seq<u64>) -> nat
    recommends
        s.len() >= 1,
    decreases s.len(),
{
    if s.len() <= 1 {
        s[0] as nat
    } else {
        gcd_spec(gcd_seq(s.drop_last()), s.last() as nat)
    }
}

proof fn lemma_divides_linear(d: int, x: int, y: int, q: int)
    requires
        divides(d, x),
        divides(d, y),
    ensures
        divides(d, x + q * y),
{
    let k1 = choose|k: int| x == #[trigger] (d * k);
    let k2 = choose|k: int| y == #[trigger] (d * k);
    assert(x + q * y == d * (k1 + q * k2)) by (nonlinear_arith)
        requires
            x == d * k1,
            y == d * k2,
    ;
}

proof fn lemma_divides_trans(d: int, x: int, y: int)
    requires
        divides(d, x),
        divides(x, y),
    ensures
        divides(d, y),
{
    let k1 = choose|k: int| x == #[trigger] (d * k);
    let k2 = choose|k: int| y == #[trigger] (x * k);
    assert(y == d * (k1 * k2)) by (nonlinear_arith)
        requires
            x == d * k1,
            y == x * k2,
    ;
}

proof fn lemma_divides_antisymmetric(a: int, b: int)
    requires
        0 <= a,
        0 <= b,
        divides(a, b),
        divides(b, a),
    ensures
        a == b,
{
    let k1 = choose|k: int| b == #[trigger] (a * k);
    let k2 = choose|k: int| a == #[trigger] (b * k);
    assert(a == b) by (nonlinear_arith)
        requires
            0 <= a,
            0 <= b,
            b == a * k1,
            a == b * k2,
    ;
}

/// The gcd divides both of its arguments.
pub proof fn lemma_gcd_divides(a: nat, b: nat)
    ensures
        divides(gcd_spec(a, b) as int, a as int),
        divides(gcd_spec(a, b) as int, b as int),
    decreases b,
{
    if b == 0 {
        assert(a as int == a as int * 1);
        assert(0int == a as int * 0);
    } else {
        lemma_gcd_divides(b, a % b);
        let g = gcd_spec(b, a % b) as int;
        lemma_fundamental_div_mod(a as int, b as int);
        lemma_divides_linear(g, (a % b) as int, b as int, a as int / b as int);
        assert(a as int == (a % b) as int + (a as int / b as int) * b as int);
    }
}

/// Every common divisor of the two arguments divides their gcd.
pub proof fn lemma_gcd_greatest(a: nat, b: nat, d: int)
    requires
        divides(d, a as int),
        divides(d, b as int),
    ensures
        divides(d, gcd_spec(a, b) as int),
    decreases b,
{
    if b == 0 {
    } else {
        lemma_divides_mod(d, a as int, b as int);
        lemma_gcd_greatest(b, a % b, d);
    }
}

proof fn lemma_divides_mod(d: int, a: int, b: int)
    requires
        b > 0,
        divides(d, a),
        divides(d, b),
    ensures
        divides(d, a % b),
{
    lemma_fundamental_div_mod(a, b);
    let q = a / b;
    let k1 = choose|k: int| a == #[trigger] (d * k);
    let k2 = choose|k: int| b == #[trigger] (d * k);
    assert(a % b == d * (k1 - q * k2)) by (nonlinear_arith)
        requires
            a == d * k1,
            b == d * k2,
            a % b == a - b * q,
    ;
}

/// A positive divisor of a positive value is no larger than that value.
pub proof fn lemma_divisor_le(d: int, n: int)
    requires
        0 < d,
        0 < n,
        divides(d, n),
    ensures
        d <= n,
{
    let k = choose|k: int| n == #[trigger] (d * k);
    assert(d <= n) by (nonlinear_arith)
        requires
            0 < d,
            0 < n,
            n == d * k,
    ;
}

/// The two-argument gcd is commutative.
pub proof fn lemma_gcd_commutative(a: nat, b: nat)
    ensures
        gcd_spec(a, b) == gcd_spec(b, a),
{
    lemma_gcd_divides(a, b);
    lemma_gcd_divides(b, a);
    lemma_gcd_greatest(b, a, gcd_spec(a, b) as int);
    lemma_gcd_greatest(a, b, gcd_spec(b, a) as int);
    lemma_divides_antisymmetric(gcd_spec(a, b) as int, gcd_spec(b, a) as int);
}

/// The two-argument gcd is associative.
pub proof fn lemma_gcd_associative(a: nat, b: nat, c: nat)
    ensures
        gcd_spec(gcd_spec(a, b), c) == gcd_spec(a, gcd_spec(b, c)),
{
    let l = gcd_spec(gcd_spec(a, b), c) as int;
    let r = gcd_spec(a, gcd_spec(b, c)) as int;
    lemma_gcd_divides(gcd_spec(a, b), c);
    lemma_gcd_divides(a, b);
    lemma_gcd_divides(b, c);
    lemma_gcd_divides(a, gcd_spec(b, c));
    // l divides a, b and c, hence divides gcd(b, c), hence divides r.
    lemma_divides_trans(l, gcd_spec(a, b) as int, a as int);
    lemma_divides_trans(l, gcd_spec(a, b) as int, b as int);
    lemma_gcd_greatest(b, c, l);
    lemma_gcd_greatest(a, gcd_spec(b, c), l);
    // r divides a, b and c, hence divides gcd(a, b), hence divides l.
    lemma_divides_trans(r, gcd_spec(b, c) as int, b as int);
    lemma_divides_trans(r, gcd_spec(b, c) as int, c as int);
    lemma_gcd_greatest(a, b, r);
    lemma_gcd_greatest(gcd_spec(a, b), c, r);
    lemma_divides_antisymmetric(l, r);
}

/// `gcd_spec(x, 0) == x`, and in particular `gcd_spec(0, 0) == 0`: a zero
/// operand never forces a division by zero.
pub proof fn lemma_gcd_zero(x: nat)
    ensures
        gcd_spec(x, 0) == x,
        gcd_spec(0, 0) == 0,
{
}

/// The reduced gcd of a non-empty list divides every element of the list.
pub proof fn lemma_gcd_seq_divides_all(s: Seq<u64>)
    requires
        s.len() >= 1,
    ensures
        forall|i: int| 0 <= i < s.len() ==> #[trigger] divides(gcd_seq(s) as int, s[i] as int),
    decreases s.len(),
{
    if s.len() == 1 {
        assert(s[0] as int == s[0] as int * 1);
    } else {
        let p = s.drop_last();
        let g = gcd_seq(s) as int;
        lemma_gcd_seq_divides_all(p);
        lemma_gcd_divides(gcd_seq(p), s.last() as nat);
        assert forall|i: int| 0 <= i < s.len() implies #[trigger] divides(g, s[i] as int) by {
            if i < s.len() - 1 {
                assert(divides(gcd_seq(p) as int, p[i] as int));
                lemma_divides_trans(g, gcd_seq(p) as int, p[i] as int);
            }
        }
    }
}

/// Every common divisor of all the elements of a non-empty list divides
/// the reduced gcd; with `lemma_gcd_seq_divides_all` this is the whole
/// definition of a greatest common divisor.
pub proof fn lemma_gcd_seq_greatest(s: Seq<u64>, d: int)
    requires
        s.len() >= 1,
        forall|i: int| 0 <= i < s.len() ==> #[trigger] divides(d, s[i] as int),
    ensures
        divides(d, gcd_seq(s) as int),
    decreases s.len(),
{
    if s.len() == 1 {
    } else {
        let p = s.drop_last();
        lemma_gcd_seq_greatest(p, d);
        lemma_gcd_greatest(gcd_seq(p), s.last() as nat, d);
    }
}

/// A list of positive values has a positive gcd.
pub proof fn lemma_gcd_seq_positive(s: Seq<u64>)
    requires
        s.len() >= 1,
        s[0] > 0,
    ensures
        gcd_seq(s) > 0,
{
    lemma_gcd_seq_divides_all(s);
    if gcd_seq(s) == 0 {
        assert(divides(gcd_seq(s) as int, s[0] as int));
        assert(divides(0, s[0] as int));
        let k = choose|k: int| s[0] as int == #[trigger] (0 * k);
        assert(s[0] as int == 0 * k);
        assert(0 * k == 0) by (nonlinear_arith);
    }
}

/// No value larger than the reduced gcd of a non-empty list of positive
/// values divides every element of the list: the result really is the
/// greatest of the common divisors.
pub proof fn lemma_gcd_seq_no_larger_divisor(s: Seq<u64>, d: int)
    requires
        s.len() >= 1,
        forall|i: int| 0 <= i < s.len() ==> s[i] > 0,
        d > gcd_seq(s),
    ensures
        exists|i: int| 0 <= i < s.len() && !divides(d, s[i] as int),
{
    if forall|i: int| 0 <= i < s.len() ==> #[trigger] divides(d, s[i] as int) {
        lemma_gcd_seq_positive(s);
        lemma_gcd_seq_greatest(s, d);
        lemma_divisor_le(d, gcd_seq(s) as int);
        assert(false);
    }
}

/// Reducing a three-element list gives the nested two-argument gcd, and
/// the result is the same in every one of the six orders: reduction
/// order never changes the answer.
pub proof fn lemma_gcd_seq3_any_order(a: u64, b: u64, c: u64)
    ensures
        gcd_seq(seq![a, b, c]) == gcd_spec(gcd_spec(a as nat, b as nat), c as nat),
        gcd_seq(seq![a, b, c]) == gcd_seq(seq![a, c, b]),
        gcd_seq(seq![a, b, c]) == gcd_seq(seq![b, a, c]),
        gcd_seq(seq![a, b, c]) == gcd_seq(seq![b, c, a]),
        gcd_seq(seq![a, b, c]) == gcd_seq(seq![c, a, b]),
        gcd_seq(seq![a, b, c]) == gcd_seq(seq![c, b, a]),
{
    lemma_gcd_seq3_unfold(a, b, c);
    lemma_gcd_seq3_unfold(a, c, b);
    lemma_gcd_seq3_unfold(b, a, c);
    lemma_gcd_seq3_unfold(b, c, a);
    lemma_gcd_seq3_unfold(c, a, b);
    lemma_gcd_seq3_unfold(c, b, a);
    lemma_gcd_commutative(a as nat, b as nat);
    lemma_gcd_commutative(a as nat, c as nat);
    lemma_gcd_commutative(b as nat, c as nat);
    lemma_gcd_commutative(a as nat, gcd_spec(b as nat, c as nat));
    lemma_gcd_commutative(b as nat, gcd_spec(a as nat, c as nat));
    lemma_gcd_commutative(c as nat, gcd_spec(a as nat, b as nat));
    lemma_gcd_associative(a as nat, b as nat, c as nat);
    lemma_gcd_associative(a as nat, c as nat, b as nat);
    lemma_gcd_associative(b as nat, a as nat, c as nat);
    lemma_gcd_associative(b as nat, c as nat, a as nat);
    lemma_gcd_associative(c as nat, a as nat, b as nat);
    lemma_gcd_associative(c as nat, b as nat, a as nat);
}

proof fn lemma_gcd_seq3_unfold(x: u64, y: u64, z: u64)
    ensures
        gcd_seq(seq![x, y, z]) == gcd_spec(gcd_spec(x as nat, y as nat), z as nat),
{
    let s = seq![x, y, z];
    assert(s.drop_last() =~= seq![x, y]);
    assert(seq![x, y].drop_last() =~= seq![x]);
    assert(gcd_seq(seq![x]) == x as nat);
    assert(gcd_seq(seq![x, y]) == gcd_spec(x as nat, y as nat));
}

/// The iterative Euclidean algorithm: repeatedly replace the larger
/// operand by the remainder of dividing it by the smaller, until one
/// operand is zero; the other operand is the answer.
pub fn gcd(n: u64, m: u64) -> (r: u64)
    ensures
        r == gcd_spec(n as nat, m as nat),
{
    let ghost g = gcd_spec(n as nat, m as nat);
    let mut n = n;
    let mut m = m;
    if n == 0 {
        proof {
            if m != 0 {
                vstd::arithmetic::div_mod::lemma_small_mod(0nat, m as nat);
                assert(gcd_spec(m as nat, 0) == m);
            }
        }
        return m;
    }
    while m != 0
        invariant
            n > 0,
            gcd_spec(n as nat, m as nat) == g,
        decreases m,
    {
        let ghost m0 = m as nat;
        if m < n {
            let t = m;
            m = n;
            n = t;
        } else {
            proof {
                lemma_gcd_commutative(n as nat, m as nat);
            }
        }
        // In both branches gcd_spec(n, m) is preserved and m >= n > 0,
        // so gcd_spec(n, m) unfolds to gcd_spec(n, m % n) after the swap.
        m = m % n;
        proof {
            assert(m < m0);
        }
    }
    n
}

/// Reduce a non-empty list to its gcd, seeding the accumulator with the
/// first element and folding each later element in.
pub fn gcd_reduce(numbers: &Vec<u64>) -> (r: u64)
    requires
        numbers.len() >= 1,
    ensures
        r == gcd_seq(numbers@),
{
    let mut d = numbers[0];
    let mut i: usize = 1;
    while i < numbers.len()
        invariant
            1 <= i <= numbers.len(),
            d == gcd_seq(numbers@.take(i as int)),
        decreases numbers.len() - i,
    {
        proof {
            assert(numbers@.take(i + 1).drop_last() =~= numbers@.take(i as int));
            assert(numbers@.take(i + 1).last() == numbers@[i as int]);
        }
        d = gcd(d, numbers[i]);
        i = i + 1;
    }
    proof {
        assert(numbers@.take(numbers@.len() as int) =~= numbers@);
    }
    d
}

} // verus!
