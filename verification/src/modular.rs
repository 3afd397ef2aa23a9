//! Number-theoretic facts behind the randomized port order: stepping through
//! a range by an increment coprime to the range length visits every value of
//! the range exactly once.
use vstd::prelude::*;
use vstd::arithmetic::div_mod::{
    lemma_fundamental_div_mod, lemma_fundamental_div_mod_converse, lemma_small_mod,
};
use vstd::set_lib::{lemma_int_range, lemma_len_subset, set_int_range};

verus! {

/// Whether `d` divides `x`.
pub open spec fn divides(d: int, x: int) -> bool {
    exists|k: int| x == #[trigger] (d * k)
}

/// The greatest common divisor, by Euclid's recursion.
pub open spec fn spec_gcd(a: nat, b: nat) -> nat
    decreases b,
{
    if b == 0 {
        a
    } else {
        spec_gcd(b, a % b)
    }
}

/// A common multiplier distributes over the remainder.
proof fn lemma_mul_mod_distribute(d: int, a: int, b: int)
    requires
        d > 0,
        b > 0,
        a >= 0,
    ensures
        (d * a) % (d * b) == d * (a % b),
{
    lemma_fundamental_div_mod(a, b);
    let q = a / b;
    let r = a % b;
    assert(d * a == q * (d * b) + d * r && 0 <= d * r < d * b) by (nonlinear_arith)
        requires
            a == b * q + r,
            0 <= r < b,
            d > 0,
    ;
    lemma_fundamental_div_mod_converse(d * a, d * b, q, d * r);
}

/// A common multiplier distributes over the greatest common divisor.
pub proof fn lemma_gcd_scale(d: nat, a: nat, b: nat)
    requires
        d > 0,
    ensures
        spec_gcd(d * a, d * b) == d * spec_gcd(a, b),
    decreases b,
{
    if b == 0 {
        assert(d * b == 0);
    } else {
        lemma_gcd_scale(d, b, a % b);
        lemma_mul_mod_distribute(d as int, a as int, b as int);
        assert(d * b > 0) by (nonlinear_arith)
            requires
                d > 0,
                b > 0,
        ;
        assert((d * a) % (d * b) == d * (a % b));
        assert(spec_gcd(d * a, d * b) == spec_gcd(d * b, d * (a % b)));
    }
}

/// A common divisor of two numbers divides their greatest common divisor.
pub proof fn lemma_divides_gcd(n: nat, a: nat, b: nat)
    requires
        n > 0,
        divides(n as int, a as int),
        divides(n as int, b as int),
    ensures
        divides(n as int, spec_gcd(a, b) as int),
    decreases b,
{
    if b == 0 {
    } else {
        let k1 = choose|k: int| a as int == #[trigger] (n as int * k);
        let k2 = choose|k: int| b as int == #[trigger] (n as int * k);
        lemma_fundamental_div_mod(a as int, b as int);
        let q = a as int / b as int;
        assert((a % b) as int == n as int * (k1 - k2 * q)) by (nonlinear_arith)
            requires
                a as int == (b as int) * q + (a % b) as int,
                a as int == n as int * k1,
                b as int == n as int * k2,
        ;
        lemma_divides_gcd(n, b, a % b);
    }
}

/// When `s` is coprime to `n`, only multiples of `n` among the `d * s`
/// come from multiples of `n` among the `d`.
pub proof fn lemma_coprime_cancel(n: nat, s: nat, d: nat)
    requires
        n > 0,
        spec_gcd(n, s) == 1,
        divides(n as int, (d * s) as int),
    ensures
        divides(n as int, d as int),
{
    if d == 0 {
        assert(0int == n as int * 0);
    } else {
        lemma_gcd_scale(d, n, s);
        assert(spec_gcd(d * n, d * s) == d * spec_gcd(n, s));
        assert((d * n) as int == n as int * d as int) by (nonlinear_arith);
        assert(divides(n as int, (d * n) as int));
        lemma_divides_gcd(n, d * n, d * s);
        assert(d * spec_gcd(n, s) == d);
    }
}

/// Two distinct steps of a coprime linear walk land on distinct values.
pub proof fn lemma_lcg_distinct(n: nat, s: nat, f: nat, k1: nat, k2: nat)
    requires
        n > 0,
        spec_gcd(n, s) == 1,
        k1 < k2 < n,
    ensures
        (f + k1 * s) % n != (f + k2 * s) % n,
{
    if (f + k1 * s) % n == (f + k2 * s) % n {
        let x1 = (f + k1 * s) as int;
        let x2 = (f + k2 * s) as int;
        let m = n as int;
        lemma_fundamental_div_mod(x1, m);
        lemma_fundamental_div_mod(x2, m);
        let q1 = x1 / m;
        let q2 = x2 / m;
        let d = (k2 - k1) as nat;
        assert((d * s) as int == m * (q2 - q1)) by (nonlinear_arith)
            requires
                x1 == m * q1 + (x1 % m),
                x2 == m * q2 + (x2 % m),
                x1 % m == x2 % m,
                x1 == (f + k1 * s) as int,
                x2 == (f + k2 * s) as int,
                k1 < k2,
                d == (k2 - k1) as nat,
        ;
        assert(divides(m, (d * s) as int));
        lemma_coprime_cancel(n, s, d);
        let k = choose|k: int| d as int == #[trigger] (m * k);
        assert(false) by (nonlinear_arith)
            requires
                d as int == m * k,
                0 < (d as int) && (d as int) < m,
        ;
    }
}

/// The values of a coprime linear walk over `0 .. n`, one step at a time.
pub open spec fn lcg_seq(n: nat, s: nat, f: nat) -> Seq<int> {
    Seq::new(n, |k: int| (f + k * s) % (n as int))
}

/// A coprime linear walk of length `n` enumerates `0 .. n`: every value in
/// range appears, and none appears twice.
pub proof fn lemma_lcg_permutation(n: nat, s: nat, f: nat)
    requires
        n > 0,
        spec_gcd(n, s) == 1,
    ensures
        lcg_seq(n, s, f).len() == n,
        lcg_seq(n, s, f).no_duplicates(),
        forall|i: int| 0 <= i < n ==> 0 <= #[trigger] lcg_seq(n, s, f)[i] < n,
        forall|v: int| 0 <= v < n ==> lcg_seq(n, s, f).contains(v),
{
    let q = lcg_seq(n, s, f);
    assert forall|i: int| 0 <= i < n implies 0 <= #[trigger] q[i] < n by {
        assert(q[i] == (f + i * s) % (n as int));
    }
    assert forall|i: int, j: int| 0 <= i < j < n implies q[i] != q[j] by {
        assert((f + i * s) as nat % n == ((f as nat) + (i as nat) * s) % n);
        lemma_lcg_distinct(n, s, f, i as nat, j as nat);
    }
    assert(q.no_duplicates()) by {
        assert forall|i: int, j: int|
            0 <= i < q.len() && 0 <= j < q.len() && i != j implies q[i] != q[j] by {
            if i < j {
                assert(q[i] != q[j]);
            } else {
                assert(q[j] != q[i]);
            }
        }
    }
    lemma_pigeonhole(q, n as int);
}

/// A sequence of `n` distinct values that all lie in `0 .. n` reaches
/// every value of `0 .. n`.
pub proof fn lemma_pigeonhole(q: Seq<int>, n: int)
    requires
        n >= 0,
        q.len() == n,
        q.no_duplicates(),
        forall|i: int| 0 <= i < q.len() ==> 0 <= #[trigger] q[i] < n,
    ensures
        forall|v: int| 0 <= v < n ==> q.contains(v),
{
    q.unique_seq_to_set();
    let vs = q.to_set();
    let range = set_int_range(0, n);
    lemma_int_range(0, n);
    assert(vs.subset_of(range)) by {
        assert forall|v: int| vs.contains(v) implies range.contains(v) by {
            let i = choose|i: int| 0 <= i < q.len() && q[i] == v;
            assert(0 <= q[i] < n);
        }
    }
    assert forall|v: int| 0 <= v < n implies q.contains(v) by {
        if !vs.contains(v) {
            let smaller = range.remove(v);
            assert(vs.subset_of(smaller));
            lemma_len_subset(vs, smaller);
        }
        assert(vs.contains(v));
        let i = choose|i: int| 0 <= i < q.len() && q[i] == v;
    }
}

} // verus!

