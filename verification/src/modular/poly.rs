//! Polynomials over the integers, given by their coefficient sequences
//! (lowest degree first), and the facts about their evaluation that the
//! limb arithmetic of this crate rests on.
use vstd::arithmetic::mul::*;
use vstd::arithmetic::power::*;
use vstd::prelude::*;

verus! {

/// The integer coefficients of a limb array.
pub open spec fn as_ints<const N: usize>(a: [i64; N]) -> Seq<int> {
    Seq::new(N as nat, |i: int| a[i] as int)
}

/// Value of the polynomial with coefficients `s` at the point `t` (Horner's rule).
pub open spec fn eval(s: Seq<int>, t: int) -> int
    decreases s.len(),
{
    if s.len() == 0 {
        0
    } else {
        s[0] + t * eval(s.drop_first(), t)
    }
}

/// Coefficient-wise sum of two sequences of the same length.
pub open spec fn seq_add(a: Seq<int>, b: Seq<int>) -> Seq<int> {
    Seq::new(a.len(), |i: int| a[i] + b[i])
}

/// Coefficient-wise difference of two sequences of the same length.
pub open spec fn seq_sub(a: Seq<int>, b: Seq<int>) -> Seq<int> {
    Seq::new(a.len(), |i: int| a[i] - b[i])
}

/// Every coefficient multiplied by `c`.
pub open spec fn seq_scale(a: Seq<int>, c: int) -> Seq<int> {
    Seq::new(a.len(), |i: int| a[i] * c)
}

/// `a` followed by `n` zero coefficients.
pub open spec fn seq_pad(a: Seq<int>, n: nat) -> Seq<int> {
    a + Seq::new(n, |i: int| 0int)
}

/// Coefficient `k` of `a * b` counting only the first `n` coefficients of `a`:
/// the sum of `a[i] * b[k - i]` over `i < n` with `k - i` a valid index of `b`.
pub open spec fn conv_prefix(a: Seq<int>, b: Seq<int>, k: int, n: nat) -> int
    decreases n,
{
    if n == 0 {
        0
    } else {
        let i = n - 1;
        conv_prefix(a, b, k, (n - 1) as nat) + (if 0 <= k - i < b.len() {
            a[i] * b[k - i]
        } else {
            0
        })
    }
}

/// Coefficients of the product polynomial `a * b`, of length `|a| + |b| - 1`.
pub open spec fn pol_mul(a: Seq<int>, b: Seq<int>) -> Seq<int> {
    Seq::new((a.len() + b.len() - 1) as nat, |k: int| conv_prefix(a, b, k, a.len()))
}

/// Sequence of length `len` holding `c * b[k - m]` at the places `m <= k < m + |b|`
/// and zero elsewhere: the contribution of coefficient `c` of degree `m`.
pub open spec fn shifted_row(c: int, b: Seq<int>, m: nat, len: nat) -> Seq<int> {
    Seq::new(len, |k: int| if m <= k < m + b.len() { c * b[k - m] } else { 0 })
}

/// Partial products: coefficient `k` after the first `n` coefficients of `a`.
pub open spec fn conv_partial(a: Seq<int>, b: Seq<int>, n: nat, len: nat) -> Seq<int> {
    Seq::new(len, |k: int| conv_prefix(a, b, k, n))
}

pub proof fn lemma_eval_zeros(s: Seq<int>, t: int)
    requires
        forall|i: int| 0 <= i < s.len() ==> s[i] == 0,
    ensures
        eval(s, t) == 0,
    decreases s.len(),
{
    if s.len() > 0 {
        lemma_eval_zeros(s.drop_first(), t);
    }
}

/// Evaluation is additive.
pub proof fn lemma_eval_add(a: Seq<int>, b: Seq<int>, t: int)
    requires
        a.len() == b.len(),
    ensures
        eval(seq_add(a, b), t) == eval(a, t) + eval(b, t),
    decreases a.len(),
{
    if a.len() > 0 {
        assert(seq_add(a, b).drop_first() =~= seq_add(a.drop_first(), b.drop_first()));
        lemma_eval_add(a.drop_first(), b.drop_first(), t);
        lemma_mul_is_distributive_add(t, eval(a.drop_first(), t), eval(b.drop_first(), t));
    }
}

/// Evaluation respects subtraction.
pub proof fn lemma_eval_sub(a: Seq<int>, b: Seq<int>, t: int)
    requires
        a.len() == b.len(),
    ensures
        eval(seq_sub(a, b), t) == eval(a, t) - eval(b, t),
    decreases a.len(),
{
    if a.len() > 0 {
        assert(seq_sub(a, b).drop_first() =~= seq_sub(a.drop_first(), b.drop_first()));
        lemma_eval_sub(a.drop_first(), b.drop_first(), t);
        lemma_mul_is_distributive_sub(t, eval(a.drop_first(), t), eval(b.drop_first(), t));
    }
}

/// Scaling the coefficients scales the value.
pub proof fn lemma_eval_scale(a: Seq<int>, c: int, t: int)
    ensures
        eval(seq_scale(a, c), t) == eval(a, t) * c,
    decreases a.len(),
{
    if a.len() > 0 {
        assert(seq_scale(a, c).drop_first() =~= seq_scale(a.drop_first(), c));
        lemma_eval_scale(a.drop_first(), c, t);
        let e = eval(a.drop_first(), t);
        assert(a[0] * c + t * (e * c) == (a[0] + t * e) * c) by (nonlinear_arith);
    }
}

/// Trailing zero coefficients do not change the value.
pub proof fn lemma_eval_pad(a: Seq<int>, n: nat, t: int)
    ensures
        eval(seq_pad(a, n), t) == eval(a, t),
    decreases a.len(),
{
    if a.len() == 0 {
        assert(seq_pad(a, n) =~= Seq::new(n, |i: int| 0int));
        lemma_eval_zeros(seq_pad(a, n), t);
    } else {
        assert(seq_pad(a, n).drop_first() =~= seq_pad(a.drop_first(), n));
        lemma_eval_pad(a.drop_first(), n, t);
    }
}

/// Appending a coefficient adds its monomial.
pub proof fn lemma_eval_push(s: Seq<int>, x: int, t: int)
    ensures
        eval(s.push(x), t) == eval(s, t) + x * pow(t, s.len()),
    decreases s.len(),
{
    if s.len() == 0 {
        assert(s.push(x).drop_first() =~= Seq::<int>::empty());
        assert(pow(t, 0) == 1) by { reveal(pow); }
        assert(eval(Seq::<int>::empty(), t) == 0);
        assert(t * 0 == 0);
        assert(x * 1 == x);
    } else {
        assert(s.push(x).drop_first() =~= s.drop_first().push(x));
        assert(s.push(x)[0] == s[0]);
        lemma_eval_push(s.drop_first(), x, t);
        let e = eval(s.drop_first(), t);
        let p = pow(t, (s.len() - 1) as nat);
        assert(pow(t, s.len()) == t * p) by { reveal(pow); }
        assert(t * (e + x * p) == t * e + x * (t * p)) by (nonlinear_arith);
    }
}

/// The contribution of one coefficient: `c * t^m * b(t)`.
pub proof fn lemma_eval_shifted_row(c: int, b: Seq<int>, m: nat, len: nat, t: int)
    requires
        m + b.len() <= len,
    ensures
        eval(shifted_row(c, b, m, len), t) == c * pow(t, m) * eval(b, t),
    decreases m, b.len(),
{
    let r = shifted_row(c, b, m, len);
    if m > 0 {
        assert(r.drop_first() =~= shifted_row(c, b, (m - 1) as nat, (len - 1) as nat));
        lemma_eval_shifted_row(c, b, (m - 1) as nat, (len - 1) as nat, t);
        let p = pow(t, (m - 1) as nat);
        assert(pow(t, m) == t * p) by { reveal(pow); }
        assert(r[0] == 0);
        assert(t * (c * p * eval(b, t)) == c * (t * p) * eval(b, t)) by (nonlinear_arith);
    } else if b.len() == 0 {
        lemma_eval_zeros(r, t);
        assert(eval(b, t) == 0);
        assert(c * pow(t, m) * 0 == 0) by (nonlinear_arith);
    } else {
        assert(r.drop_first() =~= shifted_row(c, b.drop_first(), 0, (len - 1) as nat));
        lemma_eval_shifted_row(c, b.drop_first(), 0, (len - 1) as nat, t);
        assert(pow(t, 0) == 1) by { reveal(pow); }
        let e = eval(b.drop_first(), t);
        assert(r[0] == c * b[0]);
        assert(c * b[0] + t * (c * 1 * e) == c * 1 * (b[0] + t * e)) by (nonlinear_arith);
    }
}

/// After the first `n` coefficients of `a`, the partial product evaluates to
/// `a[..n](t) * b(t)`.
pub proof fn lemma_eval_conv_partial(a: Seq<int>, b: Seq<int>, n: nat, len: nat, t: int)
    requires
        n <= a.len(),
        a.len() + b.len() <= len + 1,
    ensures
        eval(conv_partial(a, b, n, len), t) == eval(a.take(n as int), t) * eval(b, t),
    decreases n,
{
    if n == 0 {
        lemma_eval_zeros(conv_partial(a, b, n, len), t);
        assert(a.take(0) =~= Seq::<int>::empty());
    } else {
        let m = (n - 1) as nat;
        lemma_eval_conv_partial(a, b, m, len, t);
        if b.len() > 0 {
            lemma_eval_shifted_row(a[m as int], b, m, len, t);
        } else {
            lemma_eval_zeros(shifted_row(a[m as int], b, m, len), t);
            lemma_eval_zeros(b, t);
        }
        assert(conv_partial(a, b, n, len) =~= seq_add(
            conv_partial(a, b, m, len),
            shifted_row(a[m as int], b, m, len),
        ));
        lemma_eval_add(conv_partial(a, b, m, len), shifted_row(a[m as int], b, m, len), t);
        assert(a.take(n as int) =~= a.take(m as int).push(a[m as int]));
        lemma_eval_push(a.take(m as int), a[m as int], t);
        let ea = eval(a.take(m as int), t);
        let eb = eval(b, t);
        let x = a[m as int];
        let p = pow(t, m);
        assert(ea * eb + x * p * eb == (ea + x * p) * eb) by (nonlinear_arith);
    }
}

/// The coefficients `pol_mul(a, b)` are those of the product polynomial:
/// evaluating them gives `a(t) * b(t)` at every point `t`.
pub proof fn lemma_eval_pol_mul(a: Seq<int>, b: Seq<int>, t: int)
    requires
        a.len() > 0,
        b.len() > 0,
    ensures
        eval(pol_mul(a, b), t) == eval(a, t) * eval(b, t),
{
    let len = (a.len() + b.len() - 1) as nat;
    assert(pol_mul(a, b) =~= conv_partial(a, b, a.len(), len));
    lemma_eval_conv_partial(a, b, a.len(), len, t);
    assert(a.take(a.len() as int) =~= a);
}


/// Sum of `f(i)` over `0 <= i < n`.
pub open spec fn sum_to(f: spec_fn(int) -> int, n: nat) -> int
    decreases n,
{
    if n == 0 {
        0
    } else {
        sum_to(f, (n - 1) as nat) + f(n - 1)
    }
}

/// Coefficient `i` of `s`, and zero outside of `s`.
pub open spec fn coeff(s: Seq<int>, i: int) -> int {
    if 0 <= i < s.len() {
        s[i]
    } else {
        0
    }
}

/// Term `i` of coefficient `k` of `a * b`.
pub open spec fn conv_term(a: Seq<int>, b: Seq<int>, k: int, i: int) -> int {
    coeff(a, i) * coeff(b, k - i)
}

proof fn lemma_sum_ext(f: spec_fn(int) -> int, g: spec_fn(int) -> int, n: nat)
    requires
        forall|i: int| 0 <= i < n ==> #[trigger] f(i) == g(i),
    ensures
        sum_to(f, n) == sum_to(g, n),
    decreases n,
{
    if n > 0 {
        lemma_sum_ext(f, g, (n - 1) as nat);
    }
}

proof fn lemma_sum_zero_tail(f: spec_fn(int) -> int, m: nat, n: nat)
    requires
        m <= n,
        forall|i: int| m <= i < n ==> #[trigger] f(i) == 0,
    ensures
        sum_to(f, n) == sum_to(f, m),
    decreases n,
{
    if n > m {
        lemma_sum_zero_tail(f, m, (n - 1) as nat);
    }
}

proof fn lemma_sum_front(f: spec_fn(int) -> int, n: nat)
    requires
        n > 0,
    ensures
        sum_to(f, n) == f(0) + sum_to(|i: int| f(i + 1), (n - 1) as nat),
    decreases n,
{
    let h = |i: int| f(i + 1);
    if n > 1 {
        lemma_sum_front(f, (n - 1) as nat);
        assert(sum_to(h, (n - 1) as nat) == sum_to(h, (n - 2) as nat) + h(n - 2));
        assert(h(n - 2) == f(n - 1));
    } else {
        assert(sum_to(f, 1) == sum_to(f, 0) + f(0));
        assert(sum_to(h, 0) == 0);
    }
}

proof fn lemma_sum_reverse(f: spec_fn(int) -> int, n: nat)
    ensures
        sum_to(f, n) == sum_to(|i: int| f(n - 1 - i), n),
    decreases n,
{
    if n > 0 {
        let g = |i: int| f(n - 1 - i);
        lemma_sum_front(g, n);
        let h = |i: int| g(i + 1);
        lemma_sum_reverse(f, (n - 1) as nat);
        lemma_sum_ext(h, |i: int| f((n - 1) - 1 - i), (n - 1) as nat);
    }
}

proof fn lemma_conv_prefix_as_sum(a: Seq<int>, b: Seq<int>, k: int, n: nat)
    requires
        n <= a.len(),
    ensures
        conv_prefix(a, b, k, n) == sum_to(|i: int| conv_term(a, b, k, i), n),
    decreases n,
{
    if n > 0 {
        lemma_conv_prefix_as_sum(a, b, k, (n - 1) as nat);
    }
}

/// Coefficient `k` of `a * b` as the full sum of its terms `a[i] * b[k - i]`, `0 <= i <= k`.
proof fn lemma_conv_full(a: Seq<int>, b: Seq<int>, k: int)
    requires
        0 <= k,
    ensures
        conv_prefix(a, b, k, a.len()) == sum_to(|i: int| conv_term(a, b, k, i), (k + 1) as nat),
{
    let f = |i: int| conv_term(a, b, k, i);
    let big = (a.len() + k + 1) as nat;
    lemma_conv_prefix_as_sum(a, b, k, a.len());
    assert forall|i: int| a.len() <= i < big implies #[trigger] f(i) == 0 by {
        assert(coeff(a, i) == 0);
    }
    lemma_sum_zero_tail(f, a.len(), big);
    assert forall|i: int| k + 1 <= i < big implies #[trigger] f(i) == 0 by {
        assert(coeff(b, k - i) == 0);
    }
    lemma_sum_zero_tail(f, (k + 1) as nat, big);
}

/// The coefficients of a product do not depend on the order of the factors.
pub proof fn lemma_pol_mul_commutes(a: Seq<int>, b: Seq<int>)
    ensures
        pol_mul(a, b) == pol_mul(b, a),
{
    assert forall|k: int| 0 <= k < pol_mul(a, b).len() implies pol_mul(a, b)[k] == pol_mul(b, a)[k] by {
        let f = |i: int| conv_term(a, b, k, i);
        let g = |i: int| conv_term(b, a, k, i);
        let n = (k + 1) as nat;
        lemma_conv_full(a, b, k);
        lemma_conv_full(b, a, k);
        lemma_sum_reverse(f, n);
        assert forall|i: int| 0 <= i < n implies f(n - 1 - i) == #[trigger] g(i) by {
            assert(k - (n - 1 - i) == i);
            assert(coeff(a, k - i) * coeff(b, i) == coeff(b, i) * coeff(a, k - i)) by (nonlinear_arith);
        }
        lemma_sum_ext(|i: int| f(n - 1 - i), g, n);
    }
    assert(pol_mul(a, b) =~= pol_mul(b, a));
}

} // verus!
