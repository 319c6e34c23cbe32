//! Arithmetic on polynomials given by arrays of `i64` limbs
//! (coefficient `i` is the limb of weight `2^(i * limb bits)`).
use crate::constants::{BLS_N_LIMBS, BLS_WIDE_LIMBS};
use crate::modular::poly::{as_ints, conv_prefix, pol_mul, seq_add, seq_scale, seq_sub};
use vstd::prelude::*;

verus! {

/// `v` is representable as an `i64`.
pub open spec fn fits_i64(v: int) -> bool {
    i64::MIN <= v <= i64::MAX
}

/// Every coefficient of `s` is representable as an `i64`.
pub open spec fn seq_fits_i64(s: Seq<int>) -> bool {
    forall|i: int| 0 <= i < s.len() ==> fits_i64(#[trigger] s[i])
}

/// `pol_mul_wide(a, b)` computes without overflow: every product of two
/// limbs and every partial sum of each output coefficient, in the order of
/// accumulation, is representable as an `i64`.
pub open spec fn pol_mul_wide_fits(a: Seq<int>, b: Seq<int>) -> bool {
    &&& forall|i: int, j: int|
        0 <= i < a.len() && 0 <= j < b.len() ==> fits_i64(#[trigger] (a[i] * b[j]))
    &&& forall|k: int, n: nat|
        0 <= k < a.len() + b.len() - 1 && n <= a.len() ==> fits_i64(
            #[trigger] conv_prefix(a, b, k, n),
        )
}

/// Coefficient-wise sum.
pub fn pol_add_normal<const N: usize>(a: [i64; N], b: [i64; N]) -> (c: [i64; N])
    requires
        seq_fits_i64(seq_add(as_ints(a), as_ints(b))),
    ensures
        as_ints(c) == seq_add(as_ints(a), as_ints(b)),
{
    let mut c = a;
    let mut i: usize = 0;
    while i < N
        invariant
            i <= N,
            seq_fits_i64(seq_add(as_ints(a), as_ints(b))),
            forall|k: int| 0 <= k < i ==> c[k] == a[k] + b[k],
        decreases N - i,
    {
        assert(fits_i64(seq_add(as_ints(a), as_ints(b))[i as int]));
        c[i] = a[i] + b[i];
        i = i + 1;
    }
    assert(as_ints(c) =~= seq_add(as_ints(a), as_ints(b)));
    c
}

/// Coefficient-wise difference.
pub fn pol_sub_normal<const N: usize>(a: [i64; N], b: [i64; N]) -> (c: [i64; N])
    requires
        seq_fits_i64(seq_sub(as_ints(a), as_ints(b))),
    ensures
        as_ints(c) == seq_sub(as_ints(a), as_ints(b)),
{
    let mut c = a;
    let mut i: usize = 0;
    while i < N
        invariant
            i <= N,
            seq_fits_i64(seq_sub(as_ints(a), as_ints(b))),
            forall|k: int| 0 <= k < i ==> c[k] == a[k] - b[k],
        decreases N - i,
    {
        assert(fits_i64(seq_sub(as_ints(a), as_ints(b))[i as int]));
        c[i] = a[i] - b[i];
        i = i + 1;
    }
    assert(as_ints(c) =~= seq_sub(as_ints(a), as_ints(b)));
    c
}

/// Coefficient-wise sum of two products.
pub fn pol_add_wide(a: [i64; BLS_WIDE_LIMBS], b: [i64; BLS_WIDE_LIMBS]) -> (c: [i64; BLS_WIDE_LIMBS])
    requires
        seq_fits_i64(seq_add(as_ints(a), as_ints(b))),
    ensures
        as_ints(c) == seq_add(as_ints(a), as_ints(b)),
{
    pol_add_normal(a, b)
}

/// Coefficient-wise difference of two products.
pub fn pol_sub_wide(a: [i64; BLS_WIDE_LIMBS], b: [i64; BLS_WIDE_LIMBS]) -> (c: [i64; BLS_WIDE_LIMBS])
    requires
        seq_fits_i64(seq_sub(as_ints(a), as_ints(b))),
    ensures
        as_ints(c) == seq_sub(as_ints(a), as_ints(b)),
{
    pol_sub_normal(a, b)
}

/// Every coefficient multiplied by the scalar `c`.
pub fn pol_mul_scalar<const N: usize>(a: [i64; N], c: i64) -> (r: [i64; N])
    requires
        seq_fits_i64(seq_scale(as_ints(a), c as int)),
    ensures
        as_ints(r) == seq_scale(as_ints(a), c as int),
{
    let mut r = a;
    let mut i: usize = 0;
    while i < N
        invariant
            i <= N,
            seq_fits_i64(seq_scale(as_ints(a), c as int)),
            forall|k: int| 0 <= k < i ==> r[k] == a[k] * c,
        decreases N - i,
    {
        assert(fits_i64(seq_scale(as_ints(a), c as int)[i as int]));
        r[i] = a[i] * c;
        i = i + 1;
    }
    assert(as_ints(r) =~= seq_scale(as_ints(a), c as int));
    r
}

/// Product of two limb polynomials, of `2 * BLS_N_LIMBS - 1` coefficients.
pub fn pol_mul_wide(a: [i64; BLS_N_LIMBS], b: [i64; BLS_N_LIMBS]) -> (c: [i64; BLS_WIDE_LIMBS])
    requires
        pol_mul_wide_fits(as_ints(a), as_ints(b)),
    ensures
        as_ints(c) == pol_mul(as_ints(a), as_ints(b)),
{
    let ghost sa = as_ints(a);
    let ghost sb = as_ints(b);
    let mut c = [0i64; BLS_WIDE_LIMBS];
    let mut i: usize = 0;
    while i < BLS_N_LIMBS
        invariant
            i <= BLS_N_LIMBS,
            sa == as_ints(a),
            sb == as_ints(b),
            pol_mul_wide_fits(sa, sb),
            forall|k: int| 0 <= k < BLS_WIDE_LIMBS ==> c[k] == conv_prefix(sa, sb, k, i as nat),
        decreases BLS_N_LIMBS - i,
    {
        let mut j: usize = 0;
        while j < BLS_N_LIMBS
            invariant
                i < BLS_N_LIMBS,
                j <= BLS_N_LIMBS,
                sa == as_ints(a),
                sb == as_ints(b),
                pol_mul_wide_fits(sa, sb),
                forall|k: int|
                    0 <= k < BLS_WIDE_LIMBS ==> c[k] == (if i <= k < i + j {
                        conv_prefix(sa, sb, k, (i + 1) as nat)
                    } else {
                        conv_prefix(sa, sb, k, i as nat)
                    }),
            decreases BLS_N_LIMBS - j,
        {
            let k = i + j;
            assert(fits_i64(sa[i as int] * sb[j as int]));
            assert(fits_i64(conv_prefix(sa, sb, k as int, (i + 1) as nat)));
            let p = a[i] * b[j];
            c[k] = c[k] + p;
            j = j + 1;
        }
        assert forall|k: int| 0 <= k < BLS_WIDE_LIMBS implies c[k] == conv_prefix(
            sa,
            sb,
            k,
            (i + 1) as nat,
        ) by {
            if !(i <= k < i + BLS_N_LIMBS) {
                assert(conv_prefix(sa, sb, k, (i + 1) as nat) == conv_prefix(sa, sb, k, i as nat));
            }
        }
        i = i + 1;
    }
    assert(as_ints(c) =~= pol_mul(sa, sb));
    c
}

} // verus!
