//! Limb-polynomial arithmetic in `Fq2 = Fq[u] / (u^2 + 1)`: an element is a
//! pair `[c0, c1]` of limb polynomials standing for `c0 + c1 * u`.
use crate::constants::{BLS_N_LIMBS, BLS_WIDE_LIMBS};
use crate::modular::modular::{read_u256, write_u256, written_columns};
use crate::modular::pol_utils::{
    pol_add_normal, pol_add_wide, pol_mul_scalar, pol_mul_wide, pol_mul_wide_fits, pol_sub_normal,
    pol_sub_wide, seq_fits_i64,
};
use crate::modular::poly::{
    as_ints, eval, lemma_eval_add, lemma_eval_pad, lemma_eval_pol_mul, lemma_eval_scale,
    lemma_eval_sub, lemma_pol_mul_commutes, pol_mul, seq_add, seq_pad, seq_scale, seq_sub,
};
use vstd::prelude::*;

verus! {

/// Coefficients of the `c0` part of the product of `x` and `y`:
/// `x0 * y0 - x1 * y1`.
pub open spec fn fq2_mul_c0(x: [[i64; BLS_N_LIMBS]; 2], y: [[i64; BLS_N_LIMBS]; 2]) -> Seq<int> {
    seq_sub(pol_mul(as_ints(x[0]), as_ints(y[0])), pol_mul(as_ints(x[1]), as_ints(y[1])))
}

/// Coefficients of the `c1` part of the product of `x` and `y`:
/// `x0 * y1 + x1 * y0`.
pub open spec fn fq2_mul_c1(x: [[i64; BLS_N_LIMBS]; 2], y: [[i64; BLS_N_LIMBS]; 2]) -> Seq<int> {
    seq_add(pol_mul(as_ints(x[0]), as_ints(y[1])), pol_mul(as_ints(x[1]), as_ints(y[0])))
}

/// `pol_mul_fq2(x, y)` computes without overflow.
pub open spec fn pol_mul_fq2_fits(x: [[i64; BLS_N_LIMBS]; 2], y: [[i64; BLS_N_LIMBS]; 2]) -> bool {
    &&& pol_mul_wide_fits(as_ints(x[0]), as_ints(y[0]))
    &&& pol_mul_wide_fits(as_ints(x[1]), as_ints(y[1]))
    &&& pol_mul_wide_fits(as_ints(x[0]), as_ints(y[1]))
    &&& pol_mul_wide_fits(as_ints(x[1]), as_ints(y[0]))
    &&& seq_fits_i64(fq2_mul_c0(x, y))
    &&& seq_fits_i64(fq2_mul_c1(x, y))
}

/// Both components of `x` followed by `BLS_N_LIMBS - 1` zero coefficients.
pub fn to_wide_fq2(x: [[i64; BLS_N_LIMBS]; 2]) -> (z: [[i64; BLS_WIDE_LIMBS]; 2])
    ensures
        as_ints(z[0]) == seq_pad(as_ints(x[0]), (BLS_N_LIMBS - 1) as nat),
        as_ints(z[1]) == seq_pad(as_ints(x[1]), (BLS_N_LIMBS - 1) as nat),
{
    let mut z = [[0i64; BLS_WIDE_LIMBS]; 2];
    let mut i: usize = 0;
    while i < BLS_N_LIMBS
        invariant
            i <= BLS_N_LIMBS,
            forall|k: int| 0 <= k < i ==> z[0][k] == x[0][k] && z[1][k] == x[1][k],
            forall|k: int| i <= k < BLS_WIDE_LIMBS ==> z[0][k] == 0 && z[1][k] == 0,
        decreases BLS_N_LIMBS - i,
    {
        z[0][i] = x[0][i];
        z[1][i] = x[1][i];
        i = i + 1;
    }
    assert(as_ints(z[0]) =~= seq_pad(as_ints(x[0]), (BLS_N_LIMBS - 1) as nat));
    assert(as_ints(z[1]) =~= seq_pad(as_ints(x[1]), (BLS_N_LIMBS - 1) as nat));
    z
}

/// Product in `Fq2` of limb polynomials:
/// `(x0 + x1 u)(y0 + y1 u) = (x0 y0 - x1 y1) + (x0 y1 + x1 y0) u`.
pub fn pol_mul_fq2(x: [[i64; BLS_N_LIMBS]; 2], y: [[i64; BLS_N_LIMBS]; 2]) -> (z: [[i64; BLS_WIDE_LIMBS]; 2])
    requires
        pol_mul_fq2_fits(x, y),
    ensures
        as_ints(z[0]) == fq2_mul_c0(x, y),
        as_ints(z[1]) == fq2_mul_c1(x, y),
{
    let x_c0 = x[0];
    let x_c1 = x[1];
    let y_c0 = y[0];
    let y_c1 = y[1];

    let x_c0_y_c0 = pol_mul_wide(x_c0, y_c0);
    let x_c1_y_c1 = pol_mul_wide(x_c1, y_c1);
    let z_c0 = pol_sub_wide(x_c0_y_c0, x_c1_y_c1);

    let x_c0_y_c1 = pol_mul_wide(x_c0, y_c1);
    let x_c1_y_c0 = pol_mul_wide(x_c1, y_c0);
    let z_c1 = pol_add_wide(x_c0_y_c1, x_c1_y_c0);
    [z_c0, z_c1]
}

/// Component-wise difference in `Fq2`.
pub fn pol_sub_fq2<const N: usize>(x: [[i64; N]; 2], y: [[i64; N]; 2]) -> (z: [[i64; N]; 2])
    requires
        seq_fits_i64(seq_sub(as_ints(x[0]), as_ints(y[0]))),
        seq_fits_i64(seq_sub(as_ints(x[1]), as_ints(y[1]))),
    ensures
        as_ints(z[0]) == seq_sub(as_ints(x[0]), as_ints(y[0])),
        as_ints(z[1]) == seq_sub(as_ints(x[1]), as_ints(y[1])),
{
    let x_c0 = x[0];
    let x_c1 = x[1];
    let y_c0 = y[0];
    let y_c1 = y[1];

    let z_c0 = pol_sub_normal(x_c0, y_c0);
    let z_c1 = pol_sub_normal(x_c1, y_c1);
    [z_c0, z_c1]
}

/// Component-wise sum in `Fq2`.
pub fn pol_add_fq2<const N: usize>(x: [[i64; N]; 2], y: [[i64; N]; 2]) -> (z: [[i64; N]; 2])
    requires
        seq_fits_i64(seq_add(as_ints(x[0]), as_ints(y[0]))),
        seq_fits_i64(seq_add(as_ints(x[1]), as_ints(y[1]))),
    ensures
        as_ints(z[0]) == seq_add(as_ints(x[0]), as_ints(y[0])),
        as_ints(z[1]) == seq_add(as_ints(x[1]), as_ints(y[1])),
{
    let x_c0 = x[0];
    let x_c1 = x[1];
    let y_c0 = y[0];
    let y_c1 = y[1];

    let z_c0 = pol_add_normal(x_c0, y_c0);
    let z_c1 = pol_add_normal(x_c1, y_c1);
    [z_c0, z_c1]
}

/// Both components multiplied by the scalar `c`.
pub fn pol_mul_scalar_fq2<const N: usize>(x: [[i64; N]; 2], c: i64) -> (z: [[i64; N]; 2])
    requires
        seq_fits_i64(seq_scale(as_ints(x[0]), c as int)),
        seq_fits_i64(seq_scale(as_ints(x[1]), c as int)),
    ensures
        as_ints(z[0]) == seq_scale(as_ints(x[0]), c as int),
        as_ints(z[1]) == seq_scale(as_ints(x[1]), c as int),
{
    let x_c0 = x[0];
    let x_c1 = x[1];

    let z_c0 = pol_mul_scalar(x_c0, c);
    let z_c1 = pol_mul_scalar(x_c1, c);
    [z_c0, z_c1]
}

/// The row `lv` after `input` was written over the `2 * BLS_N_LIMBS` columns
/// starting at `col`, `c0` first.
pub open spec fn written_fq2<F>(lv: Seq<F>, input: [[F; BLS_N_LIMBS]; 2], col: int) -> Seq<F> {
    written_columns(written_columns(lv, input[0]@, col), input[1]@, col + BLS_N_LIMBS)
}

/// The `Fq2` value stored in the `2 * BLS_N_LIMBS` columns of `lv` starting at `col`.
pub open spec fn read_fq2_spec<F>(lv: Seq<F>, col: int) -> (Seq<F>, Seq<F>) {
    (lv.subrange(col, col + BLS_N_LIMBS), lv.subrange(col + BLS_N_LIMBS, col + 2 * BLS_N_LIMBS))
}

/// Writes `input` into 2*BLS_N_LIMBS columns of `lv` starting at `*cur_col`,
/// and moves the cursor past them.
pub fn write_fq2<F: Copy>(lv: &mut [F], input: [[F; BLS_N_LIMBS]; 2], cur_col: &mut usize)
    requires
        *old(cur_col) + 2 * BLS_N_LIMBS <= old(lv)@.len(),
    ensures
        final(lv)@ == written_fq2(old(lv)@, input, *old(cur_col) as int),
        *final(cur_col) == *old(cur_col) + 2 * BLS_N_LIMBS,
{
    write_u256(lv, &input[0], cur_col);
    write_u256(lv, &input[1], cur_col);
}

/// Reads 2*BLS_N_LIMBS columns of `lv` starting at `*cur_col` as an `Fq2`
/// value, and moves the cursor past them.
pub fn read_fq2<F: Copy + core::fmt::Debug>(lv: &[F], cur_col: &mut usize) -> (r: [[F; BLS_N_LIMBS]; 2])
    requires
        *old(cur_col) + 2 * BLS_N_LIMBS <= lv@.len(),
    ensures
        (r[0]@, r[1]@) == read_fq2_spec(lv@, *old(cur_col) as int),
        *final(cur_col) == *old(cur_col) + 2 * BLS_N_LIMBS,
{
    let c0 = read_u256(lv, cur_col);
    let c1 = read_u256(lv, cur_col);
    [c0, c1]
}

/// Value of the limb polynomial `c` at the point `t`.
pub open spec fn limbs_value<const N: usize>(c: [i64; N], t: int) -> int {
    eval(as_ints(c), t)
}

/// The central law of `pol_mul_fq2`: at every point `t` (in particular at the
/// limb base `2^BLS_LIMB_BITS`) its two output polynomials evaluate to the
/// `Fq2` product of the values of the inputs, with `u^2 = -1`.
pub proof fn lemma_pol_mul_fq2_eval(x: [[i64; BLS_N_LIMBS]; 2], y: [[i64; BLS_N_LIMBS]; 2], t: int)
    ensures
        eval(fq2_mul_c0(x, y), t) == limbs_value(x[0], t) * limbs_value(y[0], t)
            - limbs_value(x[1], t) * limbs_value(y[1], t),
        eval(fq2_mul_c1(x, y), t) == limbs_value(x[0], t) * limbs_value(y[1], t)
            + limbs_value(x[1], t) * limbs_value(y[0], t),
{
    let x0 = as_ints(x[0]);
    let x1 = as_ints(x[1]);
    let y0 = as_ints(y[0]);
    let y1 = as_ints(y[1]);
    lemma_eval_pol_mul(x0, y0, t);
    lemma_eval_pol_mul(x1, y1, t);
    lemma_eval_pol_mul(x0, y1, t);
    lemma_eval_pol_mul(x1, y0, t);
    lemma_eval_sub(pol_mul(x0, y0), pol_mul(x1, y1), t);
    lemma_eval_add(pol_mul(x0, y1), pol_mul(x1, y0), t);
}

/// `pol_add_fq2` and `pol_sub_fq2` evaluate component-wise to the sum and the
/// difference of the values.
pub proof fn lemma_pol_add_sub_fq2_eval<const N: usize>(x: [[i64; N]; 2], y: [[i64; N]; 2], t: int)
    ensures
        eval(seq_add(as_ints(x[0]), as_ints(y[0])), t) == limbs_value(x[0], t) + limbs_value(y[0], t),
        eval(seq_add(as_ints(x[1]), as_ints(y[1])), t) == limbs_value(x[1], t) + limbs_value(y[1], t),
        eval(seq_sub(as_ints(x[0]), as_ints(y[0])), t) == limbs_value(x[0], t) - limbs_value(y[0], t),
        eval(seq_sub(as_ints(x[1]), as_ints(y[1])), t) == limbs_value(x[1], t) - limbs_value(y[1], t),
{
    lemma_eval_add(as_ints(x[0]), as_ints(y[0]), t);
    lemma_eval_add(as_ints(x[1]), as_ints(y[1]), t);
    lemma_eval_sub(as_ints(x[0]), as_ints(y[0]), t);
    lemma_eval_sub(as_ints(x[1]), as_ints(y[1]), t);
}

/// Subtracting `y` undoes adding `y`: `pol_sub_fq2(pol_add_fq2(x, y), y) == x`.
pub proof fn lemma_pol_sub_fq2_undoes_add<const N: usize>(x: [[i64; N]; 2], y: [[i64; N]; 2])
    ensures
        seq_sub(seq_add(as_ints(x[0]), as_ints(y[0])), as_ints(y[0])) == as_ints(x[0]),
        seq_sub(seq_add(as_ints(x[1]), as_ints(y[1])), as_ints(y[1])) == as_ints(x[1]),
{
    assert(seq_sub(seq_add(as_ints(x[0]), as_ints(y[0])), as_ints(y[0])) =~= as_ints(x[0]));
    assert(seq_sub(seq_add(as_ints(x[1]), as_ints(y[1])), as_ints(y[1])) =~= as_ints(x[1]));
}

/// `to_wide_fq2` keeps the value of both components.
pub proof fn lemma_to_wide_fq2_eval(x: [[i64; BLS_N_LIMBS]; 2], t: int)
    ensures
        eval(seq_pad(as_ints(x[0]), (BLS_N_LIMBS - 1) as nat), t) == limbs_value(x[0], t),
        eval(seq_pad(as_ints(x[1]), (BLS_N_LIMBS - 1) as nat), t) == limbs_value(x[1], t),
{
    lemma_eval_pad(as_ints(x[0]), (BLS_N_LIMBS - 1) as nat, t);
    lemma_eval_pad(as_ints(x[1]), (BLS_N_LIMBS - 1) as nat, t);
}

/// `pol_mul_scalar_fq2` multiplies the value of both components by the scalar.
pub proof fn lemma_pol_mul_scalar_fq2_eval<const N: usize>(x: [[i64; N]; 2], c: i64, t: int)
    ensures
        eval(seq_scale(as_ints(x[0]), c as int), t) == limbs_value(x[0], t) * c,
        eval(seq_scale(as_ints(x[1]), c as int), t) == limbs_value(x[1], t) * c,
{
    lemma_eval_scale(as_ints(x[0]), c as int, t);
    lemma_eval_scale(as_ints(x[1]), c as int, t);
}

/// Reading back what `write_fq2` wrote at the same column gives the written
/// value, and every other column keeps its value.
pub proof fn lemma_read_fq2_after_write<F>(lv: Seq<F>, input: [[F; BLS_N_LIMBS]; 2], col: int)
    requires
        0 <= col,
        col + 2 * BLS_N_LIMBS <= lv.len(),
    ensures
        written_fq2(lv, input, col).len() == lv.len(),
        read_fq2_spec(written_fq2(lv, input, col), col) == (input[0]@, input[1]@),
        forall|i: int|
            0 <= i < lv.len() && !(col <= i < col + 2 * BLS_N_LIMBS) ==> #[trigger] written_fq2(
                lv,
                input,
                col,
            )[i] == lv[i],
{
    let w = written_fq2(lv, input, col);
    assert(w.subrange(col, col + BLS_N_LIMBS) =~= input[0]@);
    assert(w.subrange(col + BLS_N_LIMBS, col + 2 * BLS_N_LIMBS) =~= input[1]@);
}


/// `pol_mul_fq2` is commutative, coefficient by coefficient:
/// `pol_mul_fq2(x, y) == pol_mul_fq2(y, x)`.
pub proof fn lemma_pol_mul_fq2_commutes(x: [[i64; BLS_N_LIMBS]; 2], y: [[i64; BLS_N_LIMBS]; 2])
    ensures
        fq2_mul_c0(x, y) == fq2_mul_c0(y, x),
        fq2_mul_c1(x, y) == fq2_mul_c1(y, x),
{
    let x0 = as_ints(x[0]);
    let x1 = as_ints(x[1]);
    let y0 = as_ints(y[0]);
    let y1 = as_ints(y[1]);
    lemma_pol_mul_commutes(x0, y0);
    lemma_pol_mul_commutes(x1, y1);
    lemma_pol_mul_commutes(x0, y1);
    lemma_pol_mul_commutes(x1, y0);
    assert(fq2_mul_c1(x, y) =~= fq2_mul_c1(y, x));
}

} // verus!
