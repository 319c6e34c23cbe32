//! Reading and writing 256-bit values, as `N_LIMBS` consecutive columns of a
//! trace row, at a moving column cursor.
use vstd::prelude::*;

verus! {

/// Number of 16-bit limbs of a 256-bit value.
pub const N_LIMBS: usize = 16;

/// The row `lv` after `values` was written over the columns starting at `col`.
pub open spec fn written_columns<F>(lv: Seq<F>, values: Seq<F>, col: int) -> Seq<F> {
    lv.take(col) + values + lv.skip(col + values.len())
}

/// Writes `input` into the `N_LIMBS` columns of `lv` that start at `*cur_col`
/// and moves the cursor past them.
pub fn write_u256<F: Copy>(lv: &mut [F], input: &[F; N_LIMBS], cur_col: &mut usize)
    requires
        *old(cur_col) + N_LIMBS <= old(lv)@.len(),
    ensures
        final(lv)@ == written_columns(old(lv)@, input@, *old(cur_col) as int),
        *final(cur_col) == *old(cur_col) + N_LIMBS,
{
    let start = *cur_col;
    let len = lv.len();
    let ghost before = lv@;
    let mut i: usize = 0;
    while i < N_LIMBS
        invariant
            i <= N_LIMBS,
            start + N_LIMBS <= len,
            len == before.len(),
            len == lv@.len(),
            lv@ == written_columns(before, input@.take(i as int), start as int),
        decreases N_LIMBS - i,
    {
        lv[start + i] = input[i];
        i = i + 1;
        assert(lv@ =~= written_columns(before, input@.take(i as int), start as int));
    }
    assert(input@.take(N_LIMBS as int) =~= input@);
    *cur_col = start + N_LIMBS;
}

/// Reads the `N_LIMBS` columns of `lv` that start at `*cur_col` and moves the
/// cursor past them.
pub fn read_u256<F: Copy>(lv: &[F], cur_col: &mut usize) -> (r: [F; N_LIMBS])
    requires
        *old(cur_col) + N_LIMBS <= lv@.len(),
    ensures
        r@ == lv@.subrange(*old(cur_col) as int, *old(cur_col) + N_LIMBS),
        *final(cur_col) == *old(cur_col) + N_LIMBS,
{
    let start = *cur_col;
    let len = lv.len();
    let mut r = [lv[start]; N_LIMBS];
    let mut i: usize = 0;
    while i < N_LIMBS
        invariant
            i <= N_LIMBS,
            start + N_LIMBS <= len,
            len == lv@.len(),
            forall|k: int| 0 <= k < i ==> r@[k] == lv@[start + k],
        decreases N_LIMBS - i,
    {
        r[i] = lv[start + i];
        i = i + 1;
    }
    assert(r@ =~= lv@.subrange(start as int, start + N_LIMBS));
    *cur_col = start + N_LIMBS;
    r
}

/// Reading back the columns just written gives the written value.
pub proof fn lemma_read_written_columns<F>(lv: Seq<F>, values: Seq<F>, col: int)
    requires
        0 <= col,
        col + values.len() <= lv.len(),
    ensures
        written_columns(lv, values, col).len() == lv.len(),
        written_columns(lv, values, col).subrange(col, col + values.len()) == values,
        forall|i: int|
            0 <= i < lv.len() && !(col <= i < col + values.len()) ==> #[trigger] written_columns(
                lv,
                values,
                col,
            )[i] == lv[i],
{
    assert(written_columns(lv, values, col).subrange(col, col + values.len()) =~= values);
}

} // verus!
