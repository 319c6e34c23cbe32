use starky_bls12_381::constants::{
    ExpStarkConstants, BLS_LIMB_BITS, BLS_N_LIMBS, BLS_WIDE_LIMBS, LIMB_BITS,
};
use starky_bls12_381::fields::fq2::{
    pol_add_fq2, pol_mul_fq2, pol_mul_scalar_fq2, pol_sub_fq2, to_wide_fq2,
};
use starky_bls12_381::modular::pol_utils::{
    pol_add_normal, pol_add_wide, pol_mul_scalar, pol_mul_wide, pol_sub_normal, pol_sub_wide,
};

type Fq2Limbs = [[i64; BLS_N_LIMBS]; 2];

fn limbs(vals: &[i64]) -> [i64; BLS_N_LIMBS] {
    let mut a = [0i64; BLS_N_LIMBS];
    a[..vals.len()].copy_from_slice(vals);
    a
}

fn eval(c: &[i64], t: i128) -> i128 {
    c.iter().rev().fold(0i128, |acc, &v| acc * t + v as i128)
}

/// Small pseudo-random limbs in `-bound..bound`.
fn sample(seed: &mut u64, bound: i64) -> [i64; BLS_N_LIMBS] {
    let mut a = [0i64; BLS_N_LIMBS];
    for v in a.iter_mut() {
        *seed = seed.wrapping_mul(6364136223846793005).wrapping_add(1442695040888963407);
        *v = ((*seed >> 33) as i64) % bound;
    }
    a
}

#[test]
fn constants_have_their_values() {
    assert_eq!(LIMB_BITS, 16);
    assert_eq!(BLS_N_LIMBS, 16);
    assert_eq!(BLS_LIMB_BITS, 24);
    assert_eq!(BLS_WIDE_LIMBS, 31);
}

#[test]
fn pol_mul_wide_multiplies_polynomials() {
    // (1 + 2X)(3 + 4X) = 3 + 10X + 8X^2
    let c = pol_mul_wide(limbs(&[1, 2]), limbs(&[3, 4]));
    let mut expected = [0i64; BLS_WIDE_LIMBS];
    expected[0] = 3;
    expected[1] = 10;
    expected[2] = 8;
    assert_eq!(c, expected);
}

#[test]
fn pol_mul_wide_top_coefficient() {
    let mut a = [0i64; BLS_N_LIMBS];
    let mut b = [0i64; BLS_N_LIMBS];
    a[15] = -7;
    b[15] = 9;
    a[0] = 1;
    let c = pol_mul_wide(a, b);
    assert_eq!(c[30], -63);
    assert_eq!(c[15], 9);
    assert_eq!(c.iter().filter(|&&v| v != 0).count(), 2);
}

#[test]
fn pol_add_sub_scalar_normal() {
    let a = limbs(&[5, -3, 7]);
    let b = limbs(&[1, 4, -9]);
    assert_eq!(pol_add_normal(a, b), limbs(&[6, 1, -2]));
    assert_eq!(pol_sub_normal(a, b), limbs(&[4, -7, 16]));
    assert_eq!(pol_mul_scalar(a, -2), limbs(&[-10, 6, -14]));
    let mut w = [0i64; BLS_WIDE_LIMBS];
    w[30] = 11;
    let mut v = [0i64; BLS_WIDE_LIMBS];
    v[30] = 4;
    v[0] = -1;
    let s = pol_add_wide(w, v);
    assert_eq!((s[0], s[30]), (-1, 15));
    let d = pol_sub_wide(w, v);
    assert_eq!((d[0], d[30]), (1, 7));
}

#[test]
fn pol_mul_fq2_is_complex_multiplication() {
    // (1 + 2u)(3 + 4u) = (3 - 8) + (4 + 6)u with u^2 = -1
    let x: Fq2Limbs = [limbs(&[1]), limbs(&[2])];
    let y: Fq2Limbs = [limbs(&[3]), limbs(&[4])];
    let z = pol_mul_fq2(x, y);
    assert_eq!(z[0][0], -5);
    assert_eq!(z[1][0], 10);
    assert!(z[0][1..].iter().all(|&v| v == 0));
    assert!(z[1][1..].iter().all(|&v| v == 0));
}

#[test]
fn pol_mul_fq2_evaluates_to_fq2_product() {
    let mut seed = 7u64;
    for _ in 0..20 {
        let x: Fq2Limbs = [sample(&mut seed, 1 << 20), sample(&mut seed, 1 << 20)];
        let y: Fq2Limbs = [sample(&mut seed, 1 << 20), sample(&mut seed, 1 << 20)];
        let z = pol_mul_fq2(x, y);
        for t in [-2i128, 1, 2, 3] {
            let (x0, x1) = (eval(&x[0], t), eval(&x[1], t));
            let (y0, y1) = (eval(&y[0], t), eval(&y[1], t));
            assert_eq!(eval(&z[0], t), x0 * y0 - x1 * y1);
            assert_eq!(eval(&z[1], t), x0 * y1 + x1 * y0);
        }
    }
}

#[test]
fn pol_mul_fq2_commutes() {
    let mut seed = 99u64;
    for _ in 0..20 {
        let x: Fq2Limbs = [sample(&mut seed, 1 << 24), sample(&mut seed, 1 << 24)];
        let y: Fq2Limbs = [sample(&mut seed, 1 << 24), sample(&mut seed, 1 << 24)];
        assert_eq!(pol_mul_fq2(x, y), pol_mul_fq2(y, x));
    }
}

#[test]
fn pol_sub_fq2_undoes_pol_add_fq2() {
    let mut seed = 3u64;
    let x: Fq2Limbs = [sample(&mut seed, 1 << 30), sample(&mut seed, 1 << 30)];
    let y: Fq2Limbs = [sample(&mut seed, 1 << 30), sample(&mut seed, 1 << 30)];
    assert_eq!(pol_sub_fq2(pol_add_fq2(x, y), y), x);
    let s = pol_add_fq2(x, y);
    for k in 0..2 {
        for i in 0..BLS_N_LIMBS {
            assert_eq!(s[k][i], x[k][i] + y[k][i]);
        }
    }
}

#[test]
fn pol_add_fq2_on_wide_values() {
    let x = to_wide_fq2([limbs(&[1, 2]), limbs(&[3])]);
    let y = to_wide_fq2([limbs(&[10]), limbs(&[0, 20])]);
    let z = pol_add_fq2(x, y);
    assert_eq!(&z[0][..3], &[11, 2, 0]);
    assert_eq!(&z[1][..3], &[3, 20, 0]);
}

#[test]
fn to_wide_fq2_pads_with_zeros() {
    let x: Fq2Limbs = [limbs(&[1, 2, 3]), limbs(&[4, 5, 6])];
    let z = to_wide_fq2(x);
    assert_eq!(&z[0][..BLS_N_LIMBS], &x[0][..]);
    assert_eq!(&z[1][..BLS_N_LIMBS], &x[1][..]);
    assert!(z[0][BLS_N_LIMBS..].iter().all(|&v| v == 0));
    assert!(z[1][BLS_N_LIMBS..].iter().all(|&v| v == 0));
    assert_eq!(eval(&z[0], 1 << 24), eval(&x[0], 1 << 24));
}

#[test]
fn pol_mul_scalar_fq2_scales_both_components() {
    let x: Fq2Limbs = [limbs(&[1, -2]), limbs(&[0, 0, 3])];
    let z = pol_mul_scalar_fq2(x, 5);
    assert_eq!(z, [limbs(&[5, -10]), limbs(&[0, 0, 15])]);
    assert_eq!(eval(&z[1], 7), 5 * eval(&x[1], 7));
}

#[test]
fn exp_stark_constants_hold_a_layout() {
    let c = ExpStarkConstants {
        num_columns: 100,
        num_public_inputs: 8,
        num_main_cols: 60,
        num_io: 4,
        start_flags_col: 60,
        start_periodic_pulse_col: 70,
        start_io_pulses_col: 72,
        start_lookups_col: 76,
        start_range_check_col: 80,
        end_range_check_col: 96,
        num_range_check_cols: 16,
    };
    assert_eq!(c.end_range_check_col - c.start_range_check_col, c.num_range_check_cols);
    assert_eq!(c.num_columns, 100);
    assert_eq!((c.num_public_inputs, c.num_main_cols, c.num_io), (8, 60, 4));
    assert_eq!((c.start_flags_col, c.start_periodic_pulse_col), (60, 70));
    assert_eq!((c.start_io_pulses_col, c.start_lookups_col), (72, 76));
}
