use starky_bls12_381::constants::BLS_N_LIMBS;
use starky_bls12_381::fields::fq2::{read_fq2, write_fq2};
use starky_bls12_381::modular::modular::{read_u256, write_u256, N_LIMBS};

#[test]
fn write_u256_then_read_u256() {
    let mut lv = vec![0u32; 40];
    let input: [u32; N_LIMBS] = core::array::from_fn(|i| 100 + i as u32);
    let mut col = 3usize;
    write_u256(&mut lv, &input, &mut col);
    assert_eq!(col, 3 + N_LIMBS);
    assert_eq!(&lv[3..3 + N_LIMBS], &input[..]);
    assert!(lv[..3].iter().all(|&v| v == 0));
    assert!(lv[3 + N_LIMBS..].iter().all(|&v| v == 0));
    let mut col = 3usize;
    assert_eq!(read_u256(&lv, &mut col), input);
    assert_eq!(col, 3 + N_LIMBS);
}

#[test]
fn read_fq2_gives_back_what_write_fq2_wrote() {
    let mut lv = vec![7i64; 2 * BLS_N_LIMBS + 5];
    let input: [[i64; BLS_N_LIMBS]; 2] = [
        core::array::from_fn(|i| i as i64),
        core::array::from_fn(|i| -(i as i64) - 1),
    ];
    let mut col = 2usize;
    write_fq2(&mut lv, input, &mut col);
    assert_eq!(col, 2 + 2 * BLS_N_LIMBS);
    assert_eq!(&lv[..2], &[7, 7]);
    assert_eq!(&lv[2 + 2 * BLS_N_LIMBS..], &[7, 7, 7]);
    let mut col = 2usize;
    assert_eq!(read_fq2(&lv, &mut col), input);
    assert_eq!(col, 2 + 2 * BLS_N_LIMBS);
}

#[test]
fn read_fq2_reads_consecutive_columns() {
    let lv: Vec<u64> = (0..(2 * BLS_N_LIMBS as u64)).collect();
    let mut col = 0usize;
    let r = read_fq2(&lv, &mut col);
    assert_eq!(r[0][0], 0);
    assert_eq!(r[0][15], 15);
    assert_eq!(r[1][0], 16);
    assert_eq!(r[1][15], 31);
    assert_eq!(col, 32);
}
