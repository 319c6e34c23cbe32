use ark_bls12_381::{Fq, Fq12};
use ark_ff::{BigInt, Field, PrimeField, UniformRand};
use starky_bls12_381::fields::fq12_u64::circuit::{
    fq12_exp_u64_num_io, fq12_exp_u64_pad_inputs, is_canonical_fq, is_canonical_fq12,
    Fq12ExpU64Input, FQ12_EXP_U64_INPUT_LEN, FQ_MODULUS_LIMBS,
};

fn to_limbs(x: &Fq12) -> [[u64; 6]; 12] {
    let v: Vec<[u64; 6]> = x.to_base_prime_field_elements().map(|c| c.into_bigint().0).collect();
    v.try_into().unwrap()
}

fn from_limbs(c: &[[u64; 6]; 12]) -> Fq12 {
    let elems: Vec<Fq> = c.iter().map(|l| Fq::from_bigint(BigInt::new(*l)).unwrap()).collect();
    Fq12::from_base_prime_field_elems(&elems).unwrap()
}

#[test]
fn input_len_constant() {
    assert_eq!(FQ12_EXP_U64_INPUT_LEN, 289);
}

#[test]
fn modulus_limbs_are_arkworks_modulus() {
    assert_eq!(FQ_MODULUS_LIMBS, Fq::MODULUS.0);
}

#[test]
fn canonical_checks() {
    assert!(is_canonical_fq(&[0; 6]));
    assert!(!is_canonical_fq(&FQ_MODULUS_LIMBS));
    let mut below = FQ_MODULUS_LIMBS;
    below[0] -= 1;
    assert!(is_canonical_fq(&below));
    let mut above = FQ_MODULUS_LIMBS;
    above[2] += 1;
    assert!(!is_canonical_fq(&above));
    let mut high = [0u64; 6];
    high[5] = u64::MAX;
    assert!(!is_canonical_fq(&high));
    let mut c = [[0u64; 6]; 12];
    assert!(is_canonical_fq12(&c));
    c[11] = FQ_MODULUS_LIMBS;
    assert!(!is_canonical_fq12(&c));
}

#[test]
fn output_is_offset_times_power() {
    let mut rng = ark_std::test_rng();
    for exp_val in [0u64, 1, 2, 5, 0xffff_ffff_0000_0000] {
        let x = Fq12::rand(&mut rng);
        let offset = Fq12::rand(&mut rng);
        let input = Fq12ExpU64Input { x: to_limbs(&x), offset: to_limbs(&offset), exp_val };
        assert!(input.is_valid());
        let out = input.output();
        assert_eq!(from_limbs(&out), offset * x.pow([exp_val]));
        assert_eq!(input.checked_output(), Some(out));
    }
}

#[test]
fn output_with_zero_exponent_is_offset() {
    let mut rng = ark_std::test_rng();
    let x = Fq12::rand(&mut rng);
    let offset = Fq12::rand(&mut rng);
    let input = Fq12ExpU64Input { x: to_limbs(&x), offset: to_limbs(&offset), exp_val: 0 };
    assert_eq!(input.output(), to_limbs(&offset));
}

#[test]
fn output_square_with_unit_offset() {
    let mut rng = ark_std::test_rng();
    let x = Fq12::rand(&mut rng);
    let input = Fq12ExpU64Input { x: to_limbs(&x), offset: to_limbs(&Fq12::ONE), exp_val: 2 };
    let out = input.output();
    assert_ne!(out, input.x);
    assert_ne!(out, input.offset);
    assert_eq!(out, to_limbs(&(x * x)));
}

#[test]
fn checked_output_refuses_non_canonical() {
    let mut x = [[0u64; 6]; 12];
    x[3] = FQ_MODULUS_LIMBS;
    let input = Fq12ExpU64Input { x, offset: to_limbs(&Fq12::ONE), exp_val: 3 };
    assert!(!input.is_valid());
    assert_eq!(input.checked_output(), None);
}

#[test]
fn chained_outputs_multiply_powers() {
    // offset of each exponentiation is the output of the previous one
    let mut rng = ark_std::test_rng();
    let mut offset = to_limbs(&Fq12::ONE);
    let mut expected = Fq12::ONE;
    for exp_val in [3u64, 17, 0, 1 << 40] {
        let x = Fq12::rand(&mut rng);
        let out = Fq12ExpU64Input { x: to_limbs(&x), offset, exp_val }.output();
        expected *= x.pow([exp_val]);
        offset = out;
    }
    assert_eq!(from_limbs(&offset), expected);
}

#[test]
fn num_io_is_least_power_of_two() {
    assert_eq!(fq12_exp_u64_num_io(1), (1, 0));
    assert_eq!(fq12_exp_u64_num_io(2), (2, 1));
    assert_eq!(fq12_exp_u64_num_io(3), (4, 2));
    assert_eq!(fq12_exp_u64_num_io(4), (4, 2));
    assert_eq!(fq12_exp_u64_num_io(5), (8, 3));
    assert_eq!(fq12_exp_u64_num_io(1000), (1024, 10));
    for n in 1..300usize {
        assert_eq!(fq12_exp_u64_num_io(n).0, n.next_power_of_two());
    }
}

#[test]
fn pad_inputs_repeats_last() {
    let (padded, log) = fq12_exp_u64_pad_inputs(&vec![10u32, 20, 30]);
    assert_eq!(padded, vec![10, 20, 30, 30]);
    assert_eq!(log, 2);
    let (padded, log) = fq12_exp_u64_pad_inputs(&vec![1u8, 2, 3, 4]);
    assert_eq!(padded, vec![1, 2, 3, 4]);
    assert_eq!(log, 2);
    let (padded, log) = fq12_exp_u64_pad_inputs(&vec![9i64]);
    assert_eq!(padded, vec![9]);
    assert_eq!(log, 0);
}

#[test]
fn unit_layout_and_exponent_one() {
    let mut one = [[0u64; 6]; 12];
    one[0][0] = 1;
    assert_eq!(to_limbs(&Fq12::ONE), one);
    let mut rng = ark_std::test_rng();
    let x = Fq12::rand(&mut rng);
    let input = Fq12ExpU64Input { x: to_limbs(&x), offset: one, exp_val: 1 };
    assert_eq!(input.output(), to_limbs(&x));
}
