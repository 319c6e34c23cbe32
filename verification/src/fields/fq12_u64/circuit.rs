//! The computation behind the `Fq12` exponentiation circuit,
//! `output = offset * x^exp_val` in the BLS12-381 field `Fq12`, and the
//! padding of a batch of such computations to a power-of-two count.
//!
//! An `Fq12` element is held as its 12 coefficients over `Fq` in the tower
//! order `Fq12 = Fq6[w]`, `Fq6 = Fq2[v]`, `Fq2 = Fq[u]`
//! (`c0.c0.c0, c0.c0.c1, c0.c1.c0, ..., c1.c2.c1`), each coefficient as six
//! little-endian `u64` limbs of its canonical integer in `0..p`.
use ark_bls12_381::{Fq, Fq12};
use ark_ff::{BigInt, Field, PrimeField};
use vstd::arithmetic::power2::{lemma_pow2_strictly_increases, lemma_pow2_unfold, pow2};
use vstd::prelude::*;

verus! {

/// Number of field elements that describe one exponentiation input.
pub const FQ12_EXP_U64_INPUT_LEN: usize = 12 * 8 * 3 + 1;

/// Little-endian `u64` limbs of the BLS12-381 base field modulus `p`.
pub const FQ_MODULUS_LIMBS: [u64; 6] = [
    0xb9fe_ffff_ffff_aaab,
    0x1eab_fffe_b153_ffff,
    0x6730_d2a0_f6b0_f624,
    0x6477_4b84_f385_12bf,
    0x4b1b_a7b6_434b_acd7,
    0x1a01_11ea_397f_e69a,
];

/// The BLS12-381 base field modulus.
pub open spec fn fq_modulus() -> nat {
    0x1a0111ea397fe69a4b1ba7b6434bacd764774b84f38512bf6730d2a0f6b0f6241eabfffeb153ffffb9feffffffffaaabnat
}

/// The integer with little-endian `u64` limbs `s`.
pub open spec fn u64_limbs_value(s: Seq<u64>) -> nat
    decreases s.len(),
{
    if s.len() == 0 {
        0
    } else {
        s[0] as nat + 0x1_0000_0000_0000_0000nat * u64_limbs_value(s.drop_first())
    }
}

/// The limbs are the canonical representative of an element of `Fq`.
pub open spec fn fq_canonical(l: [u64; 6]) -> bool {
    u64_limbs_value(l@) < fq_modulus()
}

/// All 12 coefficients are canonical.
pub open spec fn fq12_canonical(c: [[u64; 6]; 12]) -> bool {
    forall|i: int| 0 <= i < 12 ==> fq_canonical(#[trigger] c[i])
}

/// The unit of `Fq12`: coefficient `c0.c0.c0` is one, all others zero.
pub open spec fn fq12_one() -> [[u64; 6]; 12] {
    let z = [0u64, 0, 0, 0, 0, 0];
    [[1u64, 0, 0, 0, 0, 0], z, z, z, z, z, z, z, z, z, z, z]
}

/// `a * b` in `Fq12`, as computed by arkworks, in the layout of this module.
pub uninterp spec fn fq12_mul(a: [[u64; 6]; 12], b: [[u64; 6]; 12]) -> [[u64; 6]; 12];

/// `x^n` in `Fq12`: the unit multiplied `n` times by `x`.
pub open spec fn fq12_pow_nat(x: [[u64; 6]; 12], n: nat) -> [[u64; 6]; 12]
    decreases n,
{
    if n == 0 {
        fq12_one()
    } else {
        fq12_mul(fq12_pow_nat(x, (n - 1) as nat), x)
    }
}

/// `x^exp` in `Fq12`.
pub open spec fn fq12_pow_u64(x: [[u64; 6]; 12], exp: u64) -> [[u64; 6]; 12] {
    fq12_pow_nat(x, exp as nat)
}

/// Calls arkworks' `Mul` for `Fq12` (the limbs are converted with
/// `Fq::from_bigint`, `Fq12::from_base_prime_field_elems`,
/// `Fq12::to_base_prime_field_elements` and `Fq::into_bigint`). Claimed: the
/// result is the named value with canonical coefficients (`into_bigint`
/// gives the integer in `0..p`); multiplying by the unit on either side gives
/// the other factor back; and, `Fq12` being a field whose elements have one
/// canonical form, products of canonical elements with the result are
/// canonical and associate: `(p * q) * r == p * (q * r)`.
#[verifier::external_body]
fn fq12_mul_limbs(a: &[[u64; 6]; 12], b: &[[u64; 6]; 12]) -> (r: [[u64; 6]; 12])
    requires
        fq12_canonical(*a),
        fq12_canonical(*b),
    ensures
        r == fq12_mul(*a, *b),
        fq12_canonical(r),
        *b == fq12_one() ==> r == *a,
        *a == fq12_one() ==> r == *b,
        forall|p: [[u64; 6]; 12]| fq12_canonical(p) ==> fq12_canonical(#[trigger] fq12_mul(p, r)),
        forall|p: [[u64; 6]; 12], q: [[u64; 6]; 12]|
            fq12_canonical(p) && fq12_canonical(q) ==> #[trigger] fq12_mul(fq12_mul(p, q), r)
                == fq12_mul(p, fq12_mul(q, r)),
{
    let a = Fq12::from_base_prime_field_elems(&a.map(|l| Fq::from_bigint(BigInt::new(l)).unwrap())).unwrap();
    let b = Fq12::from_base_prime_field_elems(&b.map(|l| Fq::from_bigint(BigInt::new(l)).unwrap())).unwrap();
    let out: Vec<[u64; 6]> = (a * b).to_base_prime_field_elements().map(|c| c.into_bigint().0).collect();
    out.try_into().unwrap()
}

/// Multiplication by `x` keeps canonical elements canonical and associates.
pub open spec fn fq12_mul_by_is_lawful(x: [[u64; 6]; 12]) -> bool {
    &&& fq12_canonical(x)
    &&& fq12_mul(fq12_one(), x) == x
    &&& forall|p: [[u64; 6]; 12]| fq12_canonical(p) ==> fq12_canonical(#[trigger] fq12_mul(p, x))
    &&& forall|p: [[u64; 6]; 12], q: [[u64; 6]; 12]|
        fq12_canonical(p) && fq12_canonical(q) ==> #[trigger] fq12_mul(fq12_mul(p, q), x)
            == fq12_mul(p, fq12_mul(q, x))
}

/// The unit of `Fq12` is canonical.
pub proof fn lemma_one_canonical()
    ensures
        fq12_canonical(fq12_one()),
{
    lemma_modulus_limbs();
    let one = fq12_one();
    assert forall|i: int| 0 <= i < 12 implies fq_canonical(#[trigger] one[i]) by {
        let s = one[i]@;
        assert(s.skip(6) =~= Seq::<u64>::empty());
        assert(s.skip(5).drop_first() =~= s.skip(6));
        assert(s.skip(4).drop_first() =~= s.skip(5));
        assert(s.skip(3).drop_first() =~= s.skip(4));
        assert(s.skip(2).drop_first() =~= s.skip(3));
        assert(s.skip(1).drop_first() =~= s.skip(2));
        assert(s.drop_first() =~= s.skip(1));
        assert(u64_limbs_value(s.skip(6)) == 0);
        assert(u64_limbs_value(s.skip(5)) == 0);
        assert(u64_limbs_value(s.skip(4)) == 0);
        assert(u64_limbs_value(s.skip(3)) == 0);
        assert(u64_limbs_value(s.skip(2)) == 0);
        assert(u64_limbs_value(s.skip(1)) == 0);
        assert(u64_limbs_value(s) <= 1);
        assert(u64_limbs_value(FQ_MODULUS_LIMBS@) > 1);
    }
}

proof fn lemma_pow_canonical(x: [[u64; 6]; 12], n: nat)
    requires
        fq12_mul_by_is_lawful(x),
    ensures
        fq12_canonical(fq12_pow_nat(x, n)),
    decreases n,
{
    if n == 0 {
        lemma_one_canonical();
    } else {
        lemma_pow_canonical(x, (n - 1) as nat);
    }
}

/// Powers of `x` multiply by adding exponents: `x^a * x^b == x^(a + b)`.
pub proof fn lemma_pow_adds(x: [[u64; 6]; 12], a: nat, b: nat)
    requires
        fq12_mul_by_is_lawful(x),
        b >= 1,
    ensures
        fq12_mul(fq12_pow_nat(x, a), fq12_pow_nat(x, b)) == fq12_pow_nat(x, a + b),
    decreases b,
{
    lemma_pow_canonical(x, a);
    if b == 1 {
        assert(fq12_pow_nat(x, 0) == fq12_one());
        assert(fq12_pow_nat(x, 1) == x);
    } else {
        let b1 = (b - 1) as nat;
        lemma_pow_adds(x, a, b1);
        lemma_pow_canonical(x, b1);
        assert(fq12_mul(fq12_mul(fq12_pow_nat(x, a), fq12_pow_nat(x, b1)), x) == fq12_mul(
            fq12_pow_nat(x, a),
            fq12_mul(fq12_pow_nat(x, b1), x),
        ));
        assert(fq12_pow_nat(x, a + b) == fq12_mul(fq12_pow_nat(x, (a + b1) as nat), x));
    }
}

/// `x^exp` by square-and-multiply over the bits of `exp`, lowest first.
fn fq12_pow(x: &[[u64; 6]; 12], exp: u64) -> (r: [[u64; 6]; 12])
    requires
        fq12_canonical(*x),
    ensures
        r == fq12_pow_u64(*x, exp),
        fq12_canonical(r),
        exp == 0 ==> r == fq12_one(),
        exp == 1 ==> r == *x,
{
    let z = [0u64, 0, 0, 0, 0, 0];
    let one: [[u64; 6]; 12] = [[1u64, 0, 0, 0, 0, 0], z, z, z, z, z, z, z, z, z, z, z];
    proof {
        assert(one == fq12_one());
        lemma_one_canonical();
    }
    // multiplying the unit by `x` gives `x` and the laws of multiplying by it
    let x1 = fq12_mul_limbs(&one, x);
    proof {
        assert(x1 == *x);
        assert(fq12_mul_by_is_lawful(*x));
    }
    if exp == 0 {
        return one;
    }
    let ghost xs = *x;
    let mut base: [[u64; 6]; 12] = *x;
    let mut acc: Option<[[u64; 6]; 12]> = None;
    let mut rem: u64 = exp;
    let ghost mut low: nat = 0;
    let ghost mut pw: nat = 1;
    assert(fq12_pow_nat(xs, 0) == fq12_one());
    assert(fq12_pow_nat(xs, 1) == xs);
    while rem > 0
        invariant
            xs == *x,
            fq12_mul_by_is_lawful(xs),
            exp as nat == low + rem * pw,
            low < pw,
            pw >= 1,
            base == fq12_pow_nat(xs, pw),
            fq12_canonical(base),
            acc is None ==> low == 0,
            acc matches Some(v) ==> v == fq12_pow_nat(xs, low) && low >= 1 && fq12_canonical(v),
        decreases rem,
    {
        let ghost old_rem = rem;
        let ghost old_low = low;
        if rem % 2 == 1 {
            match acc {
                None => {
                    acc = Some(base);
                },
                Some(v) => {
                    let nv = fq12_mul_limbs(&v, &base);
                    proof {
                        lemma_pow_adds(xs, low, pw);
                    }
                    acc = Some(nv);
                },
            }
            proof {
                low = low + pw;
            }
        }
        rem = rem / 2;
        let nb = fq12_mul_limbs(&base, &base);
        proof {
            lemma_pow_adds(xs, pw, pw);
            let bit = old_rem % 2;
            assert(old_rem * pw == bit * pw + (old_rem / 2) * (2 * pw)) by (nonlinear_arith)
                requires
                    old_rem >= 0,
                    bit == old_rem % 2,
            ;
            if bit == 1 {
                assert(low == old_low + pw);
                assert(bit * pw == pw);
            } else {
                assert(low == old_low);
                assert(bit == 0);
                assert(bit * pw == 0);
            }
            assert(exp as nat == low + rem * (2 * pw));
            pw = 2 * pw;
        }
        base = nb;
    }
    match acc {
        Some(v) => v,
        None => one,
    }
}

proof fn lemma_modulus_limbs()
    ensures
        u64_limbs_value(FQ_MODULUS_LIMBS@) == fq_modulus(),
{
    let s = FQ_MODULUS_LIMBS@;
    assert(s[0] == 0xb9fe_ffff_ffff_aaab);
    assert(s[1] == 0x1eab_fffe_b153_ffff);
    assert(s[2] == 0x6730_d2a0_f6b0_f624);
    assert(s[3] == 0x6477_4b84_f385_12bf);
    assert(s[4] == 0x4b1b_a7b6_434b_acd7);
    assert(s[5] == 0x1a01_11ea_397f_e69a);
    let s6 = s.skip(6);
    let s5 = s.skip(5);
    let s4 = s.skip(4);
    let s3 = s.skip(3);
    let s2 = s.skip(2);
    let s1 = s.skip(1);
    assert(u64_limbs_value(s6) == 0);
    assert(s5.drop_first() =~= s6);
    assert(u64_limbs_value(s5) == 0x1a01_11ea_397f_e69a);
    assert(s4.drop_first() =~= s5);
    assert(u64_limbs_value(s4) == 0x4b1b_a7b6_434b_acd7nat + 0x1_0000_0000_0000_0000nat * 0x1a01_11ea_397f_e69anat);
    assert(s3.drop_first() =~= s4);
    assert(s2.drop_first() =~= s3);
    assert(s1.drop_first() =~= s2);
    assert(s.drop_first() =~= s1);
    assert(u64_limbs_value(s3) == s[3] + 0x1_0000_0000_0000_0000nat * u64_limbs_value(s4));
    assert(u64_limbs_value(s2) == s[2] + 0x1_0000_0000_0000_0000nat * u64_limbs_value(s3));
    assert(u64_limbs_value(s1) == s[1] + 0x1_0000_0000_0000_0000nat * u64_limbs_value(s2));
    assert(u64_limbs_value(s) == s[0] + 0x1_0000_0000_0000_0000nat * u64_limbs_value(s1));
}

/// Whether the limbs are the canonical representative of an element of `Fq`.
pub fn is_canonical_fq(l: &[u64; 6]) -> (r: bool)
    ensures
        r == fq_canonical(*l),
{
    proof {
        lemma_modulus_limbs();
    }
    let m = FQ_MODULUS_LIMBS;
    let mut i: usize = 6;
    while i > 0
        invariant
            i <= 6,
            m == FQ_MODULUS_LIMBS,
            u64_limbs_value(m@) == fq_modulus(),
            u64_limbs_value(l@.skip(i as int)) == u64_limbs_value(m@.skip(i as int)),
        decreases i,
    {
        i = i - 1;
        assert(l@.skip(i as int).drop_first() =~= l@.skip(i + 1));
        assert(m@.skip(i as int).drop_first() =~= m@.skip(i + 1));
        if l[i] != m[i] {
            assert(l@ =~= l@.skip(0));
            assert(m@ =~= m@.skip(0));
            proof {
                lemma_equal_suffix_decides(l@, m@, i as int);
            }
            return l[i] < m[i];
        }
    }
    assert(l@ =~= l@.skip(0));
    assert(m@ =~= m@.skip(0));
    false
}

/// Limbs that agree above index `i` and differ at `i` are ordered by their limb `i`.
proof fn lemma_equal_suffix_decides(a: Seq<u64>, b: Seq<u64>, i: int)
    requires
        a.len() == b.len(),
        0 <= i < a.len(),
        a[i] != b[i],
        u64_limbs_value(a.skip(i + 1)) == u64_limbs_value(b.skip(i + 1)),
    ensures
        (u64_limbs_value(a) < u64_limbs_value(b)) == (a[i] < b[i]),
        u64_limbs_value(a) != u64_limbs_value(b),
    decreases i,
{
    if i == 0 {
        assert(a.drop_first() =~= a.skip(1));
        assert(b.drop_first() =~= b.skip(1));
    } else {
        assert(a.drop_first().skip(i) =~= a.skip(i + 1));
        assert(b.drop_first().skip(i) =~= b.skip(i + 1));
        lemma_equal_suffix_decides(a.drop_first(), b.drop_first(), i - 1);
        let va = u64_limbs_value(a.drop_first());
        let vb = u64_limbs_value(b.drop_first());
        let a0 = a[0] as nat;
        let b0 = b[0] as nat;
        if va < vb {
            assert(a0 + 0x1_0000_0000_0000_0000nat * va < b0 + 0x1_0000_0000_0000_0000nat * vb) by (nonlinear_arith)
                requires
                    va < vb,
                    a0 < 0x1_0000_0000_0000_0000nat,
            ;
        } else {
            assert(a0 + 0x1_0000_0000_0000_0000nat * va > b0 + 0x1_0000_0000_0000_0000nat * vb) by (nonlinear_arith)
                requires
                    va > vb,
                    b0 < 0x1_0000_0000_0000_0000nat,
            ;
        }
    }
}

/// Whether all 12 coefficients are canonical.
pub fn is_canonical_fq12(c: &[[u64; 6]; 12]) -> (r: bool)
    ensures
        r == fq12_canonical(*c),
{
    let mut i: usize = 0;
    while i < 12
        invariant
            i <= 12,
            forall|k: int| 0 <= k < i ==> fq_canonical(#[trigger] c[k]),
        decreases 12 - i,
    {
        if !is_canonical_fq(&c[i]) {
            return false;
        }
        i = i + 1;
    }
    true
}

/// One exponentiation: computes `offset * x^exp_val`.
#[derive(Clone, Debug)]
pub struct Fq12ExpU64Input {
    pub x: [[u64; 6]; 12],
    pub offset: [[u64; 6]; 12],
    pub exp_val: u64,
}

impl Fq12ExpU64Input {
    /// `x` and `offset` are canonical `Fq12` elements.
    pub open spec fn wf(&self) -> bool {
        fq12_canonical(self.x) && fq12_canonical(self.offset)
    }

    /// Whether `x` and `offset` are canonical `Fq12` elements.
    pub fn is_valid(&self) -> (r: bool)
        ensures
            r == self.wf(),
            r == (fq12_canonical(self.x) && fq12_canonical(self.offset)),
    {
        is_canonical_fq12(&self.x) && is_canonical_fq12(&self.offset)
    }

    /// The output of the exponentiation, `offset * x^exp_val`.
    pub fn output(&self) -> (r: [[u64; 6]; 12])
        requires
            self.wf(),
        ensures
            r == fq12_mul(self.offset, fq12_pow_u64(self.x, self.exp_val)),
            fq12_canonical(r),
            self.exp_val == 0 ==> r == self.offset,
            self.exp_val == 1 && self.offset == fq12_one() ==> r == self.x,
    {
        let p = fq12_pow(&self.x, self.exp_val);
        fq12_mul_limbs(&self.offset, &p)
    }

    /// The output of the exponentiation, or `None` where `x` or `offset` is
    /// not a canonical `Fq12` element.
    pub fn checked_output(&self) -> (r: Option<[[u64; 6]; 12]>)
        ensures
            r is Some <==> self.wf(),
            r is Some <==> (fq12_canonical(self.x) && fq12_canonical(self.offset)),
            r matches Some(v) ==> v == fq12_mul(self.offset, fq12_pow_u64(self.x, self.exp_val)),
    {
        if self.is_valid() {
            Some(self.output())
        } else {
            None
        }
    }
}

/// `x^0` is the unit and `x^(e + 1) == x^e * x`: the power that `output`
/// multiplies `offset` by is repeated multiplication by `x`, for every exponent.
pub proof fn lemma_fq12_pow_is_repeated_multiplication(x: [[u64; 6]; 12], e: u64)
    ensures
        fq12_pow_u64(x, 0) == fq12_one(),
        e < u64::MAX ==> fq12_pow_u64(x, (e + 1) as u64) == fq12_mul(fq12_pow_u64(x, e), x),
{
}

/// An input is well formed exactly when every coefficient of `x` and of
/// `offset` is below the modulus.
pub proof fn lemma_wf_iff_below_modulus(input: Fq12ExpU64Input)
    ensures
        input.wf() <==> (forall|i: int|
            0 <= i < 12 ==> u64_limbs_value(#[trigger] input.x[i]@) < fq_modulus()
                && u64_limbs_value(input.offset[i]@) < fq_modulus()),
{
    if input.wf() {
        assert forall|i: int| 0 <= i < 12 implies u64_limbs_value(#[trigger] input.x[i]@)
            < fq_modulus() && u64_limbs_value(input.offset[i]@) < fq_modulus() by {
            assert(fq_canonical(input.x[i]));
            assert(fq_canonical(input.offset[i]));
        }
    }
    if forall|i: int|
        0 <= i < 12 ==> u64_limbs_value(#[trigger] input.x[i]@) < fq_modulus()
            && u64_limbs_value(input.offset[i]@) < fq_modulus() {
        assert forall|i: int| 0 <= i < 12 implies fq_canonical(#[trigger] input.x[i]) by {
            assert(u64_limbs_value(input.x[i]@) < fq_modulus());
        }
        assert forall|i: int| 0 <= i < 12 implies fq_canonical(#[trigger] input.offset[i]) by {
            assert(u64_limbs_value(input.x[i]@) < fq_modulus() && u64_limbs_value(input.offset[i]@) < fq_modulus());
        }
    }
}

/// Every input whose `x` is canonical and whose `offset` is the unit is
/// valid, whatever its exponent: the first exponentiation of a chain starts
/// from the unit.
pub proof fn lemma_unit_offset_is_valid(input: Fq12ExpU64Input)
    requires
        fq12_canonical(input.x),
        input.offset == fq12_one(),
    ensures
        input.wf(),
{
    lemma_one_canonical();
}

/// `len` is the least power of two, `2^log`, that is at least `n`.
pub open spec fn is_padded_len(n: nat, len: nat, log: nat) -> bool {
    &&& len == pow2(log)
    &&& n <= len
    &&& (log == 0 || pow2((log - 1) as nat) < n)
}

/// Number of exponentiations proved for a batch of `n`, and its base-two
/// logarithm: the least power of two that is at least `n`.
pub fn fq12_exp_u64_num_io(n: usize) -> (r: (usize, usize))
    requires
        1 <= n,
        n <= usize::MAX / 2 + 1,
    ensures
        is_padded_len(n as nat, r.0 as nat, r.1 as nat),
{
    let mut len: usize = 1;
    let mut log: usize = 0;
    proof {
        vstd::arithmetic::power2::lemma2_to64();
    }
    while len < n
        invariant
            1 <= n <= usize::MAX / 2 + 1,
            1 <= len,
            len as nat == pow2(log as nat),
            log == 0 || pow2((log - 1) as nat) < n,
            log <= len,
        decreases usize::MAX - len,
    {
        proof {
            lemma_pow2_unfold((log + 1) as nat);
        }
        len = len * 2;
        log = log + 1;
    }
    (len, log)
}

/// The inputs of a batch, padded with copies of the last one up to the least
/// power of two that is at least their number; also gives that power's
/// logarithm.
pub fn fq12_exp_u64_pad_inputs<T: Copy>(inputs: &Vec<T>) -> (r: (Vec<T>, usize))
    requires
        1 <= inputs.len(),
        inputs.len() <= usize::MAX / 2 + 1,
    ensures
        is_padded_len(inputs.len() as nat, r.0.len() as nat, r.1 as nat),
        forall|i: int| 0 <= i < inputs.len() ==> r.0[i] == inputs[i],
        forall|i: int| inputs.len() <= i < r.0.len() ==> r.0[i] == inputs[inputs.len() - 1],
{
    let n = inputs.len();
    let (len, log) = fq12_exp_u64_num_io(n);
    let last = inputs[n - 1];
    let mut padded: Vec<T> = Vec::new();
    let mut i: usize = 0;
    while i < len
        invariant
            n == inputs.len(),
            1 <= n <= len,
            last == inputs[n - 1],
            padded.len() == i,
            i <= len,
            forall|k: int| 0 <= k < i && k < n ==> padded[k] == inputs[k],
            forall|k: int| n <= k < i ==> padded[k] == last,
        decreases len - i,
    {
        if i < n {
            padded.push(inputs[i]);
        } else {
            padded.push(last);
        }
        i = i + 1;
    }
    (padded, log)
}

/// A batch whose size is already a power of two is not padded.
pub proof fn lemma_padded_len_of_power_of_two(k: nat, len: nat, log: nat)
    requires
        is_padded_len(pow2(k), len, log),
    ensures
        len == pow2(k),
        log == k,
{
    if log < k {
        lemma_pow2_strictly_increases(log, k);
    } else if log > k {
        lemma_pow2_strictly_increases(k, (log - 1) as nat);
        if k < (log - 1) as nat {
        } else {
            assert(k == (log - 1) as nat);
        }
    }
}

} // verus!
