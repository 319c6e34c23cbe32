use vstd::prelude::*;

verus! {

/// Bits per limb of a 256-bit value held in 16-bit columns.
pub const LIMB_BITS: usize = 16;

/// Number of limbs of a BLS12-381 base field element.
pub const BLS_N_LIMBS: usize = 16;

/// Bits per limb of a BLS12-381 base field element.
pub const BLS_LIMB_BITS: usize = 24;

/// Number of coefficients of the product of two limb polynomials of
/// `BLS_N_LIMBS` coefficients each.
pub const BLS_WIDE_LIMBS: usize = 2 * BLS_N_LIMBS - 1;

/// Column layout of an exponentiation STARK.
pub struct ExpStarkConstants {
    pub num_columns: usize,
    pub num_public_inputs: usize,
    pub num_main_cols: usize,
    pub num_io: usize,
    pub start_flags_col: usize,
    pub start_periodic_pulse_col: usize,
    pub start_io_pulses_col: usize,
    pub start_lookups_col: usize,
    pub start_range_check_col: usize,
    pub end_range_check_col: usize,
    pub num_range_check_cols: usize,
}

} // verus!
