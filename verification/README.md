# starky_bls12_381

Limb arithmetic for BLS12-381 field elements in STARK traces, verified with Verus.

- `src/modular/poly.rs`: integer polynomials given by coefficient sequences,
  their evaluation, and the proof that the product coefficients evaluate to
  the product of the values.
- `src/modular/pol_utils.rs`: sums, differences, scalar products and products
  of `i64` limb arrays, with overflow excluded exactly.
- `src/modular/modular.rs`: writing and reading 256-bit values as trace columns.
- `src/fields/fq2.rs`: the same operations on `Fq2 = Fq[u]/(u^2 + 1)` elements
  and the laws they satisfy (product evaluates to the `Fq2` product, is
  commutative; subtraction undoes addition; reads give back writes).
- `src/fields/fq12_u64/circuit.rs`: `offset * x^exp` in `Fq12` through arkworks,
  on canonical limbs, and the padding of a batch to a power of two.
- `app/`: the plonky2 circuit versions of the `Fq2` operations and the
  conversions between arkworks' `Fq12` and the limb layout.
