# monolith

The Monolith-31 permutation over the Mersenne-31 prime field, written in
Verus with its behaviour stated in contracts and proved.

- `src/field.rs`: the field of order `2^31 - 1` (canonical elements, addition,
  multiplication, inversion through Plonky3).
- `src/sbox.rs`: the 8- and 7-bit S-boxes, their lookup tables and the Bars map,
  with their fixed points, bijectivity and canonicity.
- `src/layers.rs`: the round layers and the permutation as functions on
  sequences of field values, with the injectivity of Bars, the inverse of
  Bricks and the linearity of the Concrete layer.
- `src/xof.rs`: the seeds absorbed into SHAKE-128 and the rejection samplers
  that turn its output into round constants and Cauchy parameters.
- `src/mds.rs`: the MDS matrices (circulant for width 16, Cauchy otherwise).
- `src/monolith.rs`: `MonolithMersenne31`, its constructor and its layers.
- `src/prime_field.rs`: `P` is prime, so nonzero residues have inverses.
- `src/cauchy.rs`: Cauchy matrices with distinct parameters are invertible.
- `src/invertibility.rs`: the inverse of the width-16 circulant matrix and the
  proof that the permutation is injective on canonical states for every width
  whose MDS matrix can be built.
- `src/mmio.rs`: 32-bit register access at byte offsets of a memory mapping
  and the request/response words of the memory-mapped accelerator.
- `app/`: the experiments program and the accelerator drivers (file and FFI
  access, printing, randomness).
