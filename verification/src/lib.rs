//! The Monolith-31 permutation over the Mersenne-31 prime field.
pub mod cauchy;
pub mod field;
pub mod invertibility;
pub mod layers;
pub mod mds;
pub mod mmio;
pub mod prime_field;
pub mod monolith;
pub mod sbox;
pub mod xof;

pub use field::Mersenne31;
pub use mds::MonolithMdsMatrixMersenne31;
pub use monolith::MonolithMersenne31;
