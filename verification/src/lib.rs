//! Multi-party trusted-setup ceremony for vector-commitment structured
//! reference strings over the BLS12-381 pairing.
//!
//! The library models every group element by its canonical compressed
//! encoding, so that the wire format, the Fiat-Shamir pre-images and the
//! well-formedness of a parameter set are all stated over byte strings.
//! The group arithmetic itself is delegated to the `pairing-plus` crate
//! behind a small set of trusted wrappers.

pub mod ceremony;
pub mod encoding;
pub mod errors;
pub mod group;
pub mod hash_to_field_pointproofs;
pub mod params;
pub mod schnorr;

pub use ceremony::{check_rerandomization, consistent, consistent_with, generate, rerandomize};
pub use group::random_scalar;
pub use params::VeccomParams;
