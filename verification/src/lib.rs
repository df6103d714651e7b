//! Threshold signing by two groups of signers at once.
//!
//! [`two_group`] holds the signing package, signing and aggregation, [`scheme`]
//! says what they compute, and [`laws`] and [`honest`] say what follows.
pub mod ciphersuite;
pub mod error;
pub mod group;
pub mod honest;
pub mod identifier;
pub mod interpolation;
pub mod keys;
pub mod lagrange;
pub mod laws;
pub mod map;
pub mod residue;
pub mod residues;
pub mod round1;
pub mod round2;
pub mod scalar_mul;
pub mod scheme;
pub mod signature;
pub mod two_group;

pub use crate::ciphersuite::{Ciphersuite, SigningPackage};
pub use crate::error::{Error, FieldError, GroupError};
pub use crate::group::{Element, Field, Group, Scalar};
pub use crate::identifier::Identifier;
pub use crate::lagrange::compute_lagrange_coefficient;
pub use crate::map::IdentifierMap;
pub use crate::round1::{BindingFactor, GroupCommitment, GroupCommitmentShare};
pub use crate::signature::{Challenge, Signature, VerifyingKey};
