//! A leveled homomorphic-encryption evaluation library (BFV/CKKS-style).
//!
//! The crate models the full lifecycle of an HE computation: encryption
//! parameters are validated into a [`Context`], key material is derived from
//! the context, values are encoded into [`Plaintext`]s, encrypted into
//! [`Ciphertext`]s, and transformed by an [`Evaluator`] whose operations
//! enforce the scheme's consistency invariants (matching parameter identity,
//! matching scale, sufficient noise budget) before touching any data.  Every
//! operation is specified and verified against an explicit mathematical model
//! of the slot contents, the modulus-switching chain, and the noise budget.
//!
//! Value objects expose their fields so that the specifications stay fully
//! transparent; well-formedness is a spec predicate on each type that every
//! constructor establishes and every operation preserves and relies on.

use vstd::prelude::*;

pub mod batch_encoder;
pub mod cipher_text;
pub mod ckks_encoder;
pub mod codec;
pub mod context;
pub mod decryptor;
pub mod encryptor;
pub mod error;
pub mod evaluator;
pub mod key_generator;
pub mod laws;
pub mod memory_pool_handle;
pub mod params;
pub mod plain_text;
pub mod small_modulus;

pub use batch_encoder::BatchEncoder;
pub use cipher_text::Ciphertext;
pub use ckks_encoder::CKKSEncoder;
pub use context::Context;
pub use decryptor::Decryptor;
pub use encryptor::Encryptor;
pub use error::HeError;
pub use evaluator::Evaluator;
pub use error::OperationIssue;
pub use error::ParameterIssue;
pub use key_generator::GaloisKeys;
pub use key_generator::KeyGenerator;
pub use key_generator::PublicKey;
pub use key_generator::RelinearizationKeys;
pub use key_generator::SecretKey;
pub use memory_pool_handle::MemoryPoolHandle;
pub use params::Params;
pub use plain_text::PlainTextError;
pub use plain_text::Plaintext;
pub use small_modulus::ModulusError;
pub use small_modulus::SmallModulus;

verus! {

/// Scheme tag for the integer-exact (BFV-style) scheme.
pub const SCHEME_BFV: u8 = 0x01;

/// Scheme tag for the fractional-approximate (CKKS-style) scheme.
pub const SCHEME_CKKS: u8 = 0x02;

} // verus!
