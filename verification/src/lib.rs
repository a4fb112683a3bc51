//! A mercurial signature scheme over a fixed pairing-friendly curve.
//!
//! Signatures over vectors of group elements that support controlled
//! re-randomization of the signing key, the verification key, the message's
//! equivalence-class representative, and the signature itself, while
//! preserving verifiability.

mod algebra;
mod curve;
mod scheme;

pub use algebra::all_reduced;
pub use algebra::dot;
pub use algebra::group_order;
pub use algebra::reduced;
pub use algebra::scale;
pub use algebra::spec_sign_z;
pub use algebra::spec_verifies;
pub use algebra::lemma_dot_scale_left;
pub use algebra::lemma_dot_scale_right;
pub use curve::G1Elem;
pub use curve::G2Elem;
pub use curve::Scalar;
pub use scheme::MercurialSignatureError;
pub use scheme::MercurialSignatureScheme;
pub use scheme::prepare_rng;
pub use scheme::rerandomized;
pub use scheme::signature;
pub use scheme::g1s_view;
pub use scheme::g2s_view;
pub use scheme::scalars_view;
pub use scheme::lemma_change_representation_verifies;
pub use scheme::lemma_convert_verifies;
pub use scheme::lemma_converted_key_sign_verifies;
pub use scheme::lemma_sign_verifies;
