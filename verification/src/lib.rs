//! A cryptographic accumulator with zero-knowledge membership proofs and an
//! extendable ring-growing signature scheme. A signature binds a signer's
//! key into a commitment under a hidden-order group, proves the committed
//! value equal to the key committed on an elliptic curve, and can later be
//! extended over further keys without invalidating earlier verifications.
//! Every function is specified over mathematical views of its data; calls
//! into outside crates stand behind trusted declarations that state exactly
//! what is relied on.

pub mod bigint;
pub mod group;
pub mod rsa;
pub mod transcript;
pub mod exppok;
pub mod rand_src;
pub mod zkpokrep;
pub mod extend;
pub mod reduce;
pub mod curve;
pub mod dlogmv;
pub mod modeq;
pub mod sig;
pub mod root;
pub mod membership;
