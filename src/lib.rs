//! A 1-out-of-n ring signature over the BLS12-381 group G1, with a small
//! registry of rings, issuers and a login counter built around it.
//!
//! The group and hash operations come from the Soroban host; everything
//! around them (key derivation, the challenge chain of signing and
//! verification, the registry) is verified here.

pub mod group;
pub mod ring;
pub mod registry;
