//! Transcoding for a small closed set of multisig parameter structures:
//! between a human-readable JSON surface and a compact positional binary
//! envelope, by way of typed in-memory values.
//!
//! The JSON surface carries no variant tag: decoding resolves the variant by
//! trying each schema in declaration order and taking the first that succeeds
//! (no ambiguity check is made; the two present variants have disjoint field
//! sets, but that is a property of the variant set, not of the algorithm).
//! The binary envelope is not self-describing either: the variant tag, and
//! the network of any embedded address, travel out of band beside it.
//!
//! Address display strings are parsed and formatted by the `fvm_shared`
//! address codec, relied upon through stated contracts; everything else —
//! the surface grammar, the variant resolution, the envelope bytes — is
//! defined and verified here.

pub mod address;
pub mod params;
pub mod envelope;
pub mod json;
pub mod transcode;
