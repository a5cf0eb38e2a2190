//! An obfuscation transport layer: a reversible, composable byte-transform
//! pipeline sitting between a raw byte stream and a line-oriented protocol.
//!
//! The wire stream opens with a self-describing cipher spec, parsed off its
//! leading bytes by [`parser`]; the spec selects an ordered chain of byte
//! transforms ([`cipher`]), each trivially invertible and two of them aware
//! of the byte's stream position. A per-connection [`session`] applies the
//! chain symmetrically in the two traffic directions, each direction with
//! its own position counter, and frames the traffic into lines. The small
//! application computation that answers a decoded request line lives in
//! [`toys`].
//!
//! No cryptographic security is claimed: the transforms are invertible bit
//! operations, not a cipher in the security sense.

pub mod cipher;
pub mod parser;
pub mod session;
pub mod toys;
