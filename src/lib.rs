//! A minimal single-input, single-output spending core: transactions are
//! built without any secret, and signed only by a wallet that holds a key.
//!
//! - `encoding`: little-endian integers and compact sizes.
//! - `tx`: scripts, outpoints, inputs, outputs, unsigned and signed transactions.
//! - `sighash`: the message a signature on one input commits to.
//! - `codec`: serialization of unsigned transactions and its inverse.
//! - `crypto`: hashing, ECDSA and address decoding from the bitcoin library.
//! - `custody`: full and watch-only wallets, building and signing.
//! - `laws`: properties that relate several operations.

pub mod encoding;
pub mod tx;
pub mod sighash;
pub mod codec;
pub mod crypto;
pub mod custody;
pub mod laws;
