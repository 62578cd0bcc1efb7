//! Threshold attestation.
//!
//! A program's transactions are valid with the signature of a group of nodes, of which as many as a
//! threshold says have to validate and sign. No node has the group's key.
//!
//! - `modular`, `order`, `interpolation`, `float`, `text`, `entries`: the mathematics and the
//!   encodings.
//! - `scalar`, `point`, `hashing`, `json`: what comes from other libraries, with what is said of it.
//! - `scalar_ext`, `polynomial`, `lagrange`, `feldman`, `pdk`, `rotation`: key generation,
//!   derivation and rotation.
//! - `frost`: threshold signing.
//! - `model`, `error`, `receipt`, `attestation`, `string_map`: the values that are exchanged.
//! - `executor`, `wasm_executor`, `sql`, `guest`, `node`: programs and the nodes that run them.
//! - `client`, `transport`, `deployment`: attestation by the nodes.

pub mod attestation;
pub mod client;
pub mod deployment;
pub mod entries;
pub mod error;
pub mod executor;
pub mod feldman;
pub mod float;
pub mod frost;
pub mod guest;
pub mod hashing;
pub mod interpolation;
pub mod json;
pub mod lagrange;
pub mod model;
pub mod modular;
pub mod node;
pub mod order;
pub mod pdk;
pub mod point;
pub mod polynomial;
pub mod receipt;
pub mod rotation;
pub mod scalar;
pub mod scalar_ext;
pub mod sql;
pub mod string_map;
pub mod text;
pub mod transport;
pub mod wasm_executor;
