//! Structural fingerprints of wire-format types.
//!
//! Every type that takes part in the wire format is registered with a
//! descriptor of its structure. Each registered type gets a 32-bit
//! fingerprint that follows its names and the fingerprints of the types it
//! is built from, and the fingerprints of all types are held against a
//! stored snapshot: a difference means that the wire format has changed.
//!
//! - `descriptor`, `registry`: what is recorded of a type, and where.
//! - `hasher`, `shape`, `fingerprint`: what is hashed, and how.
//! - `order`, `snapshot`, `table`: the stored table and its text.
//! - `gate`, `report`: the comparison and its findings.
//! - `laws`: what holds of every registry.
//! - `mirror`: the decisions of the chain-mirroring commands.

pub mod descriptor;
pub mod fingerprint;
pub mod gate;
pub mod hasher;
pub mod laws;
pub mod mirror;
pub mod order;
pub mod registry;
pub mod report;
pub mod shape;
pub mod snapshot;
pub mod table;
