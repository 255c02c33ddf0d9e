//! A local credential vault: the check of a master passphrase, a keyed transform
//! that obscures stored passwords, an in-memory record store and the
//! line-oriented format in which the store is persisted.

pub mod error;
pub mod hex;
pub mod text;
pub mod transform;
pub mod store;
pub mod vault;
pub mod hasher;
pub mod generator;
pub mod manager;
