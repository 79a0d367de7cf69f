//! Validation rules of a key-range registry kept in the cells of a ledger.
//!
//! The registry is a partition of the 256-bit key space into ranges, each held
//! by one cell. Two predicates guard it: the registry validator, which lets a
//! transaction replace ranges only by splitting them, and the lookup
//! authorizer, which resolves a key against one range supplied as evidence and
//! hands the decision over to the program that the lookup selects.
//!
//! Every function here works on plain values that the host has read from the
//! transaction; nothing in this crate reads or writes anything itself.

pub mod bytes;
pub mod demo_script_b;
pub mod error;
pub mod global_registry;
pub mod hash;
pub mod hex;
pub mod key;
pub mod lock_wrapper;
pub mod partition;
pub mod script;
