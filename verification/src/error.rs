//! The closed set of reasons for which a transaction is rejected.

use vstd::prelude::*;

verus! {

/// Why a predicate rejects a transaction. Each reason names the one rule that
/// the transaction broke.
#[derive(Debug, Clone, Copy, PartialEq, Eq)]
pub enum Error {
    /// The transaction has no item at the index that was asked for.
    IndexOutOfBound,
    /// The registry's identity is not the digest of its creation.
    InvalidInitHash,
    /// A predicate's parameter bytes are too short, or not of the fixed length.
    InvalidArgsLength,
    /// A cell's payload is too short, or not of the fixed length.
    InvalidDataLength,
    /// The outputs do not rebuild the consumed ranges in order.
    InvalidLinkedList,
    /// The first cell dependency is not a record of the registry.
    InvalidCellDepTypeScript,
    /// The record given as evidence is not of this predicate's family, or its
    /// range does not hold the key.
    InvalidCellDepRef,
    /// Not exactly one input is a record of the registry.
    InvalidInputCount,
    /// The updated record is not guarded by the same predicate as before.
    InvalidOutputLockScript,
    /// The witness is too short or does not hold a program descriptor.
    InvalidWitnessFormat,
    /// The program descriptor's digest is not the value that was authorised.
    InvalidWrappedScriptHash,
    /// The witness is not the parameter bytes read backwards.
    WrongWitness,
    /// The program was started with a number of arguments it does not take.
    WrongArgv,
}

} // verus!
