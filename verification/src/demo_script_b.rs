//! A program to delegate to: it accepts a witness that reads its parameter
//! bytes backwards.
//!
//! Run as a predicate of its own it takes both from the transaction; run by
//! delegation it takes its parameter bytes and the index of its witness from
//! its two arguments.

use vstd::prelude::*;
use crate::error::Error;

verus! {

/// Where the program finds its parameter bytes and its witness.
#[derive(Debug, Clone, Copy, PartialEq, Eq)]
pub enum ArgumentSource {
    /// In the running predicate and in the witness of its first input.
    Transaction,
    /// In the first argument, and in the witness of the input whose index
    /// the second argument gives.
    Arguments,
}

/// Where a program started with `argc` arguments finds its parameter bytes
/// and its witness: with none in the transaction, with two in the arguments.
/// Any other number is refused.
pub fn argument_source(argc: usize) -> (res: Result<ArgumentSource, Error>)
    ensures
        res == if argc == 0 {
            Ok::<ArgumentSource, Error>(ArgumentSource::Transaction)
        } else if argc == 2 {
            Ok::<ArgumentSource, Error>(ArgumentSource::Arguments)
        } else {
            Err::<ArgumentSource, Error>(Error::WrongArgv)
        },
{
    if argc == 0 {
        Ok(ArgumentSource::Transaction)
    } else if argc == 2 {
        Ok(ArgumentSource::Arguments)
    } else {
        Err(Error::WrongArgv)
    }
}

/// The index of a witness from its two bytes, the low one first.
pub fn witness_index(bytes: &[u8]) -> (index: u16)
    requires
        bytes@.len() == 2,
    ensures
        index == bytes@[0] as nat + 256 * (bytes@[1] as nat),
{
    let low: u16 = bytes[0] as u16;
    let high: u16 = bytes[1] as u16;
    low + 256 * high
}

/// Accepts exactly when the witness is the parameter bytes read backwards.
pub fn validate(script_args: Vec<u8>, witness: Vec<u8>) -> (res: Result<(), Error>)
    ensures
        res == if script_args@ == witness@.reverse() {
            Ok::<(), Error>(())
        } else {
            Err::<(), Error>(Error::WrongWitness)
        },
{
    let n = witness.len();
    if script_args.len() != n {
        return Err(Error::WrongWitness);
    }
    let mut i: usize = 0;
    while i < n
        invariant
            i <= n,
            n == witness@.len(),
            n == script_args@.len(),
            forall|j: int| 0 <= j < i ==> script_args@[j] == witness@[n - 1 - j],
        decreases n - i,
    {
        if script_args[i] != witness[n - 1 - i] {
            return Err(Error::WrongWitness);
        }
        i += 1;
    }
    assert(script_args@ =~= witness@.reverse());
    Ok(())
}

} // verus!
