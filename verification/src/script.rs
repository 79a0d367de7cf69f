//! Program descriptors in their serialised form.
//!
//! A descriptor names a program by a code reference and a hash kind and
//! carries the program's parameter bytes. Serialised, it is a table of three
//! fields: a header of four little-endian 32-bit numbers (the total size and
//! the offset of each field), the 32 bytes of the code reference, the one
//! byte of the hash kind, and the parameter bytes behind their own 32-bit
//! count.

use vstd::prelude::*;
use vstd::slice::{slice_subrange, slice_to_vec};
use ckb_std::ckb_types::packed::ScriptReader;
use ckb_std::ckb_types::prelude::Reader;
use crate::key::key_at;

verus! {

/// Offset of the code reference in a serialised descriptor.
pub const CODE_HASH_OFFSET: usize = 16;

/// Offset of the hash kind in a serialised descriptor.
pub const HASH_TYPE_OFFSET: usize = 48;

/// Offset of the count of parameter bytes in a serialised descriptor.
pub const ARGS_OFFSET: usize = 49;

/// Size of a serialised descriptor without parameter bytes.
pub const MIN_SCRIPT_LEN: usize = 53;

/// The 32-bit number that stands in `bytes` at `at`, least significant byte
/// first.
pub open spec fn le32_at(bytes: Seq<u8>, at: int) -> nat {
    (bytes[at] as nat) + 256 * (bytes[at + 1] as nat) + 65536 * (bytes[at + 2] as nat) + 16777216
        * (bytes[at + 3] as nat)
}

/// `bytes` is a serialised descriptor and nothing else: the header gives the
/// length of `bytes` as the total size and puts the three fields at their
/// fixed offsets, and the count of parameter bytes accounts for all that
/// follows it.
pub open spec fn script_layout(bytes: Seq<u8>) -> bool {
    &&& bytes.len() >= MIN_SCRIPT_LEN
    &&& le32_at(bytes, 0) == bytes.len()
    &&& le32_at(bytes, 4) == CODE_HASH_OFFSET
    &&& le32_at(bytes, 8) == HASH_TYPE_OFFSET
    &&& le32_at(bytes, 12) == ARGS_OFFSET
    &&& le32_at(bytes, ARGS_OFFSET as int) == bytes.len() - MIN_SCRIPT_LEN
}

/// The code reference of a serialised descriptor.
pub open spec fn code_hash_of(script: Seq<u8>) -> Seq<u8> {
    script.subrange(CODE_HASH_OFFSET as int, HASH_TYPE_OFFSET as int)
}

/// The byte that gives the hash kind of a serialised descriptor.
pub open spec fn hash_type_of(script: Seq<u8>) -> u8 {
    script[HASH_TYPE_OFFSET as int]
}

/// The parameter bytes of a serialised descriptor.
pub open spec fn args_of(script: Seq<u8>) -> Seq<u8> {
    script.skip(MIN_SCRIPT_LEN as int)
}

/// Calls `ScriptReader::verify(data, false)` of `ckb_std::ckb_types::packed`.
/// Trusted: it accepts exactly the byte strings of the fixed layout. It asks
/// for a total size equal to the length, for a first offset of 16 (three
/// fields, no more), for offsets that do not decrease, for 32 bytes of code
/// reference and one byte of hash kind, which puts the next offsets at 48 and
/// 49, and for a count that equals the number of bytes behind it. (It adds
/// four to that count in `usize`: this is stated of machines whose `usize`
/// holds 64 bits, as the ledger's own does.)
#[verifier::external_body]
fn verify_script(data: &[u8]) -> (ok: bool)
    ensures
        ok == script_layout(data@),
{
    ScriptReader::verify(data, false).is_ok()
}

/// A program descriptor, held in its serialised form.
#[derive(Debug, PartialEq, Eq)]
pub struct Script {
    bytes: Vec<u8>,
}

impl View for Script {
    type V = Seq<u8>;

    /// The serialised descriptor.
    closed spec fn view(&self) -> Seq<u8> {
        self.bytes@
    }
}

impl Clone for Script {
    fn clone(&self) -> (copy: Self)
        ensures
            copy@ == self@,
    {
        proof {
            use_type_invariant(self);
        }
        Script { bytes: slice_to_vec(self.bytes.as_slice()) }
    }
}

impl Script {
    #[verifier::type_invariant]
    spec fn well_formed(self) -> bool {
        script_layout(self.bytes@)
    }

    /// Reads a descriptor from its serialised form. Bytes that are not
    /// exactly one descriptor give `None`.
    pub fn from_slice(data: &[u8]) -> (res: Option<Script>)
        ensures
            res is Some <==> script_layout(data@),
            res matches Some(script) ==> script@ == data@,
    {
        if verify_script(data) {
            Some(Script { bytes: slice_to_vec(data) })
        } else {
            None
        }
    }

    /// The serialised descriptor.
    pub fn as_slice(&self) -> (bytes: &[u8])
        ensures
            bytes@ == self@,
            script_layout(self@),
    {
        proof {
            use_type_invariant(self);
        }
        self.bytes.as_slice()
    }

    /// The code reference.
    pub fn code_hash(&self) -> (hash: [u8; 32])
        ensures
            hash@ == code_hash_of(self@),
    {
        proof {
            use_type_invariant(self);
        }
        key_at(self.bytes.as_slice(), CODE_HASH_OFFSET)
    }

    /// The byte that gives the hash kind.
    pub fn hash_type(&self) -> (kind: u8)
        ensures
            kind == hash_type_of(self@),
    {
        proof {
            use_type_invariant(self);
        }
        self.bytes[HASH_TYPE_OFFSET]
    }

    /// The parameter bytes.
    pub fn args(&self) -> (args: &[u8])
        ensures
            args@ == args_of(self@),
            script_layout(self@),
    {
        proof {
            use_type_invariant(self);
        }
        let all = self.bytes.as_slice();
        slice_subrange(all, MIN_SCRIPT_LEN, all.len())
    }
}

} // verus!
