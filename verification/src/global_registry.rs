//! The registry validator: the type predicate of every range record.
//!
//! A transaction that consumes no record of the registry creates it: the
//! registry's identity must then be the digest of the transaction's first
//! input and of the position of the registry's first output. Any other
//! transaction may consume records only if its outputs rebuild the consumed
//! ranges, in the same order, out of one or more adjoining ranges each. A
//! range may be split; nothing may be merged, reordered, dropped or added.

use vstd::prelude::*;
use crate::bytes::{le_bytes, push_le64, same_bytes};
use crate::error::Error;
use crate::hash::{ckb_hash, collision_free, digest_of, hashes_view};
use crate::key::{key_at, key_value, rank, same_key, Rank, KEY_LEN};
use crate::partition::{lemma_partition_conservation, refines};

verus! {

/// Number of bytes in a serialised transaction input.
pub const CELL_INPUT_LEN: usize = 44;

/// A range record as its cell carries it: the parameter bytes of the cell's
/// lock predicate begin with the first key of the range, the cell's payload
/// begins with the key at which the range stops.
#[derive(Debug, Clone, PartialEq, Eq)]
pub struct RangeCell {
    pub lock_args: Vec<u8>,
    pub data: Vec<u8>,
}

/// A range record as a value of mathematics.
pub struct RangeRecord {
    pub lock_args: Seq<u8>,
    pub data: Seq<u8>,
}

impl View for RangeCell {
    type V = RangeRecord;

    open spec fn view(&self) -> RangeRecord {
        RangeRecord { lock_args: self.lock_args@, data: self.data@ }
    }
}

impl RangeRecord {
    /// Both keys of the range can be read.
    pub open spec fn is_record(&self) -> bool {
        self.lock_args.len() >= KEY_LEN && self.data.len() >= KEY_LEN
    }

    /// The first key of the range.
    pub open spec fn start(&self) -> nat {
        key_value(self.lock_args.subrange(0, KEY_LEN as int))
    }

    /// The key at which the range stops; the range does not hold it.
    pub open spec fn end(&self) -> nat {
        key_value(self.data.subrange(0, KEY_LEN as int))
    }

    /// The range holds the key `x`.
    pub open spec fn holds(&self, x: nat) -> bool {
        self.start() <= x < self.end()
    }
}

/// A list of range records as a value of mathematics.
pub open spec fn records(cells: Seq<RangeCell>) -> Seq<RangeRecord> {
    Seq::new(cells.len(), |i: int| cells[i]@)
}

/// What the registry validator reads of the transaction it runs in.
#[derive(Debug, Clone, PartialEq, Eq)]
pub struct RegistryTx {
    /// The parameter bytes of the running predicate: the registry's identity.
    pub script_args: Vec<u8>,
    /// The fingerprint of the running predicate.
    pub script_hash: [u8; 32],
    /// The transaction's first input, serialised.
    pub first_input: [u8; 44],
    /// For each output of the transaction, in order, the fingerprint of its
    /// type predicate, where it has one.
    pub output_type_hashes: Vec<Option<[u8; 32]>>,
    /// The inputs that the running predicate guards, in order.
    pub group_inputs: Vec<RangeCell>,
    /// The outputs that the running predicate guards, in order.
    pub group_outputs: Vec<RangeCell>,
}

/// What the registry validator reads, as a value of mathematics.
pub struct RegistryTxView {
    pub script_args: Seq<u8>,
    pub script_hash: Seq<u8>,
    pub first_input: Seq<u8>,
    pub output_type_hashes: Seq<Option<Seq<u8>>>,
    pub group_inputs: Seq<RangeRecord>,
    pub group_outputs: Seq<RangeRecord>,
}

impl View for RegistryTx {
    type V = RegistryTxView;

    open spec fn view(&self) -> RegistryTxView {
        RegistryTxView {
            script_args: self.script_args@,
            script_hash: self.script_hash@,
            first_input: self.first_input@,
            output_type_hashes: hashes_view(self.output_type_hashes@),
            group_inputs: records(self.group_inputs@),
            group_outputs: records(self.group_outputs@),
        }
    }
}

/// What comes of rebuilding the keys from `start` up to `end` out of the
/// outputs that begin at `cursor`: the cursor behind the last output used, or
/// the reason for which the first unfit output is refused.
pub open spec fn cover(outputs: Seq<RangeRecord>, cursor: int, start: nat, end: nat) -> Result<
    int,
    Error,
>
    decreases outputs.len() - cursor,
{
    if cursor < 0 || cursor >= outputs.len() {
        Err(Error::InvalidLinkedList)
    } else {
        let cell = outputs[cursor];
        if cell.lock_args.len() < KEY_LEN {
            Err(Error::InvalidArgsLength)
        } else if cell.start() != start {
            Err(Error::InvalidLinkedList)
        } else if cell.data.len() < KEY_LEN {
            Err(Error::InvalidDataLength)
        } else if cell.end() <= cell.start() {
            Err(Error::InvalidLinkedList)
        } else if cell.end() == end {
            Ok(cursor + 1)
        } else {
            cover(outputs, cursor + 1, cell.end(), end)
        }
    }
}

/// What comes of checking the inputs from position `from` on against the
/// outputs from `cursor` on.
pub open spec fn walk(
    inputs: Seq<RangeRecord>,
    outputs: Seq<RangeRecord>,
    from: int,
    cursor: int,
) -> Result<(), Error>
    decreases inputs.len() - from,
{
    if from < 0 || from >= inputs.len() {
        if cursor >= outputs.len() {
            Ok(())
        } else {
            Err(Error::InvalidLinkedList)
        }
    } else {
        let cell = inputs[from];
        if cell.lock_args.len() < KEY_LEN {
            Err(Error::InvalidArgsLength)
        } else if cell.data.len() < KEY_LEN {
            Err(Error::InvalidDataLength)
        } else {
            match cover(outputs, cursor, cell.start(), cell.end()) {
                Ok(next) => walk(inputs, outputs, from + 1, next),
                Err(e) => Err(e),
            }
        }
    }
}

/// The verdict on a transaction that consumes `inputs` and produces
/// `outputs`, both in the order of the transaction: it is accepted, or
/// rejected for the first rule that the walk finds broken.
pub open spec fn linked_list_outcome(inputs: Seq<RangeRecord>, outputs: Seq<RangeRecord>) -> Result<
    (),
    Error,
> {
    walk(inputs, outputs, 0, 0)
}

/// `index` is the position of the first output whose type predicate has the
/// fingerprint `own`.
pub open spec fn is_first_own_output(
    type_hashes: Seq<Option<Seq<u8>>>,
    own: Seq<u8>,
    index: int,
) -> bool {
    &&& 0 <= index < type_hashes.len()
    &&& type_hashes[index] == Some(own)
    &&& forall|j: int| 0 <= j < index ==> (#[trigger] type_hashes[j]) != Some(own)
}

/// Some output has a type predicate with the fingerprint `own`.
pub open spec fn has_own_output(type_hashes: Seq<Option<Seq<u8>>>, own: Seq<u8>) -> bool {
    exists|k: int| 0 <= k < type_hashes.len() && (#[trigger] type_hashes[k]) == Some(own)
}

/// The position of the first output whose type predicate has the
/// fingerprint `own`, where there is one.
pub open spec fn first_own_output(type_hashes: Seq<Option<Seq<u8>>>, own: Seq<u8>) -> int {
    choose|index: int| is_first_own_output(type_hashes, own, index)
}

/// The bytes whose digest names a registry: the first input of the creating
/// transaction, then the position of the registry's first output as eight
/// bytes, the least significant one first.
pub open spec fn identity_preimage(first_input: Seq<u8>, output_index: nat) -> Seq<u8> {
    first_input + le_bytes(output_index, 8)
}

/// The identity of the registry that a transaction with this first input
/// creates at this output.
pub open spec fn registry_identity(first_input: Seq<u8>, output_index: nat) -> Seq<u8> {
    digest_of(identity_preimage(first_input, output_index))
}

/// The verdict on a creation whose predicate carries `script_args`, given the
/// `identity` that the transaction confers.
pub open spec fn init_outcome(script_args: Seq<u8>, identity: Seq<u8>) -> Result<(), Error> {
    if script_args == identity {
        Ok(())
    } else {
        Err(Error::InvalidInitHash)
    }
}

/// The verdict on a transaction that creates the registry.
pub open spec fn creation_outcome(tx: RegistryTxView) -> Result<(), Error> {
    init_outcome(
        tx.script_args,
        registry_identity(
            tx.first_input,
            first_own_output(tx.output_type_hashes, tx.script_hash) as nat,
        ),
    )
}

/// The verdict of the registry validator on a transaction.
pub open spec fn registry_outcome(tx: RegistryTxView) -> Result<(), Error> {
    if tx.group_inputs.len() == 0 {
        creation_outcome(tx)
    } else {
        linked_list_outcome(tx.group_inputs, tx.group_outputs)
    }
}

/// Rebuilds the range from `start` up to `end` out of the outputs that begin
/// at `cursor`, and returns the cursor behind the last output used. Each
/// output must begin where the one before it stopped, the first one at
/// `start`, and must stop behind its own beginning; the one that stops at
/// `end` is the last.
pub fn cover_input(
    outputs: &Vec<RangeCell>,
    cursor: usize,
    start: &[u8; 32],
    end: &[u8; 32],
) -> (res: Result<usize, Error>)
    ensures
        match res {
            Ok(next) => cover(
                records(outputs@),
                cursor as int,
                key_value(start@),
                key_value(end@),
            ) == Ok::<int, Error>(next as int),
            Err(e) => cover(records(outputs@), cursor as int, key_value(start@), key_value(end@))
                == Err::<int, Error>(e),
        },
{
    let mut o: usize = cursor;
    let mut expected: [u8; 32] = *start;
    loop
        invariant
            cover(records(outputs@), cursor as int, key_value(start@), key_value(end@)) == cover(
                records(outputs@),
                o as int,
                key_value(expected@),
                key_value(end@),
            ),
        decreases outputs.len() - o,
    {
        if o >= outputs.len() {
            return Err(Error::InvalidLinkedList);
        }
        let cell = &outputs[o];
        if cell.lock_args.len() < KEY_LEN {
            return Err(Error::InvalidArgsLength);
        }
        let output_start = key_at(cell.lock_args.as_slice(), 0);
        if !same_key(&output_start, &expected) {
            return Err(Error::InvalidLinkedList);
        }
        if cell.data.len() < KEY_LEN {
            return Err(Error::InvalidDataLength);
        }
        let output_end = key_at(cell.data.as_slice(), 0);
        match rank(&output_end, &output_start) {
            Rank::Greater => {},
            _ => {
                return Err(Error::InvalidLinkedList);
            },
        }
        o += 1;
        if same_key(&output_end, end) {
            return Ok(o);
        }
        expected = output_end;
    }
}

/// Checks that the outputs rebuild the consumed ranges: input by input, in
/// order, each out of the outputs that follow those of the input before it,
/// with no output left over. The transactions accepted are exactly those
/// whose outputs are their inputs with some ranges split.
pub fn validate_linked_list(inputs: &Vec<RangeCell>, outputs: &Vec<RangeCell>) -> (res: Result<
    (),
    Error,
>)
    ensures
        res == linked_list_outcome(records(inputs@), records(outputs@)),
        res is Ok <==> refines(records(inputs@), records(outputs@)),
{
    proof {
        lemma_partition_conservation(records(inputs@), records(outputs@));
    }
    let ghost consumed = records(inputs@);
    let ghost produced = records(outputs@);
    let mut o: usize = 0;
    let mut i: usize = 0;
    while i < inputs.len()
        invariant
            i <= inputs.len(),
            consumed == records(inputs@),
            produced == records(outputs@),
            linked_list_outcome(consumed, produced) == walk(consumed, produced, i as int, o as int),
            linked_list_outcome(consumed, produced) is Ok <==> refines(consumed, produced),
        decreases inputs.len() - i,
    {
        let cell = &inputs[i];
        if cell.lock_args.len() < KEY_LEN {
            return Err(Error::InvalidArgsLength);
        }
        let input_start = key_at(cell.lock_args.as_slice(), 0);
        if cell.data.len() < KEY_LEN {
            return Err(Error::InvalidDataLength);
        }
        let input_end = key_at(cell.data.as_slice(), 0);
        match cover_input(outputs, o, &input_start, &input_end) {
            Ok(next) => {
                o = next;
            },
            Err(e) => {
                return Err(e);
            },
        }
        i += 1;
    }
    if o >= outputs.len() {
        Ok(())
    } else {
        Err(Error::InvalidLinkedList)
    }
}

/// Whether the transaction creates the registry: it consumes no record of it.
pub fn is_init(tx: &RegistryTx) -> (r: bool)
    ensures
        r == (tx@.group_inputs.len() == 0),
{
    tx.group_inputs.len() == 0
}

/// The position of the first output whose type predicate has the fingerprint
/// `script_hash`. There must be one: the predicate runs only in a transaction
/// that has a cell of its own.
pub fn load_first_output_index(
    output_type_hashes: &Vec<Option<[u8; 32]>>,
    script_hash: &[u8; 32],
) -> (index: usize)
    requires
        has_own_output(hashes_view(output_type_hashes@), script_hash@),
    ensures
        is_first_own_output(hashes_view(output_type_hashes@), script_hash@, index as int),
        index == first_own_output(hashes_view(output_type_hashes@), script_hash@),
{
    let ghost type_hashes = hashes_view(output_type_hashes@);
    let mut i: usize = 0;
    loop
        invariant
            type_hashes == hashes_view(output_type_hashes@),
            forall|j: int| 0 <= j < i ==> (#[trigger] type_hashes[j]) != Some(script_hash@),
            exists|k: int|
                i <= k < type_hashes.len() && (#[trigger] type_hashes[k]) == Some(script_hash@),
        decreases output_type_hashes.len() - i,
    {
        match &output_type_hashes[i] {
            Some(h) => {
                if same_key(h, script_hash) {
                    return i;
                }
            },
            None => {},
        }
        i += 1;
    }
}

/// The identity that a creation with this first input and this first output
/// confers.
pub fn compute_identity(first_input: &[u8; 44], output_index: usize) -> (identity: [u8; 32])
    ensures
        identity@ == registry_identity(first_input@, output_index as nat),
{
    let mut preimage: Vec<u8> = Vec::new();
    let mut i: usize = 0;
    while i < CELL_INPUT_LEN
        invariant
            i <= CELL_INPUT_LEN,
            preimage@ == first_input@.subrange(0, i as int),
        decreases CELL_INPUT_LEN - i,
    {
        preimage.push(first_input[i]);
        i += 1;
    }
    assert(preimage@ =~= first_input@);
    push_le64(&mut preimage, output_index as u64);
    ckb_hash(preimage.as_slice())
}

/// Accepts a creation exactly when the predicate's parameter bytes are the
/// identity that the transaction confers.
pub fn check_init_hash(script_args: &[u8], identity: &[u8; 32]) -> (res: Result<(), Error>)
    ensures
        res == init_outcome(script_args@, identity@),
{
    if same_bytes(script_args, identity.as_slice()) {
        Ok(())
    } else {
        Err(Error::InvalidInitHash)
    }
}

/// Checks a creation: the registry's identity must be the digest of the
/// transaction's first input and the position of the registry's first output.
pub fn validate_init_hash(tx: &RegistryTx) -> (res: Result<(), Error>)
    requires
        has_own_output(tx@.output_type_hashes, tx@.script_hash),
    ensures
        res == creation_outcome(tx@),
{
    let first_output_index = load_first_output_index(&tx.output_type_hashes, &tx.script_hash);
    let identity = compute_identity(&tx.first_input, first_output_index);
    check_init_hash(tx.script_args.as_slice(), &identity)
}

/// The registry validator. A transaction that consumes no record of the
/// registry creates it and is held to the creation check; any other is held
/// to the check of its ranges. A creation has an output of the registry, or
/// the validator would not run.
pub fn main(tx: &RegistryTx) -> (res: Result<(), Error>)
    requires
        tx@.group_inputs.len() == 0 ==> has_own_output(tx@.output_type_hashes, tx@.script_hash),
    ensures
        res == registry_outcome(tx@),
{
    if is_init(tx) {
        validate_init_hash(tx)
    } else {
        validate_linked_list(&tx.group_inputs, &tx.group_outputs)
    }
}

/// Creation uniqueness: two creations with different first inputs confer
/// different identities, at whichever outputs, as long as the digest keeps
/// the two digested byte strings apart. A transaction input can be consumed
/// once, so no second transaction can create a registry of the same identity.
pub proof fn lemma_creation_uniqueness(
    first_input_a: Seq<u8>,
    output_index_a: nat,
    first_input_b: Seq<u8>,
    output_index_b: nat,
)
    requires
        first_input_a.len() == CELL_INPUT_LEN,
        first_input_b.len() == CELL_INPUT_LEN,
        first_input_a != first_input_b,
        collision_free(
            identity_preimage(first_input_a, output_index_a),
            identity_preimage(first_input_b, output_index_b),
        ),
    ensures
        registry_identity(first_input_a, output_index_a) != registry_identity(
            first_input_b,
            output_index_b,
        ),
{
    let preimage_a = identity_preimage(first_input_a, output_index_a);
    let preimage_b = identity_preimage(first_input_b, output_index_b);
    assert(preimage_a.subrange(0, CELL_INPUT_LEN as int) =~= first_input_a);
    assert(preimage_b.subrange(0, CELL_INPUT_LEN as int) =~= first_input_b);
}

} // verus!
