//! The lookup authorizer: the lock predicate of a record that carries a
//! configuration value, and of every cell that is guarded through the
//! registry.
//!
//! Its parameters are the registry's identity and a key. The inputs that it
//! guards are those whose lock predicate it is. Where none of them is a
//! record of the registry, the key is looked up in a record that the
//! transaction supplies as evidence, and the value found says which program
//! decides. Where one of them is, the transaction updates that record, and a
//! changed value needs the consent of the program that the old value names.
//!
//! The predicate never runs a program itself. It returns the delegation, and
//! its own verdict is then whatever the program says.

use vstd::prelude::*;
use crate::bytes::{le_bytes, same_bytes};
use crate::error::Error;
use crate::hash::{ckb_hash, digest_of, hash_view};
use crate::hex::{encode_hex, hex_lower};
use crate::key::{key_at, key_value, rank, same_key, Rank, KEY_LEN};
use crate::script::{args_of, code_hash_of, hash_type_of, script_layout, Script};
use vstd::slice::slice_subrange;

verus! {

/// Number of parameter bytes of the authorizer: the registry's identity, then
/// the key.
pub const PARAMS_LEN: usize = 64;

/// Number of payload bytes of a record that carries a value: the key at which
/// the range stops, then the value.
pub const RECORD_LEN: usize = 64;

/// Least number of bytes in a witness that delegates: two bytes of index and
/// a descriptor without parameter bytes.
pub const MIN_WITNESS_LEN: usize = 55;

/// A cell as the authorizer reads it.
#[derive(Debug, Clone, PartialEq, Eq)]
pub struct Cell {
    /// The cell's lock predicate.
    pub lock: Script,
    /// The fingerprint of the cell's type predicate, where it has one.
    pub type_hash: Option<[u8; 32]>,
    /// The cell's payload.
    pub data: Vec<u8>,
}

/// A cell as a value of mathematics: its lock predicate serialised, the
/// fingerprint of its type predicate, and its payload.
pub struct CellView {
    pub lock: Seq<u8>,
    pub type_hash: Option<Seq<u8>>,
    pub data: Seq<u8>,
}

impl View for Cell {
    type V = CellView;

    open spec fn view(&self) -> CellView {
        CellView { lock: self.lock@, type_hash: hash_view(self.type_hash), data: self.data@ }
    }
}

/// A list of cells as a value of mathematics.
pub open spec fn cells_view(cells: Seq<Cell>) -> Seq<CellView> {
    Seq::new(cells.len(), |i: int| cells[i]@)
}

/// What the authorizer reads of the transaction it runs in.
#[derive(Debug, Clone, PartialEq, Eq)]
pub struct LockTx {
    /// The running predicate.
    pub script: Script,
    /// The inputs of the transaction, in order. The running predicate
    /// guards those whose lock predicate it is.
    pub inputs: Vec<Cell>,
    /// The outputs of the transaction, in order.
    pub outputs: Vec<Cell>,
    /// The cell dependencies of the transaction, in order.
    pub cell_deps: Vec<Cell>,
    /// The witness of the first input that the running predicate guards,
    /// where the transaction has one.
    pub group_witness: Option<Vec<u8>>,
}

/// What the authorizer reads, as a value of mathematics.
pub struct LockTxView {
    pub script: Seq<u8>,
    pub inputs: Seq<CellView>,
    pub outputs: Seq<CellView>,
    pub cell_deps: Seq<CellView>,
    pub group_witness: Option<Seq<u8>>,
}

impl View for LockTx {
    type V = LockTxView;

    open spec fn view(&self) -> LockTxView {
        LockTxView {
            script: self.script@,
            inputs: cells_view(self.inputs@),
            outputs: cells_view(self.outputs@),
            cell_deps: cells_view(self.cell_deps@),
            group_witness: witness_view(self.group_witness),
        }
    }
}

/// How a code reference is to be matched against the cells that hold code.
#[derive(Debug, Clone, Copy, PartialEq, Eq)]
pub enum HashKind {
    /// By the digest of the code itself.
    Data,
    /// By the fingerprint of the type predicate of the cell that holds it.
    Type,
}

/// A handover of the decision to another program.
#[derive(Debug, Clone, PartialEq, Eq)]
pub struct Delegation {
    /// The code reference of the program.
    pub code_hash: [u8; 32],
    /// How the code reference is to be matched.
    pub hash_type: HashKind,
    /// First argument: the program's parameter bytes, in hexadecimal.
    pub args_hex: String,
    /// Second argument: the index of the witness meant for the program, its
    /// two bytes in hexadecimal, the low one first.
    pub witness_index_hex: String,
}

/// A delegation as a value of mathematics.
pub struct DelegationView {
    pub code_hash: Seq<u8>,
    pub hash_type: HashKind,
    pub args_hex: Seq<char>,
    pub witness_index_hex: Seq<char>,
}

impl View for Delegation {
    type V = DelegationView;

    open spec fn view(&self) -> DelegationView {
        DelegationView {
            code_hash: self.code_hash@,
            hash_type: self.hash_type,
            args_hex: self.args_hex@,
            witness_index_hex: self.witness_index_hex@,
        }
    }
}

/// What the authorizer says of a transaction that it does not reject.
#[derive(Debug, Clone, PartialEq, Eq)]
pub enum Verdict {
    /// The transaction is accepted as it stands.
    Accept,
    /// The transaction is accepted if the program named here accepts it.
    Delegate(Delegation),
}

/// A verdict as a value of mathematics.
pub enum VerdictView {
    Accept,
    Delegate(DelegationView),
}

impl View for Verdict {
    type V = VerdictView;

    open spec fn view(&self) -> VerdictView {
        match self {
            Verdict::Accept => VerdictView::Accept,
            Verdict::Delegate(d) => VerdictView::Delegate(d@),
        }
    }
}

/// The result of the authorizer as a value of mathematics.
pub open spec fn verdict_view(res: Result<Verdict, Error>) -> Result<VerdictView, Error> {
    match res {
        Ok(v) => Ok(v@),
        Err(e) => Err(e),
    }
}

/// The witness as a value of mathematics.
pub open spec fn witness_view(witness: Option<Vec<u8>>) -> Option<Seq<u8>> {
    match witness {
        Some(w) => Some(w@),
        None => None,
    }
}

/// The registry's identity in the parameters of the authorizer `script`.
pub open spec fn registry_of(script: Seq<u8>) -> Seq<u8> {
    args_of(script).subrange(0, KEY_LEN as int)
}

/// The key in the parameters of the authorizer `script`.
pub open spec fn delegate_key_of(script: Seq<u8>) -> Seq<u8> {
    args_of(script).subrange(KEY_LEN as int, PARAMS_LEN as int)
}

/// The value that a record's payload carries.
pub open spec fn value_of(data: Seq<u8>) -> Seq<u8> {
    data.subrange(KEY_LEN as int, RECORD_LEN as int)
}

/// The authorizer `script` guards the cell, and the cell is a record of the
/// registry that the authorizer names: the cell's lock predicate is `script`,
/// and its type predicate has the registry's identity as fingerprint.
pub open spec fn guarded_record(cell: CellView, script: Seq<u8>) -> bool {
    cell.lock == script && cell.type_hash == Some(registry_of(script))
}

/// The transaction only refers to the registry: none of the inputs that the
/// authorizer guards is a record of it.
pub open spec fn is_external_reference(tx: LockTxView) -> bool {
    forall|i: int| 0 <= i < tx.inputs.len() ==> !guarded_record(#[trigger] tx.inputs[i], tx.script)
}

/// `lock` is an authorizer of the same family as `script`: the same code,
/// matched the same way, with parameters of the authorizer's length.
pub open spec fn same_family(script: Seq<u8>, lock: Seq<u8>) -> bool {
    &&& code_hash_of(lock) == code_hash_of(script)
    &&& hash_type_of(lock) == hash_type_of(script)
    &&& args_of(lock).len() == PARAMS_LEN
}

/// The range of the record `evidence` answers for `key`: it begins at the
/// key, or before it and does not stop before it.
pub open spec fn answers_for(evidence: CellView, key: nat) -> bool {
    let start = key_value(delegate_key_of(evidence.lock));
    let end = key_value(evidence.data.subrange(0, KEY_LEN as int));
    start == key || (start < key && key <= end)
}

/// What the lookup of the authorizer's key in the first cell dependency
/// gives: the value that authorises, or the reason for which the evidence is
/// refused. A record that begins at the key gives its value. A record that
/// begins before the key and does not stop before it says that the key has no
/// value of its own; the key then stands for itself.
pub open spec fn lookup_outcome(tx: LockTxView) -> Result<Seq<u8>, Error> {
    if tx.cell_deps.len() == 0 {
        Err(Error::IndexOutOfBound)
    } else {
        let evidence = tx.cell_deps[0];
        let key = key_value(delegate_key_of(tx.script));
        if evidence.type_hash != Some(registry_of(tx.script)) {
            Err(Error::InvalidCellDepTypeScript)
        } else if !same_family(tx.script, evidence.lock) {
            Err(Error::InvalidCellDepRef)
        } else if evidence.data.len() != RECORD_LEN {
            Err(Error::InvalidDataLength)
        } else if key_value(delegate_key_of(evidence.lock)) == key {
            Ok(value_of(evidence.data))
        } else if answers_for(evidence, key) {
            Ok(delegate_key_of(tx.script))
        } else {
            Err(Error::InvalidCellDepRef)
        }
    }
}

/// Of the inputs that the authorizer `script` guards, exactly one is a
/// record of the registry, and `index` is its position in the transaction.
pub open spec fn sole_registry_input(inputs: Seq<CellView>, script: Seq<u8>, index: int) -> bool {
    &&& 0 <= index < inputs.len()
    &&& guarded_record(inputs[index], script)
    &&& forall|j: int|
        0 <= j < inputs.len() && j != index ==> !guarded_record(#[trigger] inputs[j], script)
}

/// How many of the inputs are records of the registry that the authorizer
/// `script` guards.
pub open spec fn guarded_record_count(inputs: Seq<CellView>, script: Seq<u8>) -> nat
    decreases inputs.len(),
{
    if inputs.len() == 0 {
        0
    } else if guarded_record(inputs.last(), script) {
        guarded_record_count(inputs.drop_last(), script) + 1
    } else {
        guarded_record_count(inputs.drop_last(), script)
    }
}

/// What the update of the record at `index` needs: nothing (`None`) where
/// the value stays, the consent of the old value where it changes; or the
/// reason for which the update is refused.
pub open spec fn update_at(tx: LockTxView, index: int) -> Result<Option<Seq<u8>>, Error> {
    if index >= tx.outputs.len() {
        Err(Error::IndexOutOfBound)
    } else if tx.outputs[index].lock != tx.script {
        Err(Error::InvalidOutputLockScript)
    } else if tx.inputs[index].data.len() < RECORD_LEN || tx.outputs[index].data.len()
        < RECORD_LEN {
        Err(Error::InvalidDataLength)
    } else if value_of(tx.inputs[index].data) == value_of(tx.outputs[index].data) {
        Ok(None)
    } else {
        Ok(Some(value_of(tx.inputs[index].data)))
    }
}

/// What the update that the transaction makes needs, or the reason for which
/// it is refused. Exactly one of the inputs that the authorizer guards must
/// be a record of the registry; records among the other inputs do not count.
pub open spec fn update_outcome(tx: LockTxView) -> Result<Option<Seq<u8>>, Error> {
    if exists|index: int| sole_registry_input(tx.inputs, tx.script, index) {
        update_at(tx, choose|index: int| sole_registry_input(tx.inputs, tx.script, index))
    } else {
        Err(Error::InvalidInputCount)
    }
}

/// The witness is long enough and holds, behind its first two bytes, exactly
/// one descriptor.
pub open spec fn holds_descriptor(witness: Seq<u8>) -> bool {
    witness.len() >= MIN_WITNESS_LEN && script_layout(witness.skip(2))
}

/// The number that the first two bytes of the witness give, the low byte
/// first.
pub open spec fn witness_index_of(witness: Seq<u8>) -> nat {
    witness[0] as nat + 256 * (witness[1] as nat)
}

/// The hash kind that a descriptor's byte stands for.
pub open spec fn hash_kind_of(byte: u8) -> HashKind {
    if byte == 1 {
        HashKind::Type
    } else {
        HashKind::Data
    }
}

/// The delegation to the program that `script` describes, with the witness
/// at `witness_index` meant for it.
pub open spec fn delegation_of(script: Seq<u8>, witness_index: nat) -> DelegationView {
    DelegationView {
        code_hash: code_hash_of(script),
        hash_type: hash_kind_of(hash_type_of(script)),
        args_hex: hex_lower(args_of(script)),
        witness_index_hex: hex_lower(le_bytes(witness_index, 2)),
    }
}

/// The delegation to the program that `script` describes, granted only where
/// the descriptor's fingerprint `script_hash` is the value `token` that
/// authorises.
pub open spec fn bound_delegation(
    script: Seq<u8>,
    witness_index: nat,
    script_hash: Seq<u8>,
    token: Seq<u8>,
) -> Result<DelegationView, Error> {
    if script_hash == token {
        Ok(delegation_of(script, witness_index))
    } else {
        Err(Error::InvalidWrappedScriptHash)
    }
}

/// What the witness yields under the value `token` that authorises: the
/// delegation to the program that the witness describes, if the program's
/// fingerprint is `token`.
pub open spec fn delegation_outcome(token: Seq<u8>, witness: Option<Seq<u8>>) -> Result<
    DelegationView,
    Error,
> {
    match witness {
        None => Err(Error::IndexOutOfBound),
        Some(w) => if !holds_descriptor(w) {
            Err(Error::InvalidWitnessFormat)
        } else {
            bound_delegation(w.skip(2), witness_index_of(w), digest_of(w.skip(2)), token)
        },
    }
}

/// The verdict once the value that authorises is known.
pub open spec fn delegated(token: Seq<u8>, witness: Option<Seq<u8>>) -> Result<VerdictView, Error> {
    match delegation_outcome(token, witness) {
        Ok(d) => Ok(VerdictView::Delegate(d)),
        Err(e) => Err(e),
    }
}

/// The verdict on a transaction that only refers to the registry.
pub open spec fn reference_outcome(tx: LockTxView) -> Result<VerdictView, Error> {
    match lookup_outcome(tx) {
        Ok(token) => delegated(token, tx.group_witness),
        Err(e) => Err(e),
    }
}

/// The verdict on a transaction that updates a record.
pub open spec fn config_outcome(tx: LockTxView) -> Result<VerdictView, Error> {
    match update_outcome(tx) {
        Ok(None) => Ok(VerdictView::Accept),
        Ok(Some(token)) => delegated(token, tx.group_witness),
        Err(e) => Err(e),
    }
}

/// The verdict of the authorizer on a transaction.
pub open spec fn authorizer_outcome(tx: LockTxView) -> Result<VerdictView, Error> {
    if args_of(tx.script).len() != PARAMS_LEN {
        Err(Error::InvalidArgsLength)
    } else if is_external_reference(tx) {
        reference_outcome(tx)
    } else {
        config_outcome(tx)
    }
}

/// The fingerprint of a program: the digest of its serialised descriptor.
pub fn calc_script_hash(script: &Script) -> (hash: [u8; 32])
    ensures
        hash@ == digest_of(script@),
{
    ckb_hash(script.as_slice())
}

/// Reads a witness that delegates: the index of the witness meant for the
/// program, then the program's descriptor.
pub fn parse_witness(witness: &[u8]) -> (res: Result<(Script, u16), Error>)
    ensures
        match res {
            Ok((script, index)) => {
                &&& holds_descriptor(witness@)
                &&& script@ == witness@.skip(2)
                &&& index == witness_index_of(witness@)
            },
            Err(e) => e == Error::InvalidWitnessFormat && !holds_descriptor(witness@),
        },
{
    if witness.len() < MIN_WITNESS_LEN {
        return Err(Error::InvalidWitnessFormat);
    }
    let low: u16 = witness[0] as u16;
    let high: u16 = witness[1] as u16;
    let wrapped_script_witness_index: u16 = low + 256 * high;
    let wrapped_script_data = slice_subrange(witness, 2, witness.len());
    match Script::from_slice(wrapped_script_data) {
        Some(wrapped_script) => Ok((wrapped_script, wrapped_script_witness_index)),
        None => Err(Error::InvalidWitnessFormat),
    }
}

/// Grants the delegation to the program that `script` describes, if the
/// program's fingerprint `script_hash` is the value `wrapped_script_hash`
/// that authorises.
pub fn delegate_to(
    script: &Script,
    witness_index: u16,
    script_hash: &[u8; 32],
    wrapped_script_hash: &[u8; 32],
) -> (res: Result<Delegation, Error>)
    ensures
        match res {
            Ok(d) => Ok::<DelegationView, Error>(d@),
            Err(e) => Err::<DelegationView, Error>(e),
        } == bound_delegation(
            script@,
            witness_index as nat,
            script_hash@,
            wrapped_script_hash@,
        ),
{
    if !same_key(script_hash, wrapped_script_hash) {
        return Err(Error::InvalidWrappedScriptHash);
    }
    let hash_type = if script.hash_type() == 1 {
        HashKind::Type
    } else {
        HashKind::Data
    };
    let index_bytes: [u8; 2] = [(witness_index % 256) as u8, (witness_index / 256) as u8];
    proof {
        reveal_with_fuel(le_bytes, 3);
        assert(index_bytes@ =~= le_bytes(witness_index as nat, 2));
    }
    let arg0 = encode_hex(script.args());
    let arg1 = encode_hex(index_bytes.as_slice());
    Ok(
        Delegation {
            code_hash: script.code_hash(),
            hash_type,
            args_hex: arg0,
            witness_index_hex: arg1,
        },
    )
}

/// Delegated execution under the value `wrapped_script_hash`: the witness of
/// the first guarded input must describe a program with that fingerprint.
pub fn exec_wrapped_script_inner(wrapped_script_hash: &[u8; 32], tx: &LockTx) -> (res: Result<
    Verdict,
    Error,
>)
    ensures
        verdict_view(res) == delegated(wrapped_script_hash@, tx@.group_witness),
{
    let witness = match &tx.group_witness {
        Some(w) => w,
        None => {
            return Err(Error::IndexOutOfBound);
        },
    };
    let (wrapped_script, wrapped_script_witness_index) = match parse_witness(witness.as_slice()) {
        Ok(parsed) => parsed,
        Err(e) => {
            return Err(e);
        },
    };
    let script_hash = calc_script_hash(&wrapped_script);
    match delegate_to(
        &wrapped_script,
        wrapped_script_witness_index,
        &script_hash,
        wrapped_script_hash,
    ) {
        Ok(d) => Ok(Verdict::Delegate(d)),
        Err(e) => Err(e),
    }
}

/// Whether the authorizer `script` guards the cell and the cell is a record
/// of the registry with the identity `registry`.
pub fn is_guarded_record(cell: &Cell, script: &Script, registry: &[u8; 32]) -> (r: bool)
    requires
        registry@ == registry_of(script@),
    ensures
        r == guarded_record(cell@, script@),
{
    if !same_bytes(cell.lock.as_slice(), script.as_slice()) {
        return false;
    }
    match &cell.type_hash {
        Some(hash) => same_key(hash, registry),
        None => false,
    }
}

/// Whether the transaction only refers to the registry: none of the inputs
/// that the authorizer guards is a record of it.
pub fn is_delegate_to_wrapped(tx: &LockTx) -> (r: bool)
    requires
        args_of(tx@.script).len() == PARAMS_LEN,
    ensures
        r == is_external_reference(tx@),
{
    let global_registry_script_hash = key_at(tx.script.args(), 0);
    let ghost inputs = tx@.inputs;
    let mut i: usize = 0;
    while i < tx.inputs.len()
        invariant
            i <= tx.inputs@.len(),
            inputs == tx@.inputs,
            global_registry_script_hash@ == registry_of(tx@.script),
            forall|j: int| 0 <= j < i ==> !guarded_record(#[trigger] inputs[j], tx@.script),
        decreases tx.inputs.len() - i,
    {
        let found = is_guarded_record(&tx.inputs[i], &tx.script, &global_registry_script_hash);
        assert(found == guarded_record(inputs[i as int], tx@.script));
        if found {
            return false;
        }
        i += 1;
    }
    true
}

/// The lookup: the record given as the first cell dependency must be a
/// record of the registry, guarded by an authorizer of this family, and its
/// range must answer for the key. The value found then authorises the
/// delegation.
pub fn exec_wrapped_script(tx: &LockTx) -> (res: Result<Verdict, Error>)
    requires
        args_of(tx@.script).len() == PARAMS_LEN,
    ensures
        verdict_view(res) == reference_outcome(tx@),
{
    let current_args = tx.script.args();
    let global_registry_script_hash = key_at(current_args, 0);
    let wrapped_script_hash = key_at(current_args, KEY_LEN);
    if tx.cell_deps.len() == 0 {
        return Err(Error::IndexOutOfBound);
    }
    let evidence = &tx.cell_deps[0];
    let is_record = match &evidence.type_hash {
        Some(h) => same_key(h, &global_registry_script_hash),
        None => false,
    };
    if !is_record {
        return Err(Error::InvalidCellDepTypeScript);
    }
    let cell_dep_lock_script = &evidence.lock;
    let lock_args = cell_dep_lock_script.args();
    if !same_key(&cell_dep_lock_script.code_hash(), &tx.script.code_hash())
        || cell_dep_lock_script.hash_type() != tx.script.hash_type() || lock_args.len()
        != PARAMS_LEN {
        return Err(Error::InvalidCellDepRef);
    }
    if evidence.data.len() != RECORD_LEN {
        return Err(Error::InvalidDataLength);
    }
    let start = key_at(lock_args, KEY_LEN);
    match rank(&start, &wrapped_script_hash) {
        Rank::Equal => {
            let config_wrapped_script_hash = key_at(evidence.data.as_slice(), KEY_LEN);
            exec_wrapped_script_inner(&config_wrapped_script_hash, tx)
        },
        Rank::Less => {
            let end = key_at(evidence.data.as_slice(), 0);
            match rank(&end, &wrapped_script_hash) {
                Rank::Less => Err(Error::InvalidCellDepRef),
                _ => exec_wrapped_script_inner(&wrapped_script_hash, tx),
            }
        },
        Rank::Greater => Err(Error::InvalidCellDepRef),
    }
}

/// The update: of the inputs that the authorizer guards exactly one is a
/// record of the registry, the output at its position in the transaction is
/// guarded by this same authorizer, and a value that changes needs the
/// consent of the program that the old value names.
pub fn validate_config_value(tx: &LockTx) -> (res: Result<Verdict, Error>)
    requires
        args_of(tx@.script).len() == PARAMS_LEN,
    ensures
        verdict_view(res) == config_outcome(tx@),
        res == Err::<Verdict, Error>(Error::InvalidInputCount) <==> guarded_record_count(
            tx@.inputs,
            tx@.script,
        ) != 1,
{
    proof {
        lemma_input_count_decides(tx@);
    }
    let global_registry_script_hash = key_at(tx.script.args(), 0);
    let ghost inputs = tx@.inputs;
    let mut found: Option<usize> = None;
    let mut i: usize = 0;
    while i < tx.inputs.len()
        invariant
            i <= tx.inputs@.len(),
            inputs == tx@.inputs,
            global_registry_script_hash@ == registry_of(tx@.script),
            config_outcome(tx@) == Err::<VerdictView, Error>(Error::InvalidInputCount)
                <==> guarded_record_count(tx@.inputs, tx@.script) != 1,
            match found {
                Some(f) => f < i && guarded_record(inputs[f as int], tx@.script) && forall|j: int|
                    0 <= j < i && j != f ==> !guarded_record(#[trigger] inputs[j], tx@.script),
                None => forall|j: int|
                    0 <= j < i ==> !guarded_record(#[trigger] inputs[j], tx@.script),
            },
        decreases tx.inputs.len() - i,
    {
        let is_record = is_guarded_record(&tx.inputs[i], &tx.script, &global_registry_script_hash);
        assert(is_record == guarded_record(inputs[i as int], tx@.script));
        if is_record {
            if found.is_some() {
                return Err(Error::InvalidInputCount);
            }
            found = Some(i);
        }
        i += 1;
    }
    let index = match found {
        Some(f) => f,
        None => {
            return Err(Error::InvalidInputCount);
        },
    };
    assert(sole_registry_input(inputs, tx@.script, index as int));
    if index >= tx.outputs.len() {
        return Err(Error::IndexOutOfBound);
    }
    let output = &tx.outputs[index];
    if !same_bytes(tx.script.as_slice(), output.lock.as_slice()) {
        return Err(Error::InvalidOutputLockScript);
    }
    let input_data = &tx.inputs[index].data;
    let output_data = &output.data;
    if input_data.len() < RECORD_LEN || output_data.len() < RECORD_LEN {
        return Err(Error::InvalidDataLength);
    }
    let old_value = key_at(input_data.as_slice(), KEY_LEN);
    let new_value = key_at(output_data.as_slice(), KEY_LEN);
    if same_key(&old_value, &new_value) {
        Ok(Verdict::Accept)
    } else {
        exec_wrapped_script_inner(&old_value, tx)
    }
}

/// The lookup authorizer. Its parameters must be the registry's identity and
/// a key. A transaction that only refers to the registry is held to the
/// lookup, one that updates a record to the check of the update.
pub fn main(tx: &LockTx) -> (res: Result<Verdict, Error>)
    ensures
        verdict_view(res) == authorizer_outcome(tx@),
{
    if tx.script.args().len() != PARAMS_LEN {
        return Err(Error::InvalidArgsLength);
    }
    if is_delegate_to_wrapped(tx) {
        exec_wrapped_script(tx)
    } else {
        validate_config_value(tx)
    }
}

/// No input is counted exactly when none is a guarded record.
proof fn lemma_count_zero(inputs: Seq<CellView>, script: Seq<u8>)
    ensures
        guarded_record_count(inputs, script) == 0 <==> forall|j: int|
            0 <= j < inputs.len() ==> !guarded_record(#[trigger] inputs[j], script),
    decreases inputs.len(),
{
    if inputs.len() > 0 {
        let before = inputs.drop_last();
        lemma_count_zero(before, script);
        assert(forall|j: int| 0 <= j < before.len() ==> before[j] == inputs[j]);
    }
}

/// One input is counted exactly when one input is the sole guarded record.
proof fn lemma_count_one(inputs: Seq<CellView>, script: Seq<u8>)
    ensures
        guarded_record_count(inputs, script) == 1 <==> exists|index: int|
            sole_registry_input(inputs, script, index),
    decreases inputs.len(),
{
    if inputs.len() > 0 {
        let before = inputs.drop_last();
        let last = inputs.len() - 1;
        lemma_count_zero(before, script);
        lemma_count_one(before, script);
        assert(forall|j: int| 0 <= j < before.len() ==> before[j] == inputs[j]);
        if guarded_record_count(inputs, script) == 1 {
            if guarded_record(inputs.last(), script) {
                assert(sole_registry_input(inputs, script, last));
            } else {
                let index = choose|index: int| sole_registry_input(before, script, index);
                assert(sole_registry_input(inputs, script, index));
            }
        }
        if exists|index: int| sole_registry_input(inputs, script, index) {
            let index = choose|index: int| sole_registry_input(inputs, script, index);
            if index == last {
                assert(forall|j: int|
                    0 <= j < before.len() ==> !guarded_record(#[trigger] before[j], script));
            } else {
                assert(sole_registry_input(before, script, index));
            }
        }
    }
}

/// The count of records decides: an update is refused for the number of its
/// records exactly when the inputs that the authorizer guards hold no record
/// of the registry, or more than one. Records of the registry among the
/// inputs that it does not guard make no difference.
pub proof fn lemma_input_count_decides(tx: LockTxView)
    ensures
        config_outcome(tx) == Err::<VerdictView, Error>(Error::InvalidInputCount)
            <==> guarded_record_count(tx.inputs, tx.script) != 1,
        update_outcome(tx) == Err::<Option<Seq<u8>>, Error>(Error::InvalidInputCount)
            <==> guarded_record_count(tx.inputs, tx.script) != 1,
{
    lemma_count_one(tx.inputs, tx.script);
}

/// Idempotent no-op update: where exactly one of the inputs that the
/// authorizer guards is a record of the registry, and the transaction leaves
/// the record's value as it was, no delegation is asked for, and the verdict
/// is the same whatever the witness holds, or whether there is one.
pub proof fn lemma_unchanged_value_ignores_witness(
    tx: LockTxView,
    index: int,
    other_witness: Option<Seq<u8>>,
)
    requires
        args_of(tx.script).len() == PARAMS_LEN,
        sole_registry_input(tx.inputs, tx.script, index),
        index < tx.outputs.len(),
        tx.inputs[index].data.len() >= RECORD_LEN,
        tx.outputs[index].data.len() >= RECORD_LEN,
        value_of(tx.inputs[index].data) == value_of(tx.outputs[index].data),
    ensures
        authorizer_outcome(tx) == authorizer_outcome(
            (LockTxView { group_witness: other_witness, ..tx }),
        ),
        !(authorizer_outcome(tx) matches Ok(VerdictView::Delegate(_))),
        tx.outputs[index].lock == tx.script ==> authorizer_outcome(tx) == Ok::<VerdictView, Error>(
            VerdictView::Accept,
        ),
{
}

/// Lookup soundness: where the transaction only refers to the registry and
/// is not rejected, its first cell dependency is a record of the registry,
/// guarded by an authorizer of this family, and the record's range answers
/// for the authorizer's key. If the record's range is not empty, as the
/// registry validator asks of every record it lets through, the key lies
/// between the two keys of the record.
pub proof fn lemma_lookup_soundness(tx: LockTxView)
    requires
        is_external_reference(tx),
        authorizer_outcome(tx) is Ok,
    ensures
        tx.cell_deps.len() > 0,
        tx.cell_deps[0].type_hash == Some(registry_of(tx.script)),
        same_family(tx.script, tx.cell_deps[0].lock),
        tx.cell_deps[0].data.len() == RECORD_LEN,
        answers_for(tx.cell_deps[0], key_value(delegate_key_of(tx.script))),
        ({
            let start = key_value(delegate_key_of(tx.cell_deps[0].lock));
            let end = key_value(tx.cell_deps[0].data.subrange(0, KEY_LEN as int));
            let key = key_value(delegate_key_of(tx.script));
            start < end ==> start <= key <= end
        }),
{
}

/// Fingerprint binding: where the authorizer delegates, the witness holds
/// the descriptor of the program delegated to, and the descriptor's digest
/// is the value that authorises: the value looked up where the transaction
/// only refers to the registry, the record's old value where it updates one.
pub proof fn lemma_fingerprint_binding(tx: LockTxView, delegation: DelegationView)
    requires
        authorizer_outcome(tx) == Ok::<VerdictView, Error>(VerdictView::Delegate(delegation)),
    ensures
        tx.group_witness matches Some(w) && holds_descriptor(w) && delegation == delegation_of(
            w.skip(2),
            witness_index_of(w),
        ) && if is_external_reference(tx) {
            lookup_outcome(tx) == Ok::<Seq<u8>, Error>(digest_of(w.skip(2)))
        } else {
            update_outcome(tx) == Ok::<Option<Seq<u8>>, Error>(Some(digest_of(w.skip(2))))
        },
{
}

} // verus!
