use ckb_std::ckb_types::packed::{Byte, CellInput, OutPoint, Script};
use ckb_std::ckb_types::prelude::{Builder, Entity};
use range_registry::error::Error;
use range_registry::global_registry::{
    check_init_hash, compute_identity, cover_input, is_init, load_first_output_index, main,
    validate_init_hash, validate_linked_list, RangeCell, RegistryTx,
};
use range_registry::hash::ckb_hash;

fn key(byte: u8) -> [u8; 32] {
    [byte; 32]
}

fn record(start: u8, end: u8) -> RangeCell {
    RangeCell { lock_args: vec![start; 32], data: vec![end; 32] }
}

fn blake2b(parts: &[&[u8]]) -> [u8; 32] {
    let mut hash = [0u8; 32];
    let mut blake2b = blake2b_rs::Blake2bBuilder::new(32).personal(b"ckb-default-hash").build();
    for part in parts {
        blake2b.update(part);
    }
    blake2b.finalize(&mut hash);
    hash
}

fn first_input(tx_byte: u8, index: u32) -> [u8; 44] {
    let out_point = OutPoint::new_builder().tx_hash([tx_byte; 32]).index(index).build();
    let input = CellInput::new_builder().previous_output(out_point).build();
    input.as_slice().try_into().unwrap()
}

fn type_script(code_byte: u8, args: &[u8]) -> Vec<u8> {
    Script::new_builder()
        .code_hash([code_byte; 32])
        .hash_type(Byte::new(1))
        .args(args)
        .build()
        .as_slice()
        .to_vec()
}

fn creation(script_args: Vec<u8>, input: [u8; 44], output_type_hashes: Vec<Option<[u8; 32]>>, own: [u8; 32]) -> RegistryTx {
    RegistryTx {
        script_args,
        script_hash: own,
        first_input: input,
        output_type_hashes,
        group_inputs: vec![],
        group_outputs: vec![record(0, 255)],
    }
}

fn mutation(inputs: Vec<RangeCell>, outputs: Vec<RangeCell>) -> RegistryTx {
    RegistryTx {
        script_args: vec![7u8; 32],
        script_hash: key(9),
        first_input: first_input(1, 0),
        output_type_hashes: vec![],
        group_inputs: inputs,
        group_outputs: outputs,
    }
}

#[test]
fn test_init_global_registry() {
    let input = first_input(0x11, 0);
    let hash = blake2b(&[&input, &0u64.to_le_bytes()]);
    let registry_script = type_script(0xaa, &hash);
    let registry_script_hash = ckb_hash(&registry_script);
    let tx = RegistryTx {
        script_args: hash.to_vec(),
        script_hash: registry_script_hash,
        first_input: input,
        output_type_hashes: vec![Some(registry_script_hash), None],
        group_inputs: vec![],
        group_outputs: vec![RangeCell { lock_args: vec![0u8; 32], data: vec![255u8; 32] }],
    };
    assert!(is_init(&tx));
    assert_eq!(main(&tx), Ok(()));
}

#[test]
fn test_update_global_registry() {
    let inputs = vec![RangeCell { lock_args: vec![0u8; 32], data: vec![255u8; 32] }];
    let outputs = vec![
        RangeCell { lock_args: vec![0u8; 32], data: vec![100u8; 32] },
        RangeCell { lock_args: vec![100u8; 32], data: vec![200u8; 32] },
        RangeCell { lock_args: vec![200u8; 32], data: vec![255u8; 32] },
    ];
    let tx = mutation(inputs, outputs);
    assert!(!is_init(&tx));
    assert_eq!(main(&tx), Ok(()));
}

#[test]
fn creation_with_a_foreign_identity_is_rejected() {
    let input = first_input(0x11, 0);
    let own = key(0x42);
    let mut identity = blake2b(&[&input, &0u64.to_le_bytes()]);
    identity[31] ^= 1;
    let tx = creation(identity.to_vec(), input, vec![Some(own)], own);
    assert_eq!(validate_init_hash(&tx), Err(Error::InvalidInitHash));
    assert_eq!(main(&tx), Err(Error::InvalidInitHash));
}

#[test]
fn creation_identity_must_have_exactly_the_digest_length() {
    let input = first_input(0x11, 0);
    let own = key(0x42);
    let identity = blake2b(&[&input, &0u64.to_le_bytes()]);
    let mut longer = identity.to_vec();
    longer.push(0);
    let tx = creation(longer, input, vec![Some(own)], own);
    assert_eq!(validate_init_hash(&tx), Err(Error::InvalidInitHash));
    let tx = creation(identity[..31].to_vec(), input, vec![Some(own)], own);
    assert_eq!(validate_init_hash(&tx), Err(Error::InvalidInitHash));
}

#[test]
fn creation_identity_binds_the_position_of_the_first_own_output() {
    let input = first_input(0x33, 5);
    let own = key(0x42);
    let hashes = vec![None, Some(key(0x41)), Some(own), Some(own)];
    assert_eq!(load_first_output_index(&hashes, &own), 2);
    let at_two = blake2b(&[&input, &2u64.to_le_bytes()]);
    let at_zero = blake2b(&[&input, &0u64.to_le_bytes()]);
    assert_eq!(validate_init_hash(&creation(at_two.to_vec(), input, hashes.clone(), own)), Ok(()));
    assert_eq!(
        validate_init_hash(&creation(at_zero.to_vec(), input, hashes, own)),
        Err(Error::InvalidInitHash)
    );
}

#[test]
fn compute_identity_digests_the_input_and_the_index_as_eight_low_first_bytes() {
    let input = first_input(0x5a, 7);
    let mut preimage = input.to_vec();
    preimage.extend_from_slice(&[0x02, 0x01, 0, 0, 0, 0, 0, 0]);
    assert_eq!(compute_identity(&input, 258), blake2b(&[&preimage]));
    assert_eq!(compute_identity(&input, 258), ckb_hash(&preimage));
    assert_eq!(compute_identity(&input, 0), blake2b(&[&input, &[0u8; 8]]));
}

#[test]
fn check_init_hash_compares_all_bytes() {
    let identity = key(3);
    assert_eq!(check_init_hash(&identity, &identity), Ok(()));
    assert_eq!(check_init_hash(&[3u8; 33], &identity), Err(Error::InvalidInitHash));
    assert_eq!(check_init_hash(&[], &identity), Err(Error::InvalidInitHash));
    let mut other = identity;
    other[0] = 4;
    assert_eq!(check_init_hash(&other, &identity), Err(Error::InvalidInitHash));
}

#[test]
fn different_first_inputs_give_different_identities() {
    let a = compute_identity(&first_input(1, 0), 0);
    let b = compute_identity(&first_input(2, 0), 0);
    let c = compute_identity(&first_input(1, 1), 0);
    let d = compute_identity(&first_input(1, 0), 1);
    assert_ne!(a, b);
    assert_ne!(a, c);
    assert_ne!(a, d);
}

#[test]
fn split_in_order_is_accepted_and_reversed_is_rejected() {
    let inputs = vec![record(0x00, 0xff)];
    let in_order = vec![record(0x00, 0x64), record(0x64, 0xff)];
    let reversed = vec![record(0x64, 0xff), record(0x00, 0x64)];
    assert_eq!(validate_linked_list(&inputs, &in_order), Ok(()));
    assert_eq!(validate_linked_list(&inputs, &reversed), Err(Error::InvalidLinkedList));
}

#[test]
fn output_with_end_equal_to_start_is_rejected() {
    let inputs = vec![record(0x00, 0xff)];
    let outputs = vec![record(0x00, 0x00), record(0x00, 0xff)];
    assert_eq!(validate_linked_list(&inputs, &outputs), Err(Error::InvalidLinkedList));
    let inputs = vec![record(0x10, 0x10)];
    let outputs = vec![record(0x10, 0x10)];
    assert_eq!(validate_linked_list(&inputs, &outputs), Err(Error::InvalidLinkedList));
}

#[test]
fn output_with_end_before_start_is_rejected() {
    let inputs = vec![record(0x20, 0xff)];
    let outputs = vec![record(0x20, 0x10), record(0x10, 0xff)];
    assert_eq!(validate_linked_list(&inputs, &outputs), Err(Error::InvalidLinkedList));
}

#[test]
fn unchanged_record_is_accepted() {
    let inputs = vec![record(0x00, 0xff)];
    assert_eq!(validate_linked_list(&inputs, &inputs.clone()), Ok(()));
}

#[test]
fn several_inputs_share_one_output_cursor() {
    let inputs = vec![record(0x00, 0x40), record(0x80, 0xc0)];
    let outputs = vec![record(0x00, 0x10), record(0x10, 0x40), record(0x80, 0xa0), record(0xa0, 0xc0)];
    assert_eq!(validate_linked_list(&inputs, &outputs), Ok(()));
    let swapped = vec![record(0x80, 0xa0), record(0xa0, 0xc0), record(0x00, 0x10), record(0x10, 0x40)];
    assert_eq!(validate_linked_list(&inputs, &swapped), Err(Error::InvalidLinkedList));
}

#[test]
fn merging_two_inputs_into_one_output_is_rejected() {
    let inputs = vec![record(0x00, 0x40), record(0x40, 0x80)];
    let outputs = vec![record(0x00, 0x80)];
    assert_eq!(validate_linked_list(&inputs, &outputs), Err(Error::InvalidLinkedList));
}

#[test]
fn gap_and_overlap_are_rejected() {
    let inputs = vec![record(0x00, 0xff)];
    let gap = vec![record(0x00, 0x40), record(0x50, 0xff)];
    let overlap = vec![record(0x00, 0x40), record(0x30, 0xff)];
    assert_eq!(validate_linked_list(&inputs, &gap), Err(Error::InvalidLinkedList));
    assert_eq!(validate_linked_list(&inputs, &overlap), Err(Error::InvalidLinkedList));
}

#[test]
fn output_left_over_is_rejected() {
    let inputs = vec![record(0x00, 0x80)];
    let outputs = vec![record(0x00, 0x80), record(0x80, 0xff)];
    assert_eq!(validate_linked_list(&inputs, &outputs), Err(Error::InvalidLinkedList));
}

#[test]
fn missing_output_is_rejected() {
    let inputs = vec![record(0x00, 0x80)];
    assert_eq!(validate_linked_list(&inputs, &vec![]), Err(Error::InvalidLinkedList));
    let short = vec![record(0x00, 0x40)];
    assert_eq!(validate_linked_list(&inputs, &short), Err(Error::InvalidLinkedList));
    let past = vec![record(0x00, 0x40), record(0x40, 0x90)];
    assert_eq!(validate_linked_list(&inputs, &past), Err(Error::InvalidLinkedList));
}

#[test]
fn no_inputs_accept_only_no_outputs() {
    assert_eq!(validate_linked_list(&vec![], &vec![]), Ok(()));
    assert_eq!(validate_linked_list(&vec![], &vec![record(0, 1)]), Err(Error::InvalidLinkedList));
}

#[test]
fn short_parameter_bytes_are_rejected() {
    let short = RangeCell { lock_args: vec![0u8; 31], data: vec![255u8; 32] };
    assert_eq!(validate_linked_list(&vec![short.clone()], &vec![record(0, 255)]), Err(Error::InvalidArgsLength));
    assert_eq!(validate_linked_list(&vec![record(0, 255)], &vec![short]), Err(Error::InvalidArgsLength));
}

#[test]
fn short_payload_is_rejected() {
    let short = RangeCell { lock_args: vec![0u8; 32], data: vec![255u8; 31] };
    assert_eq!(validate_linked_list(&vec![short.clone()], &vec![record(0, 255)]), Err(Error::InvalidDataLength));
    assert_eq!(validate_linked_list(&vec![record(0, 255)], &vec![short]), Err(Error::InvalidDataLength));
}

#[test]
fn output_start_is_checked_before_output_payload_length() {
    let wrong_start_short_payload = RangeCell { lock_args: vec![1u8; 32], data: vec![] };
    assert_eq!(
        validate_linked_list(&vec![record(0, 255)], &vec![wrong_start_short_payload]),
        Err(Error::InvalidLinkedList)
    );
}

#[test]
fn only_the_first_thirty_two_bytes_are_read() {
    let mut input = record(0x00, 0xff);
    input.lock_args.extend_from_slice(&[9, 9, 9]);
    input.data.extend_from_slice(&[7u8; 32]);
    let mut output = record(0x00, 0xff);
    output.lock_args.push(1);
    output.data.extend_from_slice(&[8u8; 32]);
    assert_eq!(validate_linked_list(&vec![input], &vec![output]), Ok(()));
}

#[test]
fn keys_are_ordered_by_their_first_differing_byte() {
    let mut start = vec![0u8; 32];
    start[0] = 1;
    let mut end = vec![0xffu8; 32];
    end[0] = 0;
    let inputs = vec![RangeCell { lock_args: start.clone(), data: end.clone() }];
    let outputs = inputs.clone();
    assert_eq!(validate_linked_list(&inputs, &outputs), Err(Error::InvalidLinkedList));
    let inputs = vec![RangeCell { lock_args: end, data: start }];
    assert_eq!(validate_linked_list(&inputs, &inputs.clone()), Ok(()));
}

#[test]
fn cover_input_returns_the_cursor_behind_the_last_output_used() {
    let outputs = vec![record(0x00, 0x10), record(0x10, 0x40), record(0x40, 0x80)];
    assert_eq!(cover_input(&outputs, 0, &key(0x00), &key(0x40)), Ok(2));
    assert_eq!(cover_input(&outputs, 0, &key(0x00), &key(0x10)), Ok(1));
    assert_eq!(cover_input(&outputs, 1, &key(0x10), &key(0x80)), Ok(3));
    assert_eq!(cover_input(&outputs, 1, &key(0x00), &key(0x80)), Err(Error::InvalidLinkedList));
    assert_eq!(cover_input(&outputs, 3, &key(0x80), &key(0x90)), Err(Error::InvalidLinkedList));
    assert_eq!(cover_input(&outputs, 0, &key(0x00), &key(0x30)), Err(Error::InvalidLinkedList));
}

#[test]
fn mutation_does_not_look_at_the_identity() {
    let mut tx = mutation(vec![record(0, 9)], vec![record(0, 9)]);
    tx.script_args = vec![];
    assert_eq!(main(&tx), Ok(()));
}

fn holds(cell: &RangeCell, x: &[u8; 32]) -> bool {
    cell.lock_args[..32] <= x[..] && x[..] < cell.data[..32]
}

fn covered(cells: &[RangeCell], x: &[u8; 32]) -> bool {
    cells.iter().any(|cell| holds(cell, x))
}

#[test]
fn accepted_split_covers_the_same_keys() {
    let inputs = vec![record(0x10, 0x40), record(0x80, 0xc0)];
    let outputs = vec![record(0x10, 0x20), record(0x20, 0x40), record(0x80, 0xc0)];
    assert_eq!(validate_linked_list(&inputs, &outputs), Ok(()));
    for byte in 0..=255u8 {
        let mut x = key(byte);
        assert_eq!(covered(&inputs, &x), covered(&outputs, &x));
        x[31] = x[31].wrapping_sub(1);
        assert_eq!(covered(&inputs, &x), covered(&outputs, &x));
    }
    assert!(covered(&outputs, &key(0x10)));
    assert!(!covered(&outputs, &key(0x40)));
    assert!(!covered(&outputs, &key(0x7f)));
}

#[test]
fn accepted_split_keeps_ranges_apart() {
    let inputs = vec![record(0x10, 0x40), record(0x80, 0xc0)];
    let outputs = vec![record(0x10, 0x20), record(0x20, 0x30), record(0x30, 0x40), record(0x80, 0xc0)];
    assert_eq!(validate_linked_list(&inputs, &outputs), Ok(()));
    for (a, first) in outputs.iter().enumerate() {
        for (b, second) in outputs.iter().enumerate() {
            if a != b {
                assert!(first.data[..32] <= second.lock_args[..32] || second.data[..32] <= first.lock_args[..32]);
            }
        }
        assert!(inputs.iter().any(|input| {
            input.lock_args[..32] <= first.lock_args[..32] && first.data[..32] <= input.data[..32]
        }));
    }
}
