use ckb_std::ckb_types::packed::{Byte, Script as PackedScript};
use ckb_std::ckb_types::prelude::{Builder, Entity, Reader};
use range_registry::bytes::{push_le64, same_bytes};
use range_registry::hash::ckb_hash;
use range_registry::lock_wrapper::calc_script_hash;
use range_registry::script::Script;

fn blake2b(data: &[u8]) -> [u8; 32] {
    let mut hash = [0u8; 32];
    let mut blake2b = blake2b_rs::Blake2bBuilder::new(32).personal(b"ckb-default-hash").build();
    blake2b.update(data);
    blake2b.finalize(&mut hash);
    hash
}

fn packed(code_hash: [u8; 32], hash_type: u8, args: &[u8]) -> PackedScript {
    PackedScript::new_builder()
        .code_hash(code_hash)
        .hash_type(Byte::new(hash_type))
        .args(args)
        .build()
}

#[test]
fn digest_of_nothing_is_the_blank_hash() {
    let blank: [u8; 32] = [
        0x44, 0xf4, 0xc6, 0x97, 0x44, 0xd5, 0xf8, 0xc5, 0x5d, 0x64, 0x20, 0x62, 0x94, 0x9d, 0xca,
        0xe4, 0x9b, 0xc4, 0xe7, 0xef, 0x43, 0xd3, 0x88, 0xc5, 0xa1, 0x2f, 0x42, 0xb5, 0x63, 0x3d,
        0x16, 0x3e,
    ];
    assert_eq!(ckb_hash(&[]), blank);
}

#[test]
fn digest_is_personalised_blake2b() {
    let data: Vec<u8> = (0..=255).collect();
    assert_eq!(ckb_hash(&data), blake2b(&data));
    assert_eq!(ckb_hash(b"abc"), blake2b(b"abc"));
    assert_ne!(ckb_hash(b"abc"), ckb_hash(b"abd"));
    let mut unpersonalised = [0u8; 32];
    let mut plain = blake2b_rs::Blake2bBuilder::new(32).build();
    plain.update(b"abc");
    plain.finalize(&mut unpersonalised);
    assert_ne!(ckb_hash(b"abc"), unpersonalised);
}

#[test]
fn push_le64_appends_eight_bytes_low_first() {
    let mut buf = vec![0xaa];
    push_le64(&mut buf, 0x0102030405060708);
    assert_eq!(buf, vec![0xaa, 8, 7, 6, 5, 4, 3, 2, 1]);
    let mut buf = vec![];
    push_le64(&mut buf, 0);
    assert_eq!(buf, vec![0u8; 8]);
    let mut buf = vec![];
    push_le64(&mut buf, u64::MAX);
    assert_eq!(buf, vec![0xffu8; 8]);
    let mut buf = vec![];
    push_le64(&mut buf, 300);
    assert_eq!(buf, 300u64.to_le_bytes().to_vec());
}

#[test]
fn same_bytes_compares_length_and_content() {
    assert!(same_bytes(&[], &[]));
    assert!(same_bytes(&[1, 2, 3], &[1, 2, 3]));
    assert!(!same_bytes(&[1, 2, 3], &[1, 2]));
    assert!(!same_bytes(&[1, 2], &[1, 2, 3]));
    assert!(!same_bytes(&[1, 2, 3], &[1, 2, 4]));
}

#[test]
fn script_accepts_what_the_serialiser_writes() {
    for args_len in [0usize, 1, 20, 32, 64, 300] {
        let args: Vec<u8> = (0..args_len).map(|i| (i * 7) as u8).collect();
        for hash_type in [0u8, 1, 2, 4] {
            let encoded = packed([0x3c; 32], hash_type, &args);
            let script = Script::from_slice(encoded.as_slice()).expect("script");
            assert_eq!(script.as_slice(), encoded.as_slice());
            assert_eq!(script.code_hash().as_slice(), encoded.as_reader().code_hash().raw_data());
            assert_eq!(script.code_hash(), [0x3c; 32]);
            assert_eq!(script.hash_type(), hash_type);
            assert_eq!(&[script.hash_type()][..], encoded.as_reader().hash_type().as_slice());
            assert_eq!(script.args(), encoded.as_reader().args().raw_data());
            assert_eq!(script.args(), &args[..]);
            assert_eq!(script.clone(), script);
        }
    }
}

#[test]
fn script_has_the_fixed_header() {
    let script = packed([0x11; 32], 1, &[0xaa, 0xbb]);
    let mut expected = vec![55, 0, 0, 0, 16, 0, 0, 0, 48, 0, 0, 0, 49, 0, 0, 0];
    expected.extend_from_slice(&[0x11; 32]);
    expected.push(1);
    expected.extend_from_slice(&[2, 0, 0, 0, 0xaa, 0xbb]);
    assert_eq!(script.as_slice(), &expected[..]);
    assert!(Script::from_slice(&expected).is_some());
}

#[test]
fn script_refuses_what_is_not_exactly_one_descriptor() {
    let good = packed([0x11; 32], 1, &[0xaa, 0xbb]).as_slice().to_vec();
    assert!(Script::from_slice(&[]).is_none());
    for len in 0..good.len() {
        assert!(Script::from_slice(&good[..len]).is_none());
    }
    let mut trailing = good.clone();
    trailing.push(0);
    assert!(Script::from_slice(&trailing).is_none());
    for position in [0usize, 1, 4, 5, 8, 9, 12, 13, 49, 50, 52] {
        let mut bad = good.clone();
        bad[position] ^= 1;
        assert!(Script::from_slice(&bad).is_none(), "byte {}", position);
    }
    for position in [16usize, 30, 47, 48, 53, 54] {
        let mut other = good.clone();
        other[position] ^= 1;
        assert!(Script::from_slice(&other).is_some(), "byte {}", position);
    }
}

#[test]
fn script_refuses_a_table_with_a_fourth_field() {
    let good = packed([0x11; 32], 1, &[0xaa]).as_slice().to_vec();
    let mut extended = Vec::new();
    extended.extend_from_slice(&((good.len() + 4) as u32).to_le_bytes());
    extended.extend_from_slice(&20u32.to_le_bytes());
    extended.extend_from_slice(&52u32.to_le_bytes());
    extended.extend_from_slice(&53u32.to_le_bytes());
    extended.extend_from_slice(&((good.len() + 4) as u32).to_le_bytes());
    extended.extend_from_slice(&good[16..]);
    assert!(Script::from_slice(&extended).is_none());
}

#[test]
fn fingerprint_is_the_digest_of_the_serialised_descriptor() {
    let encoded = packed([0x3c; 32], 1, &[1, 2, 3]);
    let script = Script::from_slice(encoded.as_slice()).expect("script");
    assert_eq!(calc_script_hash(&script), blake2b(encoded.as_slice()));
}
