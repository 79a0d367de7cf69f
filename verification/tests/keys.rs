use range_registry::key::{key_at, rank, same_key, Rank};

#[test]
fn rank_orders_keys_as_big_endian_numbers() {
    let mut low = [0u8; 32];
    let mut high = [0u8; 32];
    low[31] = 0xff;
    high[0] = 0x01;
    assert_eq!(rank(&low, &high), Rank::Less);
    assert_eq!(rank(&high, &low), Rank::Greater);
    assert_eq!(rank(&low, &low), Rank::Equal);
    assert!(same_key(&high, &high));
    assert!(!same_key(&high, &low));
}

#[test]
fn key_at_copies_thirty_two_bytes_from_the_offset() {
    let bytes: Vec<u8> = (0u8..80).collect();
    let k = key_at(&bytes, 5);
    let expected: Vec<u8> = (5u8..37).collect();
    assert_eq!(k.to_vec(), expected);
}
