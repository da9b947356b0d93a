use strike_wallet::hash::hash_of;
use strike_wallet::handlers::utils::calculate_expires;
use strike_wallet::error::WalletError;
use strike_wallet::pubkey::{bytes32_eq, Pubkey};

#[test]
fn digest_of_nothing_is_the_known_sha256_value() {
    let expected: [u8; 32] = [
        0xe3, 0xb0, 0xc4, 0x42, 0x98, 0xfc, 0x1c, 0x14, 0x9a, 0xfb, 0xf4, 0xc8, 0x99, 0x6f, 0xb9,
        0x24, 0x27, 0xae, 0x41, 0xe4, 0x64, 0x9b, 0x93, 0x4c, 0xa4, 0x95, 0x99, 0x1b, 0x78, 0x52,
        0xb8, 0x55,
    ];
    assert_eq!(hash_of(&vec![]), expected);
}

#[test]
fn digest_of_abc_is_the_known_sha256_value() {
    let expected: [u8; 32] = [
        0xba, 0x78, 0x16, 0xbf, 0x8f, 0x01, 0xcf, 0xea, 0x41, 0x41, 0x40, 0xde, 0x5d, 0xae, 0x22,
        0x23, 0xb0, 0x03, 0x61, 0xa3, 0x96, 0x17, 0x7a, 0x9c, 0xb4, 0x10, 0xff, 0x61, 0xf2, 0x00,
        0x15, 0xad,
    ];
    assert_eq!(hash_of(&vec![b'a', b'b', b'c']), expected);
}

#[test]
fn expiry_is_start_plus_timeout() {
    assert_eq!(calculate_expires(1000, 3600), Ok(4600));
    assert_eq!(calculate_expires(-10, 10), Ok(0));
    assert_eq!(calculate_expires(0, 0), Ok(0));
    assert_eq!(calculate_expires(i64::MAX - 1, 1), Ok(i64::MAX));
}

#[test]
fn expiry_beyond_the_range_of_time_is_refused() {
    assert_eq!(calculate_expires(i64::MAX, 1), Err(WalletError::InvalidArgument));
    assert_eq!(calculate_expires(1, u64::MAX), Err(WalletError::InvalidArgument));
    assert_eq!(calculate_expires(i64::MIN, u64::MAX), Ok(i64::MAX));
}

#[test]
fn keys_compare_by_their_bytes() {
    let a = Pubkey::new_from_array([1; 32]);
    let mut other = [1u8; 32];
    other[31] = 2;
    let b = Pubkey::new_from_array(other);
    assert!(a == a);
    assert!(a != b);
    assert!(bytes32_eq(&a.to_bytes(), &[1; 32]));
    assert!(!bytes32_eq(&a.to_bytes(), &b.to_bytes()));
}
