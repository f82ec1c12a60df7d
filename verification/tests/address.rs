use ethers_erc20balances::{Address, U256};

#[test]
fn from_hex_reads_the_bytes() {
    let address = Address::from_hex("0xb1f8e55c7f64d203c1400b9d8555d050f94adf39").unwrap();
    assert_eq!(
        address.to_bytes(),
        [
            0xb1, 0xf8, 0xe5, 0x5c, 0x7f, 0x64, 0xd2, 0x03, 0xc1, 0x40, 0x0b, 0x9d, 0x85, 0x55,
            0xd0, 0x50, 0xf9, 0x4a, 0xdf, 0x39
        ]
    );
}

#[test]
fn from_hex_takes_either_case_and_no_prefix() {
    let lower = Address::from_hex("0x8d9708f3f514206486d7e988533f770a16d074a7").unwrap();
    let mixed = Address::from_hex("0x8D9708f3F514206486D7E988533f770a16d074a7").unwrap();
    let bare = Address::from_hex("8D9708f3F514206486D7E988533f770a16d074a7").unwrap();
    assert_eq!(lower, mixed);
    assert_eq!(lower, bare);
    assert_eq!(lower.to_bytes()[0], 0x8d);
    assert_eq!(lower.to_bytes()[19], 0xa7);
}

#[test]
fn from_hex_refuses_what_is_no_address() {
    assert!(Address::from_hex("").is_none());
    assert!(Address::from_hex("0x").is_none());
    assert!(Address::from_hex("0x1234").is_none());
    assert!(Address::from_hex("0xzzf8e55c7f64d203c1400b9d8555d050f94adf39").is_none());
    assert!(Address::from_hex("0xb1f8e55c7f64d203c1400b9d8555d050f94adf3900").is_none());
}

#[test]
fn addresses_compare_by_bytes() {
    let a = Address::from_bytes([7; 20]);
    let mut bytes = [7u8; 20];
    assert!(a == Address::from_bytes(bytes));
    bytes[19] = 8;
    assert!(a != Address::from_bytes(bytes));
    bytes[19] = 7;
    bytes[0] = 0;
    assert!(a != Address::from_bytes(bytes));
}

#[test]
fn words_hold_their_halves() {
    let word = U256::from_u64(69);
    assert_eq!(word.high(), 0);
    assert_eq!(word.low(), 69);
    assert_eq!(word, U256::new(0, 69));
    assert_eq!(U256::from_u128(u128::MAX), U256::new(0, u128::MAX));
    assert_ne!(U256::new(1, 0), U256::new(0, 1));
    assert_eq!(U256::new(3, 4).high(), 3);
    assert_eq!(U256::new(3, 4).low(), 4);
}
