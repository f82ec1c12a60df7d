use ethers_erc20balances::table::shape_matches;
use ethers_erc20balances::{
    reformat, Address, AddressMap, Balance, BalanceError, BalanceTable, TokenBalances, U256,
};

fn addr(text: &str) -> Address {
    Address::from_hex(text).unwrap()
}

fn bal(n: u64) -> Balance {
    U256::from_u64(n)
}

#[test]
fn test_reformat() {
    let addresses = vec![
        addr("0xb1f8e55c7f64d203c1400b9d8555d050f94adf39"),
        addr("0x8D9708f3F514206486D7E988533f770a16d074a7"),
    ];
    let token_addresses = vec![
        addr("0x3183B673f4816C94BeF53958BaF93C671B7F8Cf2"),
        addr("0x55ABBa8d669D60A10c104CC493ec5ef389EC92bb"),
    ];
    let balances = vec![bal(10), bal(7), bal(5), bal(7)];

    let result = reformat(addresses.clone(), token_addresses.clone(), balances).unwrap();

    assert_eq!(result.len(), 2);
    let row_0 = result.get(&addresses[0]).unwrap();
    assert_eq!(row_0.len(), 2);
    assert_eq!(row_0.get(&token_addresses[0]), Some(&bal(10)));
    assert_eq!(row_0.get(&token_addresses[1]), Some(&bal(7)));
    let row_1 = result.get(&addresses[1]).unwrap();
    assert_eq!(row_1.len(), 2);
    assert_eq!(row_1.get(&token_addresses[0]), Some(&bal(5)));
    assert_eq!(row_1.get(&token_addresses[1]), Some(&bal(7)));
    assert_eq!(result.accounts(), &addresses);
    assert_eq!(row_0.keys(), &token_addresses);
}

#[test]
fn reformat_is_row_major() {
    let accounts = vec![Address::from_bytes([1; 20]), Address::from_bytes([2; 20]), Address::from_bytes([3; 20])];
    let tokens = vec![Address::from_bytes([10; 20]), Address::from_bytes([11; 20])];
    let flat: Vec<Balance> = vec![bal(100), bal(101), bal(102), bal(103), bal(104), bal(105)];
    let table = reformat(accounts.clone(), tokens.clone(), flat.clone()).unwrap();
    for i in 0..3 {
        for j in 0..2 {
            assert_eq!(table.balance_of(&accounts[i], &tokens[j]), Some(flat[i * 2 + j]));
        }
    }
    assert_eq!(table.balance_of(&Address::from_bytes([9; 20]), &tokens[0]), None);
    assert_eq!(table.balance_of(&accounts[0], &Address::from_bytes([9; 20])), None);
    assert!(table.get(&Address::from_bytes([9; 20])).is_none());
}

#[test]
fn reformat_repeated_account_takes_later_row() {
    let a = Address::from_bytes([1; 20]);
    let b = Address::from_bytes([2; 20]);
    let t1 = Address::from_bytes([10; 20]);
    let t2 = Address::from_bytes([11; 20]);
    let flat = vec![bal(1), bal(2), bal(3), bal(4), bal(5), bal(6)];
    let table = reformat(vec![a, b, a], vec![t1, t2], flat).unwrap();
    assert_eq!(table.len(), 2);
    assert_eq!(table.balance_of(&a, &t1), Some(bal(5)));
    assert_eq!(table.balance_of(&a, &t2), Some(bal(6)));
    assert_eq!(table.balance_of(&b, &t1), Some(bal(3)));
    assert_eq!(table.balance_of(&b, &t2), Some(bal(4)));
    assert_eq!(table.accounts(), &vec![a, b]);
}

#[test]
fn reformat_repeated_token_takes_later_balance() {
    let a = Address::from_bytes([1; 20]);
    let t1 = Address::from_bytes([10; 20]);
    let t2 = Address::from_bytes([11; 20]);
    let table = reformat(vec![a], vec![t1, t2, t1], vec![bal(1), bal(2), bal(3)]).unwrap();
    let row = table.get(&a).unwrap();
    assert_eq!(row.len(), 2);
    assert_eq!(row.get(&t1), Some(&bal(3)));
    assert_eq!(row.get(&t2), Some(&bal(2)));
    assert!(row.contains_key(&t1));
    assert!(!row.contains_key(&a));
}

#[test]
fn reformat_refuses_short_answer() {
    let a = Address::from_bytes([1; 20]);
    let b = Address::from_bytes([2; 20]);
    let t1 = Address::from_bytes([10; 20]);
    let t2 = Address::from_bytes([11; 20]);
    let outcome = reformat(vec![a, b], vec![t1, t2], vec![bal(1), bal(2), bal(3)]);
    assert_eq!(
        outcome.unwrap_err(),
        BalanceError::ShapeMismatch { account_count: 2, token_count: 2, value_count: 3 }
    );
}

#[test]
fn reformat_refuses_long_answer() {
    let a = Address::from_bytes([1; 20]);
    let t1 = Address::from_bytes([10; 20]);
    let outcome = reformat(vec![a], vec![t1], vec![bal(1), bal(2)]);
    assert_eq!(
        outcome.unwrap_err(),
        BalanceError::ShapeMismatch { account_count: 1, token_count: 1, value_count: 2 }
    );
}

#[test]
fn reformat_refuses_balances_without_tokens() {
    let a = Address::from_bytes([1; 20]);
    let outcome = reformat(vec![a], vec![], vec![bal(1)]);
    assert_eq!(
        outcome.unwrap_err(),
        BalanceError::ShapeMismatch { account_count: 1, token_count: 0, value_count: 1 }
    );
}

#[test]
fn reformat_without_accounts_is_empty() {
    let t1 = Address::from_bytes([10; 20]);
    let table = reformat(vec![], vec![t1], vec![]).unwrap();
    assert_eq!(table.len(), 0);
    assert!(table.accounts().is_empty());
    let table = reformat(vec![], vec![], vec![]).unwrap();
    assert_eq!(table.len(), 0);
}

#[test]
fn reformat_without_tokens_has_empty_rows() {
    let a = Address::from_bytes([1; 20]);
    let b = Address::from_bytes([2; 20]);
    let table = reformat(vec![a, b], vec![], vec![]).unwrap();
    assert_eq!(table.len(), 2);
    assert_eq!(table.get(&a).unwrap().len(), 0);
    assert_eq!(table.get(&b).unwrap().len(), 0);
    assert_eq!(table.balance_of(&a, &b), None);
}

#[test]
fn shape_matches_is_exact() {
    assert!(shape_matches(2, 3, 6));
    assert!(!shape_matches(2, 3, 5));
    assert!(!shape_matches(2, 3, 7));
    assert!(shape_matches(0, 5, 0));
    assert!(shape_matches(5, 0, 0));
    assert!(!shape_matches(usize::MAX, 2, usize::MAX - 1));
}

#[test]
fn address_map_insert_replaces() {
    let mut map: AddressMap<u8> = AddressMap::new();
    let a = Address::from_bytes([1; 20]);
    let b = Address::from_bytes([2; 20]);
    assert_eq!(map.len(), 0);
    map.insert(a, 1);
    map.insert(b, 2);
    map.insert(a, 3);
    assert_eq!(map.len(), 2);
    assert_eq!(map.get(&a), Some(&3));
    assert_eq!(map.get(&b), Some(&2));
    assert_eq!(map.keys(), &vec![a, b]);
}

#[test]
fn balance_table_insert_replaces_row() {
    let a = Address::from_bytes([1; 20]);
    let t = Address::from_bytes([10; 20]);
    let mut table = BalanceTable::new();
    let mut first = TokenBalances::new();
    first.insert(t, bal(1));
    let mut second = TokenBalances::new();
    second.insert(t, bal(2));
    table.insert(a, first);
    table.insert(a, second);
    assert_eq!(table.len(), 1);
    assert_eq!(table.balance_of(&a, &t), Some(bal(2)));
}
