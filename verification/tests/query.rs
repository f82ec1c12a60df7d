use ethers_erc20balances::{
    get_erc20_balances, get_erc20_balances_with_chain_id, Address, BalanceError, ChainRegistry,
    U256,
};

fn sample() -> (Vec<Address>, Vec<Address>) {
    (
        vec![Address::from_bytes([1; 20]), Address::from_bytes([2; 20])],
        vec![Address::from_bytes([10; 20]), Address::from_bytes([11; 20])],
    )
}

#[test]
fn known_chain_plans_one_call() {
    let registry = ChainRegistry::deployed().unwrap();
    let (accounts, tokens) = sample();
    let call =
        get_erc20_balances_with_chain_id(&registry, accounts.clone(), tokens.clone(), U256::from_u64(1))
            .unwrap();
    assert_eq!(
        call.contract,
        Address::from_hex("0xb1f8e55c7f64d203c1400b9d8555d050f94adf39").unwrap()
    );
    assert_eq!(call.accounts, accounts);
    assert_eq!(call.tokens, tokens);
    assert_eq!(call.chain_id, U256::from_u64(1));
}

#[test]
fn unknown_chain_fails_without_call() {
    let registry = ChainRegistry::deployed().unwrap();
    let (accounts, tokens) = sample();
    let step = get_erc20_balances_with_chain_id(&registry, accounts, tokens, U256::from_u64(2));
    assert_eq!(
        step.unwrap_err(),
        BalanceError::UnsupportedChain { chain_id: U256::from_u64(2) }
    );
}

#[test]
fn query_asks_for_the_chain_first() {
    let registry = ChainRegistry::deployed().unwrap();
    let (accounts, tokens) = sample();
    let request = get_erc20_balances(accounts.clone(), tokens.clone());
    assert_eq!(request.accounts, accounts);
    assert_eq!(request.tokens, tokens);
    let call = request.chain_id_received(&registry, Ok(U256::from_u64(137))).unwrap();
    assert_eq!(
        call.contract,
        Address::from_hex("0x2352c63A83f9Fd126af8676146721Fa00924d7e4").unwrap()
    );
    assert_eq!(call.accounts, accounts);
    assert_eq!(call.tokens, tokens);
    assert_eq!(call.chain_id, U256::from_u64(137));
}

#[test]
fn failed_chain_lookup_fails_the_query() {
    let registry = ChainRegistry::deployed().unwrap();
    let (accounts, tokens) = sample();
    let request = get_erc20_balances(accounts, tokens);
    let step = request.chain_id_received(&registry, Err(String::from("connection refused")));
    assert_eq!(
        step.unwrap_err(),
        BalanceError::ChainLookup { cause: String::from("connection refused") }
    );
}

#[test]
fn chain_lookup_of_unknown_chain_is_unsupported() {
    let registry = ChainRegistry::deployed().unwrap();
    let (accounts, tokens) = sample();
    let request = get_erc20_balances(accounts, tokens);
    let step = request.chain_id_received(&registry, Ok(U256::new(1, 1)));
    assert_eq!(step.unwrap_err(), BalanceError::UnsupportedChain { chain_id: U256::new(1, 1) });
}

#[test]
fn answer_becomes_the_table() {
    let registry = ChainRegistry::deployed().unwrap();
    let (accounts, tokens) = sample();
    let call =
        get_erc20_balances_with_chain_id(&registry, accounts.clone(), tokens.clone(), U256::from_u64(1))
            .unwrap();
    let flat = vec![U256::from_u64(10), U256::from_u64(7), U256::from_u64(5), U256::from_u64(7)];
    let table = call.balances_received(Ok(flat)).unwrap();
    assert_eq!(table.len(), 2);
    assert_eq!(table.balance_of(&accounts[0], &tokens[0]), Some(U256::from_u64(10)));
    assert_eq!(table.balance_of(&accounts[0], &tokens[1]), Some(U256::from_u64(7)));
    assert_eq!(table.balance_of(&accounts[1], &tokens[0]), Some(U256::from_u64(5)));
    assert_eq!(table.balance_of(&accounts[1], &tokens[1]), Some(U256::from_u64(7)));
}

#[test]
fn failed_call_keeps_its_context() {
    let registry = ChainRegistry::deployed().unwrap();
    let (accounts, tokens) = sample();
    let call =
        get_erc20_balances_with_chain_id(&registry, accounts.clone(), tokens.clone(), U256::from_u64(56))
            .unwrap();
    let outcome = call.balances_received(Err(String::from("execution reverted")));
    assert_eq!(
        outcome.unwrap_err(),
        BalanceError::Call {
            accounts,
            tokens,
            chain_id: U256::from_u64(56),
            cause: String::from("execution reverted"),
        }
    );
}

#[test]
fn answer_of_wrong_length_fails_the_query() {
    let registry = ChainRegistry::deployed().unwrap();
    let (accounts, tokens) = sample();
    let call =
        get_erc20_balances_with_chain_id(&registry, accounts, tokens, U256::from_u64(1)).unwrap();
    let outcome = call.balances_received(Ok(vec![U256::from_u64(1); 5]));
    assert_eq!(
        outcome.unwrap_err(),
        BalanceError::ShapeMismatch { account_count: 2, token_count: 2, value_count: 5 }
    );
}

#[test]
fn empty_query_takes_empty_answer() {
    let registry = ChainRegistry::deployed().unwrap();
    let call = get_erc20_balances_with_chain_id(&registry, vec![], vec![], U256::from_u64(1)).unwrap();
    let table = call.balances_received(Ok(vec![])).unwrap();
    assert_eq!(table.len(), 0);
}
