use cosmwasm_testing_util::errors::{MockError, StdError};
use cosmwasm_testing_util::test_tube::{
    execute_response, send_response, ExecuteCall, GaslessProposal, InstantiateCall, OpenAccount,
    ProtoCoin, SendCall, TestTubeMockApp,
};
use cosmwasm_testing_util::types::{
    coins, AppResponse, Attribute, Coin, Event, ExecuteResponse, TxGas,
};

fn opened(name: &str, address: &str, signer: u8) -> OpenAccount<u8> {
    OpenAccount { name: name.to_string(), address: address.to_string(), signer }
}

fn started() -> TestTubeMockApp<u8> {
    TestTubeMockApp::new(vec![opened("alice", "orai1a", 1), opened("bob", "orai1b", 2)], 9, 4, 3).0
}

fn proto(amount: &str, denom: &str) -> ProtoCoin {
    ProtoCoin { denom: denom.to_string(), amount: amount.to_string() }
}

fn unknown<T>() -> Result<T, MockError> {
    Err(MockError { msg: "Account not existed".to_string() })
}

#[test]
fn accounts_are_told_by_their_address() {
    let (app, accounts) =
        TestTubeMockApp::new(vec![opened("alice", "orai1a", 1), opened("bob", "orai1b", 2)], 9, 4, 3);
    assert_eq!(accounts, vec!["orai1a".to_string(), "orai1b".to_string()]);
    assert_eq!(*app.upload(), 9);
    assert_eq!(app.tokens.token_id(), 4);
    assert_eq!(app.tokens.tokenfactory_id(), 3);
    assert_eq!(TestTubeMockApp::<u8>::owner_funds("orai"), coins(5_000_000_000_000, "orai"));
}

#[test]
fn accounts_sign_by_name_and_by_address() {
    let app = started();
    assert_eq!(app.get_signer("alice"), Ok(&1));
    assert_eq!(app.get_signer("orai1a"), Ok(&1));
    assert_eq!(app.get_signer("bob"), Ok(&2));
    assert_eq!(app.get_signer("orai1b"), Ok(&2));
    assert_eq!(app.get_signer("carol"), unknown());
    assert_eq!(app.get_signer(""), unknown());
}

#[test]
fn a_name_that_is_given_twice_is_the_later_accounts() {
    let (app, accounts) =
        TestTubeMockApp::new(vec![opened("x", "orai1a", 1), opened("x", "orai1b", 2)], 9, 4, 3);
    assert_eq!(accounts.len(), 2);
    assert_eq!(app.get_signer("x"), Ok(&2));
    assert_eq!(app.get_signer("orai1a"), Ok(&1));
}

#[test]
fn a_name_goes_before_an_address() {
    let (app, _) =
        TestTubeMockApp::new(vec![opened("orai1b", "orai1a", 1), opened("bob", "orai1b", 2)], 9, 4, 3);
    assert_eq!(app.get_signer("orai1b"), Ok(&1));
    assert_eq!(app.get_signer("bob"), Ok(&2));
}

#[test]
fn funds_are_sent_as_text() {
    let app = started();
    let funds = vec![
        Coin { denom: "orai".to_string(), amount: 1_000 },
        Coin { denom: "atom".to_string(), amount: u128::MAX },
    ];
    let (signer, sent) = app.get_funds_and_signer("alice", &funds).unwrap();
    assert_eq!(*signer, 1);
    assert_eq!(
        sent,
        vec![
            proto("1000", "orai"),
            proto("340282366920938463463374607431768211455", "atom"),
        ]
    );
    // and come back as they were
    assert_eq!(app.query_all_balances(&sent), funds);
    assert_eq!(app.get_funds_and_signer("carol", &funds), unknown());
}

#[test]
fn contracts_are_made_and_run() {
    let app = started();
    assert_eq!(
        app.instantiate(3, "alice", &coins(5, "orai"), "label"),
        Ok((
            &1,
            InstantiateCall {
                code_id: 3,
                admin: Some("orai1a".to_string()),
                label: Some("label".to_string()),
                funds: vec![proto("5", "orai")],
            }
        ))
    );
    assert_eq!(
        app.execute("orai1b", "contract", &[]),
        Ok((&2, ExecuteCall { contract_addr: "contract".to_string(), funds: vec![] }))
    );
    assert_eq!(app.instantiate(3, "carol", &[], "label"), unknown());
    assert_eq!(app.execute("carol", "contract", &[]), unknown());
}

#[test]
fn coins_are_sent_in_the_name_that_was_given() {
    let app = started();
    assert_eq!(
        app.send_coins("alice", "orai1b", &coins(7, "orai")),
        Ok((
            &1,
            SendCall {
                from_address: "alice".to_string(),
                to_address: "orai1b".to_string(),
                amount: vec![proto("7", "orai")],
            }
        ))
    );
    assert_eq!(app.send_coins("carol", "orai1b", &[]), unknown());
}

#[test]
fn contracts_are_made_free_of_gas() {
    let app = started();
    assert_eq!(
        app.set_gasless("alice", "contract"),
        Ok((
            &1,
            GaslessProposal {
                type_url: "/cosmwasm.wasm.v1.SetGasLessContractsProposal".to_string(),
                title: "Set Gasless".to_string(),
                description: "Set Gasless".to_string(),
                contract_addresses: vec!["contract".to_string()],
                proposer: "orai1a".to_string(),
            }
        ))
    );
    assert_eq!(app.set_gasless("carol", "contract"), unknown());
}

#[test]
fn answers_of_the_chain_are_read() {
    let app = started();
    let events = vec![Event {
        ty: "wasm".to_string(),
        attributes: vec![Attribute { key: "k".to_string(), value: "v".to_string() }],
    }];
    let gas = TxGas { gas_wanted: 10, gas_used: 7 };
    assert_eq!(
        execute_response(events.clone(), vec![1], gas),
        ExecuteResponse { events: events.clone(), data: Some(vec![1]), gas_info: gas }
    );
    assert_eq!(
        send_response(events.clone(), vec![2]),
        AppResponse { events, data: Some(vec![2]) }
    );
    assert_eq!(app.sudo(vec![3]), AppResponse { events: vec![], data: Some(vec![3]) });
    assert_eq!(app.query(Ok(5)), Ok(5));
    assert_eq!(
        app.query::<u8>(Err("no such contract".to_string())),
        Err(StdError::GenericErr { msg: "no such contract".to_string() })
    );
}

#[test]
fn balances_are_read() {
    let app = started();
    assert_eq!(app.query_balance(Some(proto("120", "orai"))), 120);
    assert_eq!(app.query_balance(None), 0);
    assert_eq!(app.query_all_balances(&[]), vec![]);
    assert_eq!(app.query_supply(Some(proto("30", "orai"))), Coin {
        denom: "orai".to_string(),
        amount: 30
    });
    assert_eq!(app.query_supply(None), Coin { denom: String::new(), amount: 0 });
}

#[test]
fn the_token_code_of_a_chain_can_be_set() {
    let mut app = started();
    app.set_token_contract(8);
    assert_eq!(app.tokens.token_id(), 8);
    assert_eq!(app.get_signer("alice"), Ok(&1));
}
