use cosmwasm_testing_util::multi_test::{
    ExecuteRequest, Genesis, InitialFunds, InstantiateRequest, MultiTestMockApp, QueryRoute,
};
use cosmwasm_testing_util::tokens::SendRequest;
use cosmwasm_testing_util::types::{
    coins, AppResponse, BlockInfo, Coin, Event, ExecuteResponse, Timestamp, TxGas,
};

fn accounts() -> Vec<InitialFunds> {
    vec![
        InitialFunds { account: "sender".to_string(), funds: coins(100_000_000_000, "orai") },
        InitialFunds { account: "other".to_string(), funds: vec![] },
    ]
}

fn started() -> MultiTestMockApp {
    MultiTestMockApp::new(accounts(), "orai", "testing", 1_000).launch(1, 2).0
}

fn block(height: u64, seconds: u64, chain_id: &str) -> BlockInfo {
    BlockInfo {
        height,
        time: Timestamp::from_seconds(seconds),
        chain_id: chain_id.to_string(),
    }
}

#[test]
fn a_chain_starts_after_its_setup() {
    let genesis = MultiTestMockApp::new(accounts(), "orai", "testing", 1_000);
    assert_eq!(
        genesis,
        Genesis {
            block: block(6, 1_030, "testing"),
            creation_fee: coins(10_000_000, "orai"),
            balances: accounts(),
        }
    );
    let (app, names) = genesis.launch(1, 2);
    assert_eq!(names, vec!["sender".to_string(), "other".to_string()]);
    assert_eq!(app.get_block_height(), 6);
    assert_eq!(app.get_block_time(), Timestamp { nanos: 1_030_000_000_000 });
    assert_eq!(app.get_block_time().seconds(), 1_030);
    assert_eq!(app.tokens.token_id(), 1);
    assert_eq!(app.tokens.tokenfactory_id(), 2);
}

#[test]
fn the_creation_fee_can_be_set() {
    let fee = vec![Coin { denom: "atom".to_string(), amount: 1 }];
    let genesis = MultiTestMockApp::new_with_creation_fee(vec![], fee.clone(), "c", 0);
    assert_eq!(
        genesis,
        Genesis { block: block(4, 20, "c"), creation_fee: fee, balances: vec![] }
    );
}

#[test]
fn room_for_the_first_block_is_told() {
    assert!(Genesis::has_room(0, 0));
    assert!(Genesis::has_room(2, 1_700_000_000));
    let most = u64::MAX / 1_000_000_000;
    assert!(Genesis::has_room(0, most - 20));
    assert!(!Genesis::has_room(0, most - 19));
    assert!(!Genesis::has_room(1, most - 24));
    assert!(!Genesis::has_room(0, u64::MAX));
    assert!(!Genesis::has_room(usize::MAX, 0));
}

#[test]
fn transactions_take_a_block_each() {
    let mut app = started();
    app.upload();
    assert_eq!(app.block, block(7, 1_035, "testing"));
    assert_eq!(
        app.instantiate(3, "me", &coins(1, "orai"), "label"),
        InstantiateRequest {
            code_id: 3,
            sender: "me".to_string(),
            funds: coins(1, "orai"),
            label: "label".to_string(),
            admin: Some("me".to_string()),
        }
    );
    assert_eq!(app.block, block(8, 1_040, "testing"));
    app.execute("me", "contract", false, &[]);
    assert_eq!(app.block, block(9, 1_045, "testing"));
    app.sudo();
    assert_eq!(app.block, block(10, 1_050, "testing"));
}

#[test]
fn sending_and_asking_take_no_block() {
    let app = started();
    assert_eq!(
        app.send_coins("me", "you", &coins(4, "orai")),
        SendRequest {
            sender: "me".to_string(),
            recipient: "you".to_string(),
            amount: coins(4, "orai"),
        }
    );
    assert_eq!(
        app.query("contract", false),
        QueryRoute::Contract { contract_addr: "contract".to_string() }
    );
    assert_eq!(app.query("contract", true), QueryRoute::Custom);
    assert_eq!(app.get_block_height(), 6);
}

#[test]
fn messages_go_where_they_belong() {
    let mut app = started();
    assert_eq!(
        app.execute("me", "contract", false, &coins(2, "orai")),
        ExecuteRequest::Contract {
            sender: "me".to_string(),
            contract_addr: "contract".to_string(),
            funds: coins(2, "orai"),
        }
    );
    assert_eq!(
        app.execute("me", "contract", true, &coins(2, "orai")),
        ExecuteRequest::Custom { sender: "contract".to_string() }
    );
}

#[test]
fn every_change_to_the_block_is_a_block() {
    let mut app = started();
    app.set_block_time_seconds(50);
    assert_eq!(app.block, block(7, 50, "testing"));
    app.increase_time(8);
    assert_eq!(app.block, block(8, 58, "testing"));
    app.set_chain_id("other");
    assert_eq!(app.block, block(9, 58, "other"));
    app.increase_time(0);
    assert_eq!(app.block, block(10, 58, "other"));
}

#[test]
fn one_more_account_is_one_more_block() {
    let mut app = started();
    let mut more = accounts();
    more.push(InitialFunds { account: "third".to_string(), funds: vec![] });
    let (later, _) = MultiTestMockApp::new(more, "orai", "testing", 1_000).launch(1, 2);
    app.upload();
    assert_eq!(app.block, later.block);
}

#[test]
fn room_for_a_block_is_told() {
    let mut app = started();
    assert!(app.block.has_room(5));
    assert!(!app.block.has_room(u64::MAX));
    app.observe(BlockInfo {
        height: 1,
        time: Timestamp { nanos: u64::MAX - 5_000_000_000 },
        chain_id: "c".to_string(),
    });
    assert!(app.block.has_room(5));
    assert!(!app.block.has_room(6));
    app.upload();
    assert_eq!(app.get_block_time(), Timestamp { nanos: u64::MAX });
    app.observe(block(u64::MAX, 0, "c"));
    assert!(!app.block.has_room(0));
}

#[test]
fn the_token_code_can_be_set() {
    let mut app = started();
    app.set_token_contract(7);
    assert_eq!(app.tokens.token_id(), 7);
    assert_eq!(app.tokens.tokenfactory_id(), 2);
    assert_eq!(app.get_block_height(), 6);
}

#[test]
fn blocks_pass_as_in_the_framework() {
    let mut app = started();
    let mut real = cosmwasm_std::BlockInfo {
        height: app.block.height,
        time: cosmwasm_std::Timestamp::from_nanos(app.block.time.nanos),
        chain_id: app.block.chain_id.clone(),
    };
    cw_multi_test::next_block(&mut real);
    app.sudo();
    assert_eq!(app.block.height, real.height);
    assert_eq!(app.block.time.nanos, real.time.nanos());
    assert_eq!(app.block.chain_id, real.chain_id);
}

#[test]
fn answers_become_those_of_an_execution() {
    let events = vec![Event { ty: "wasm".to_string(), attributes: vec![] }];
    let response = AppResponse { events: events.clone(), data: Some(vec![1, 2]) };
    let none = TxGas { gas_wanted: 0, gas_used: 0 };
    assert_eq!(
        ExecuteResponse::from(response),
        ExecuteResponse { events, data: Some(vec![1, 2]), gas_info: none }
    );
    assert_eq!(
        ExecuteResponse::default(),
        ExecuteResponse { events: vec![], data: None, gas_info: none }
    );
}

#[test]
fn messages_for_the_module_ignore_sender_and_coins() {
    let mut one = started();
    let mut two = started();
    assert_eq!(
        one.execute("me", "contract", true, &coins(2, "orai")),
        two.execute("you", "contract", true, &[])
    );
    assert_eq!(one.block, two.block);
}

#[test]
fn uploads_keep_the_codes_of_tokens() {
    let mut app = started();
    for n in 1..4 {
        app.upload();
        assert_eq!(app.get_block_height(), 6 + n);
        assert_eq!((app.tokens.token_id(), app.tokens.tokenfactory_id()), (1, 2));
    }
}
