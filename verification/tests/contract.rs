use cosmwasm_testing_util::contract::{
    ContractCall, EntryPoint, Env, MessageInfo, MockContract, GAS_PER_US,
};
use cosmwasm_testing_util::types::{coins, BlockInfo, Timestamp};

fn env(address: &str) -> Env {
    Env {
        block: BlockInfo {
            height: 12_345,
            time: Timestamp { nanos: 1_571_797_419_879_305_533 },
            chain_id: "cosmos-testnet-14002".to_string(),
        },
        transaction: Some(3),
        contract_address: address.to_string(),
    }
}

#[test]
fn a_contract_knows_its_address() {
    let contract = MockContract::new("orai1contract");
    assert_eq!(contract.address(), "orai1contract");
    let text = contract.api().addr_humanize(&[1, 2, 3]).unwrap();
    assert!(text.starts_with("orai1"));
}

#[test]
fn people_call_with_coins() {
    let contract = MockContract::new("here");
    let funds = coins(5, "orai");
    let info = Some(MessageInfo { sender: "me".to_string(), funds: funds.clone() });
    assert_eq!(
        contract.instantiate("me", &funds, 9),
        ContractCall {
            entry: EntryPoint::Instantiate,
            env: env("here"),
            info: info.clone(),
            gas_before: 9,
        }
    );
    assert_eq!(
        contract.execute("me", &funds, 8),
        ContractCall { entry: EntryPoint::Execute, env: env("here"), info, gas_before: 8 }
    );
}

#[test]
fn other_calls_come_from_nobody() {
    let contract = MockContract::new("here");
    let calls = [
        (contract.query(7), EntryPoint::Query),
        (contract.migrate(7), EntryPoint::Migrate),
        (contract.reply(7), EntryPoint::Reply),
        (contract.sudo(7), EntryPoint::Sudo),
        (contract.ibc_channel_open(7), EntryPoint::IbcChannelOpen),
        (contract.ibc_channel_connect(7), EntryPoint::IbcChannelConnect),
        (contract.ibc_channel_close(7), EntryPoint::IbcChannelClose),
        (contract.ibc_packet_receive(7), EntryPoint::IbcPacketReceive),
        (contract.ibc_packet_ack(7), EntryPoint::IbcPacketAck),
        (contract.ibc_packet_timeout(7), EntryPoint::IbcPacketTimeout),
    ];
    for (call, entry) in calls {
        assert_eq!(call, ContractCall { entry, env: env("here"), info: None, gas_before: 7 });
    }
}

#[test]
fn the_surroundings_are_those_of_the_machine() {
    let real = cosmwasm_vm::testing::mock_env();
    let call = MockContract::new(real.contract.address.as_str()).query(0);
    assert_eq!(call.env.block.height, real.block.height);
    assert_eq!(call.env.block.time.nanos, real.block.time.nanos());
    assert_eq!(call.env.block.chain_id, real.block.chain_id);
    assert_eq!(call.env.transaction, real.transaction.map(|t| t.index));
    assert_eq!(call.env.contract_address, real.contract.address.as_str());
}

#[test]
fn gas_is_reported_in_whole_units() {
    let call = MockContract::new("here").query(10 * GAS_PER_US);
    assert_eq!(call.settle(Ok(Ok("yes")), 0), Ok(("yes", 10)));
    assert_eq!(call.settle(Ok(Ok("yes")), 1), Ok(("yes", 9)));
    assert_eq!(call.settle(Ok(Ok("yes")), GAS_PER_US), Ok(("yes", 9)));
    assert_eq!(call.settle(Ok(Ok("yes")), 10 * GAS_PER_US), Ok(("yes", 0)));
}

#[test]
fn failures_are_reported_by_their_text() {
    let call = MockContract::new("here").execute("me", &[], 5);
    assert_eq!(call.settle::<u8>(Ok(Err("refused".to_string())), 9), Err("refused".to_string()));
    assert_eq!(call.settle::<u8>(Err("crashed".to_string()), 9), Err("crashed".to_string()));
}

#[test]
fn answers_to_queries_must_be_readable() {
    let call = MockContract::new("here").query(3 * GAS_PER_US);
    assert_eq!(call.settle_query(Ok(Ok(Ok(1u8))), GAS_PER_US), Ok((1u8, 2)));
    assert_eq!(
        call.settle_query::<u8>(Ok(Ok(Err("garbled".to_string()))), 9),
        Err("garbled".to_string())
    );
    assert_eq!(
        call.settle_query::<u8>(Ok(Err("refused".to_string())), 9),
        Err("refused".to_string())
    );
    assert_eq!(call.settle_query::<u8>(Err("crashed".to_string()), 9), Err("crashed".to_string()));
}
