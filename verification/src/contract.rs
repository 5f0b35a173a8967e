//! Running one contract by itself: what goes into each call and what is made of the answer.
use crate::api::{ApiView, MockApi, BECH32_PREFIX};
use crate::state::{encodable_entry, is_state, law_state_is_unambiguous, parse_state, well_formed};
use crate::storage::{entries, Entry, MockStorage};
use crate::types::{coins_view, copy_coins, BlockInfo, BlockView, Coin, CoinView, Timestamp};
use vstd::prelude::*;

verus! {

/// The gas that stands for one microsecond of work.
pub const GAS_PER_US: u64 = 1_000_000;

/// The surroundings in which a contract is called.
#[derive(Clone, Debug, PartialEq, Eq)]
pub struct Env {
    pub block: BlockInfo,
    /// The place of the transaction in the block.
    pub transaction: Option<u32>,
    pub contract_address: String,
}

#[verifier::ext_equal]
pub struct EnvView {
    pub block: BlockView,
    pub transaction: Option<u32>,
    pub contract_address: Seq<char>,
}

impl View for Env {
    type V = EnvView;

    open spec fn view(&self) -> EnvView {
        EnvView {
            block: self.block@,
            transaction: self.transaction,
            contract_address: self.contract_address@,
        }
    }
}

/// The surroundings that tests are run in, for a contract at `address`.
pub open spec fn test_env(address: Seq<char>) -> EnvView {
    EnvView {
        block: BlockView {
            height: 12_345,
            nanos: 1_571_797_419_879_305_533,
            chain_id: "cosmos-testnet-14002"@,
        },
        transaction: Some(3u32),
        contract_address: address,
    }
}

/// Calls `cosmwasm_vm::testing::mock_env`, which takes nothing. Claims the fixed block,
/// transaction and address that it gives.
#[verifier::external_body]
fn mock_env() -> (r: Env)
    ensures
        r@ == test_env("cosmos2contract"@),
{
    let env = cosmwasm_vm::testing::mock_env();
    Env {
        block: BlockInfo {
            height: env.block.height,
            time: Timestamp { nanos: env.block.time.nanos() },
            chain_id: env.block.chain_id,
        },
        transaction: env.transaction.map(|t| t.index),
        contract_address: env.contract.address.into_string(),
    }
}

/// Who calls a contract, and with which coins.
#[derive(Clone, Debug, PartialEq, Eq)]
pub struct MessageInfo {
    pub sender: String,
    pub funds: Vec<Coin>,
}

#[verifier::ext_equal]
pub struct InfoView {
    pub sender: Seq<char>,
    pub funds: Seq<CoinView>,
}

impl View for MessageInfo {
    type V = InfoView;

    open spec fn view(&self) -> InfoView {
        InfoView { sender: self.sender@, funds: coins_view(self.funds@) }
    }
}

/// The functions by which a contract is called.
#[derive(Clone, Copy, Debug, PartialEq, Eq, Structural)]
pub enum EntryPoint {
    Instantiate,
    Execute,
    Query,
    Migrate,
    Reply,
    Sudo,
    IbcChannelOpen,
    IbcChannelConnect,
    IbcChannelClose,
    IbcPacketReceive,
    IbcPacketAck,
    IbcPacketTimeout,
}

/// What a contract answers: something, or the text of its failure.
pub type ContractResult<T> = Result<T, String>;

/// What running a contract gives: its answer, or the text of the failure of the machine.
pub type VmOutcome<T> = Result<ContractResult<T>, String>;

/// What is reported of a call: the answer with the gas used, in units of a microsecond's work, or
/// the text of the failure, whoever failed.
pub open spec fn reported<T>(
    outcome: VmOutcome<T>,
    gas_before: u64,
    gas_left: u64,
) -> ContractResult<(T, u64)> {
    match outcome {
        Ok(Ok(answer)) => Ok(
            (answer, ((gas_before - gas_left) / GAS_PER_US as int) as u64),
        ),
        Ok(Err(error)) => Err(error),
        Err(error) => Err(error),
    }
}

/// An answer whose contents could not be read is a failure too.
pub open spec fn read_answer<T>(outcome: VmOutcome<Result<T, String>>) -> VmOutcome<T> {
    match outcome {
        Ok(Ok(Ok(answer))) => Ok(Ok(answer)),
        Ok(Ok(Err(error))) => Ok(Err(error)),
        Ok(Err(error)) => Ok(Err(error)),
        Err(error) => Err(error),
    }
}

/// A call of a contract, ready to be run.
#[derive(Clone, Debug, PartialEq, Eq)]
pub struct ContractCall {
    pub entry: EntryPoint,
    pub env: Env,
    /// Only where a person calls: to set the contract up or to execute it.
    pub info: Option<MessageInfo>,
    /// The gas that was left when the call was made ready.
    pub gas_before: u64,
}

impl ContractCall {
    /// What is reported of the call, once it has been run.
    pub fn settle<T>(&self, outcome: VmOutcome<T>, gas_left: u64) -> (r: ContractResult<(T, u64)>)
        requires
            outcome matches Ok(Ok(_)) ==> gas_left <= self.gas_before,
        ensures
            r == reported(outcome, self.gas_before, gas_left),
    {
        match outcome {
            Ok(Ok(ret)) => {
                let gas_used: u64 = (self.gas_before - gas_left) / GAS_PER_US;
                Ok((ret, gas_used))
            },
            Ok(Err(error)) => Err(error),
            Err(error) => Err(error),
        }
    }

    /// What is reported of a query, whose answer still had to be read.
    pub fn settle_query<T>(&self, outcome: VmOutcome<Result<T, String>>, gas_left: u64) -> (r:
        ContractResult<(T, u64)>)
        requires
            outcome matches Ok(Ok(Ok(_))) ==> gas_left <= self.gas_before,
        ensures
            r == reported(read_answer(outcome), self.gas_before, gas_left),
    {
        let outcome: VmOutcome<T> = match outcome {
            Ok(Ok(Ok(answer))) => Ok(Ok(answer)),
            Ok(Ok(Err(error))) => Ok(Err(error)),
            Ok(Err(error)) => Ok(Err(error)),
            Err(error) => Err(error),
        };
        self.settle(outcome, gas_left)
    }
}

/// A contract that is run by itself, at an address.
pub struct MockContract {
    address: String,
    api: MockApi,
}

#[verifier::ext_equal]
pub struct ContractView {
    pub address: Seq<char>,
    pub api: ApiView,
}

impl View for MockContract {
    type V = ContractView;

    closed spec fn view(&self) -> ContractView {
        ContractView { address: self.address@, api: self.api@ }
    }
}

impl MockContract {
    /// A contract at `address`, with the addresses of the default prefix.
    pub fn new(address: &str) -> (r: Self)
        ensures
            r@ == (ContractView {
                address: address@,
                api: ApiView::Bech32 { prefix: BECH32_PREFIX@ },
            }),
    {
        MockContract { address: address.to_owned(), api: MockApi::default() }
    }

    pub fn address(&self) -> (r: &str)
        ensures
            r@ == self@.address,
    {
        self.address.as_str()
    }

    pub fn api(&self) -> (r: MockApi)
        ensures
            r@ == self@.api,
    {
        self.api
    }

    fn call(&self, entry: EntryPoint, info: Option<MessageInfo>, gas_left: u64) -> (r: ContractCall)
        ensures
            r.entry == entry,
            r.env@ == test_env(self@.address),
            r.info == info,
            r.gas_before == gas_left,
    {
        let mut env = mock_env();
        env.contract_address = self.address.clone();
        ContractCall { entry, env, info, gas_before: gas_left }
    }

    /// Puts the entries of a dump into the store, first to last.
    pub fn load_state(store: &mut MockStorage, state: &[u8])
        requires
            old(store).wf(),
            well_formed(state@),
        ensures
            final(store).wf(),
            forall|s: Seq<Entry>|
                is_state(state@, s) ==> final(store)@ == #[trigger] old(store)@.set_all(s),
    {
        let records = match parse_state(state) {
            Some(records) => records,
            None => {
                return;
            },
        };
        let ghost all = entries(records@);
        let ghost before = store@;
        let mut i: usize = 0;
        assert(all.skip(0) =~= all);
        while i < records.len()
            invariant
                store.wf(),
                i <= records.len(),
                all == entries(records@),
                is_state(state@, all),
                store@.set_all(all.skip(i as int)) == before.set_all(all),
            decreases records.len() - i,
        {
            proof {
                let rest = all.skip(i as int);
                assert(rest[0] == all[i as int]);
                assert(rest.skip(1) =~= all.skip(i + 1));
                assert(encodable_entry(all[i as int]));
            }
            let _ = store.set(records[i].0.as_slice(), records[i].1.as_slice());
            i += 1;
        }
        proof {
            assert(all.skip(i as int) =~= Seq::empty());
            assert forall|s: Seq<Entry>| is_state(state@, s) implies store@ == #[trigger] old(
                store,
            )@.set_all(s) by {
                law_state_is_unambiguous(state@, s, all);
            }
        }
    }

    /// The call that sets the contract up.
    pub fn instantiate(&self, sender: &str, funds: &[Coin], gas_left: u64) -> (r: ContractCall)
        ensures
            r.entry == EntryPoint::Instantiate,
            r.env@ == test_env(self@.address),
            r.info matches Some(info) && info@ == (InfoView {
                sender: sender@,
                funds: coins_view(funds@),
            }),
            r.gas_before == gas_left,
    {
        let info = MessageInfo { sender: sender.to_owned(), funds: copy_coins(funds) };
        self.call(EntryPoint::Instantiate, Some(info), gas_left)
    }

    /// The call that executes a message.
    pub fn execute(&self, sender: &str, funds: &[Coin], gas_left: u64) -> (r: ContractCall)
        ensures
            r.entry == EntryPoint::Execute,
            r.env@ == test_env(self@.address),
            r.info matches Some(info) && info@ == (InfoView {
                sender: sender@,
                funds: coins_view(funds@),
            }),
            r.gas_before == gas_left,
    {
        let info = MessageInfo { sender: sender.to_owned(), funds: copy_coins(funds) };
        self.call(EntryPoint::Execute, Some(info), gas_left)
    }

    /// The call that asks the contract something.
    pub fn query(&self, gas_left: u64) -> (r: ContractCall)
        ensures
            r.entry == EntryPoint::Query,
            r.env@ == test_env(self@.address),
            r.info is None,
            r.gas_before == gas_left,
    {
        self.call(EntryPoint::Query, None, gas_left)
    }

    /// The call that moves the contract to new code.
    pub fn migrate(&self, gas_left: u64) -> (r: ContractCall)
        ensures
            r.entry == EntryPoint::Migrate,
            r.env@ == test_env(self@.address),
            r.info is None,
            r.gas_before == gas_left,
    {
        self.call(EntryPoint::Migrate, None, gas_left)
    }

    /// The call that hands the contract the answer to a message it sent.
    pub fn reply(&self, gas_left: u64) -> (r: ContractCall)
        ensures
            r.entry == EntryPoint::Reply,
            r.env@ == test_env(self@.address),
            r.info is None,
            r.gas_before == gas_left,
    {
        self.call(EntryPoint::Reply, None, gas_left)
    }

    /// The call that the chain itself makes.
    pub fn sudo(&self, gas_left: u64) -> (r: ContractCall)
        ensures
            r.entry == EntryPoint::Sudo,
            r.env@ == test_env(self@.address),
            r.info is None,
            r.gas_before == gas_left,
    {
        self.call(EntryPoint::Sudo, None, gas_left)
    }

    /// The call that proposes a channel.
    pub fn ibc_channel_open(&self, gas_left: u64) -> (r: ContractCall)
        ensures
            r.entry == EntryPoint::IbcChannelOpen,
            r.env@ == test_env(self@.address),
            r.info is None,
            r.gas_before == gas_left,
    {
        self.call(EntryPoint::IbcChannelOpen, None, gas_left)
    }

    /// The call that says that a channel is open.
    pub fn ibc_channel_connect(&self, gas_left: u64) -> (r: ContractCall)
        ensures
            r.entry == EntryPoint::IbcChannelConnect,
            r.env@ == test_env(self@.address),
            r.info is None,
            r.gas_before == gas_left,
    {
        self.call(EntryPoint::IbcChannelConnect, None, gas_left)
    }

    /// The call that says that a channel is closed.
    pub fn ibc_channel_close(&self, gas_left: u64) -> (r: ContractCall)
        ensures
            r.entry == EntryPoint::IbcChannelClose,
            r.env@ == test_env(self@.address),
            r.info is None,
            r.gas_before == gas_left,
    {
        self.call(EntryPoint::IbcChannelClose, None, gas_left)
    }

    /// The call that hands over a packet.
    pub fn ibc_packet_receive(&self, gas_left: u64) -> (r: ContractCall)
        ensures
            r.entry == EntryPoint::IbcPacketReceive,
            r.env@ == test_env(self@.address),
            r.info is None,
            r.gas_before == gas_left,
    {
        self.call(EntryPoint::IbcPacketReceive, None, gas_left)
    }

    /// The call that says that a packet has arrived.
    pub fn ibc_packet_ack(&self, gas_left: u64) -> (r: ContractCall)
        ensures
            r.entry == EntryPoint::IbcPacketAck,
            r.env@ == test_env(self@.address),
            r.info is None,
            r.gas_before == gas_left,
    {
        self.call(EntryPoint::IbcPacketAck, None, gas_left)
    }

    /// The call that says that a packet has not arrived in time.
    pub fn ibc_packet_timeout(&self, gas_left: u64) -> (r: ContractCall)
        ensures
            r.entry == EntryPoint::IbcPacketTimeout,
            r.env@ == test_env(self@.address),
            r.info is None,
            r.gas_before == gas_left,
    {
        self.call(EntryPoint::IbcPacketTimeout, None, gas_left)
    }
}

/// The gas that is reported of a call is what it used, rounded down to whole units.
pub proof fn law_gas_is_rounded_down<T>(outcome: VmOutcome<T>, gas_before: u64, gas_left: u64)
    requires
        gas_left <= gas_before,
        outcome matches Ok(Ok(_)),
    ensures
        GAS_PER_US == 1_000_000,
        reported(outcome, gas_before, gas_left) matches Ok((answer, gas_used)) && {
            &&& outcome == Ok::<ContractResult<T>, String>(Ok(answer))
            &&& gas_used * 1_000_000 <= gas_before - gas_left < (gas_used + 1) * 1_000_000
        },
{
}

/// A failure of the contract and a failure of the machine are reported alike, with their text,
/// however much gas was used.
pub proof fn law_failures_keep_their_text<T>(error: String, gas_before: u64, gas_left: u64)
    ensures
        reported::<T>(Err(error), gas_before, gas_left) == Err::<(T, u64), String>(error),
        reported::<T>(Ok(Err(error)), gas_before, gas_left) == Err::<(T, u64), String>(error),
        reported::<T>(read_answer(Ok(Ok(Err(error)))), gas_before, gas_left) == Err::<
            (T, u64),
            String,
        >(error),
{
}

/// A contract is called at its own address, in a block and a transaction that never change.
pub proof fn law_surroundings_have_the_address(a: Seq<char>, b: Seq<char>)
    ensures
        test_env(a).contract_address == a,
        test_env(a).block == test_env(b).block,
        test_env(a).transaction == test_env(b).transaction,
        test_env(a).block.height == 12_345,
        test_env(a).block.nanos == 1_571_797_419_879_305_533,
        test_env(a).block.chain_id == "cosmos-testnet-14002"@,
        test_env(a).transaction == Some(3u32),
{
}

/// An answer that could be read is reported like one that needed no reading, and so is a refusal.
pub proof fn law_answers_that_were_read_are_reported<T>(
    answer: T,
    error: String,
    gas_before: u64,
    gas_left: u64,
)
    ensures
        reported(read_answer(Ok(Ok(Ok(answer)))), gas_before, gas_left) == reported(
            Ok(Ok(answer)),
            gas_before,
            gas_left,
        ),
        reported::<T>(read_answer(Ok(Err(error))), gas_before, gas_left) == Err::<
            (T, u64),
            String,
        >(error),
        reported::<T>(read_answer(Err(error)), gas_before, gas_left) == Err::<(T, u64), String>(
            error,
        ),
{
}

/// Surroundings and callers are seen with all that they have.
pub proof fn law_calls_are_seen_whole(env: Env, info: MessageInfo)
    ensures
        env@.block.height == env.block.height,
        env@.block.nanos == env.block.time.nanos,
        env@.block.chain_id == env.block.chain_id@,
        env@.transaction == env.transaction,
        env@.contract_address == env.contract_address@,
        info@.sender == info.sender@,
        info@.funds.len() == info.funds.len(),
        forall|i: int|
            0 <= i < info.funds.len() ==> (#[trigger] info@.funds[i]).denom
                == info.funds@[i].denom@ && info@.funds[i].amount == info.funds@[i].amount,
{
}

} // verus!
