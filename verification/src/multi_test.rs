//! The test environment that runs contracts in the process of the test: which block each
//! transaction runs in, and what is asked of the chain.
use crate::tokens::{SendRequest, SendView, TokenBook, TokensView};
use crate::types::{
    coins, coins_view, copy_coins, BlockInfo, BlockView, Coin, CoinView, Timestamp, BLOCK_SECONDS,
    NANOS_PER_SECOND,
};
use vstd::prelude::*;

verus! {

/// What the creation of a native token costs, unless a test says otherwise.
pub const CREATION_FEE: u128 = 10_000_000;

/// The blocks before a test starts that are not for an account of its own: the first block, the
/// one for the owner, and those in which the two codes are stored.
pub const SETUP_BLOCKS: u64 = 4;

/// What an account starts with.
#[derive(Clone, Debug, PartialEq, Eq)]
pub struct InitialFunds {
    pub account: String,
    pub funds: Vec<Coin>,
}

#[verifier::ext_equal]
pub struct InitialFundsView {
    pub account: Seq<char>,
    pub funds: Seq<CoinView>,
}

impl View for InitialFunds {
    type V = InitialFundsView;

    open spec fn view(&self) -> InitialFundsView {
        InitialFundsView { account: self.account@, funds: coins_view(self.funds@) }
    }
}

pub open spec fn initial_view(s: Seq<InitialFunds>) -> Seq<InitialFundsView> {
    s.map_values(|f: InitialFunds| f@)
}

/// The block that a chain with `accounts` accounts starts at: as high as if there had been one
/// block for each account and for the setup, and as late as if those had run one after the other
/// from `now` on.
pub open spec fn first_block(accounts: int, chain_id: Seq<char>, now: int) -> BlockView {
    let height = SETUP_BLOCKS + accounts;
    BlockView { height, nanos: (now + height * BLOCK_SECONDS) * NANOS_PER_SECOND, chain_id }
}

/// How a chain starts.
#[derive(Clone, Debug, PartialEq, Eq)]
pub struct Genesis {
    pub block: BlockInfo,
    /// The fee for the creation of a native token.
    pub creation_fee: Vec<Coin>,
    pub balances: Vec<InitialFunds>,
}

#[verifier::ext_equal]
pub struct GenesisView {
    pub block: BlockView,
    pub creation_fee: Seq<CoinView>,
    pub balances: Seq<InitialFundsView>,
}

impl View for Genesis {
    type V = GenesisView;

    open spec fn view(&self) -> GenesisView {
        GenesisView {
            block: self.block@,
            creation_fee: coins_view(self.creation_fee@),
            balances: initial_view(self.balances@),
        }
    }
}

impl Genesis {
    /// Whether there is room for the first block of a chain with `accounts` accounts.
    pub fn has_room(accounts: usize, now: u64) -> (r: bool)
        ensures
            r == first_block(accounts as int, Seq::empty(), now as int).fits(),
    {
        let n: u64 = accounts as u64;
        let most: u64 = u64::MAX / NANOS_PER_SECOND;
        if now > most || n > most {
            return false;
        }
        now + (n + SETUP_BLOCKS) * BLOCK_SECONDS <= most
    }

    /// The environment on a chain that started so and has stored the two codes, and the names of
    /// its accounts.
    pub fn launch(self, token_id: u64, tokenfactory_id: u64) -> (r: (MultiTestMockApp, Vec<String>))
        ensures
            r.0.wf(),
            r.0.block@ == self@.block,
            r.0.tokens@ == (TokensView { addrs: Map::empty(), token_id, tokenfactory_id }),
            r.1.len() == self@.balances.len(),
            forall|i: int|
                0 <= i < r.1.len() ==> (#[trigger] r.1@[i])@ == self@.balances[i].account,
    {
        let mut accounts: Vec<String> = Vec::new();
        let mut i: usize = 0;
        while i < self.balances.len()
            invariant
                i <= self.balances.len(),
                accounts.len() == i,
                forall|j: int|
                    0 <= j < i ==> (#[trigger] accounts@[j])@ == self.balances@[j].account@,
            decreases self.balances.len() - i,
        {
            accounts.push(self.balances[i].account.clone());
            i += 1;
        }
        let tokens = TokenBook::new(token_id, tokenfactory_id);
        (MultiTestMockApp { block: self.block, tokens }, accounts)
    }
}

/// A request to make a contract.
#[derive(Clone, Debug, PartialEq, Eq)]
pub struct InstantiateRequest {
    pub code_id: u64,
    pub sender: String,
    pub funds: Vec<Coin>,
    pub label: String,
    pub admin: Option<String>,
}

/// A request to run what a message says.
#[derive(Clone, Debug, PartialEq, Eq)]
pub enum ExecuteRequest {
    /// By the module for native tokens, in the name of `sender`.
    Custom { sender: String },
    /// By a contract, which is sent coins.
    Contract { sender: String, contract_addr: String, funds: Vec<Coin> },
}

pub enum ExecuteRequestView {
    Custom { sender: Seq<char> },
    Contract { sender: Seq<char>, contract_addr: Seq<char>, funds: Seq<CoinView> },
}

impl View for ExecuteRequest {
    type V = ExecuteRequestView;

    open spec fn view(&self) -> ExecuteRequestView {
        match *self {
            ExecuteRequest::Custom { sender } => ExecuteRequestView::Custom { sender: sender@ },
            ExecuteRequest::Contract { sender, contract_addr, funds } => {
                ExecuteRequestView::Contract {
                    sender: sender@,
                    contract_addr: contract_addr@,
                    funds: coins_view(funds@),
                }
            },
        }
    }
}

/// Who is asked a question.
#[derive(Clone, Debug, PartialEq, Eq)]
pub enum QueryRoute {
    /// The module for native tokens.
    Custom,
    /// A contract.
    Contract { contract_addr: String },
}

pub enum QueryRouteView {
    Custom,
    Contract { contract_addr: Seq<char> },
}

impl View for QueryRoute {
    type V = QueryRouteView;

    open spec fn view(&self) -> QueryRouteView {
        match *self {
            QueryRoute::Custom => QueryRouteView::Custom,
            QueryRoute::Contract { contract_addr } => QueryRouteView::Contract {
                contract_addr: contract_addr@,
            },
        }
    }
}

/// The request for a message: one for the module for native tokens is run in the name of
/// `contract_addr`, whoever sent it and with whatever coins.
pub open spec fn execute_request(
    sender: Seq<char>,
    contract_addr: Seq<char>,
    for_module: bool,
    funds: Seq<CoinView>,
) -> ExecuteRequestView {
    if for_module {
        ExecuteRequestView::Custom { sender: contract_addr }
    } else {
        ExecuteRequestView::Contract { sender, contract_addr, funds }
    }
}

/// What moves a chain to another block.
pub enum Move {
    /// [`MultiTestMockApp::set_block_time_seconds`].
    SetTime { seconds: nat },
    /// [`MultiTestMockApp::set_chain_id`].
    SetChainId { chain_id: Seq<char> },
    /// [`MultiTestMockApp::increase_time`].
    IncreaseTime { seconds: nat },
    /// [`MultiTestMockApp::upload`], [`MultiTestMockApp::instantiate`],
    /// [`MultiTestMockApp::execute`] or [`MultiTestMockApp::sudo`].
    Transaction,
}

/// The block after a move.
pub open spec fn moved(b: BlockView, by: Move) -> BlockView {
    match by {
        Move::SetTime { seconds } => b.at_seconds(seconds as int),
        Move::SetChainId { chain_id } => b.on_chain(chain_id),
        Move::IncreaseTime { seconds } => b.after(seconds as int),
        Move::Transaction => b.next(),
    }
}

/// The block that the chain is at, and what is known of tokens.
#[verifier::ext_equal]
pub struct AppView {
    pub block: BlockView,
    pub tokens: TokensView,
}

impl AppView {
    pub open spec fn moved(self, by: Move) -> AppView {
        AppView { block: moved(self.block, by), ..self }
    }

    /// The environment after some moves.
    pub open spec fn moved_all(self, moves: Seq<Move>) -> AppView
        decreases moves.len(),
    {
        if moves.len() == 0 {
            self
        } else {
            self.moved_all(moves.drop_last()).moved(moves.last())
        }
    }

    /// The environment in which a message is run, and the request for it.
    pub open spec fn executed(
        self,
        sender: Seq<char>,
        contract_addr: Seq<char>,
        for_module: bool,
        funds: Seq<CoinView>,
    ) -> (AppView, ExecuteRequestView) {
        (
            self.moved(Move::Transaction),
            execute_request(sender, contract_addr, for_module, funds),
        )
    }
}

impl View for MultiTestMockApp {
    type V = AppView;

    open spec fn view(&self) -> AppView {
        AppView { block: self.block@, tokens: self.tokens@ }
    }
}

/// A test environment whose chain runs in the process of the test.
pub struct MultiTestMockApp {
    /// The block that the chain is at.
    pub block: BlockInfo,
    pub tokens: TokenBook,
}

impl MultiTestMockApp {
    pub open spec fn wf(self) -> bool {
        self.tokens.wf()
    }

    /// How a chain on which a native token costs [`CREATION_FEE`] of `fee_denom` starts.
    pub fn new(init_balances: Vec<InitialFunds>, fee_denom: &str, chain_id: &str, now: u64) -> (r:
        Genesis)
        requires
            first_block(init_balances.len() as int, chain_id@, now as int).fits(),
        ensures
            r@ == (GenesisView {
                block: first_block(init_balances.len() as int, chain_id@, now as int),
                creation_fee: seq![CoinView { denom: fee_denom@, amount: CREATION_FEE }],
                balances: initial_view(init_balances@),
            }),
    {
        MultiTestMockApp::new_with_creation_fee(
            init_balances,
            coins(CREATION_FEE, fee_denom),
            chain_id,
            now,
        )
    }

    /// How a chain starts at the time `now`, in seconds. Once the two codes are stored on it,
    /// [`Genesis::launch`] gives the environment.
    pub fn new_with_creation_fee(
        init_balances: Vec<InitialFunds>,
        denom_creation_fee: Vec<Coin>,
        chain_id: &str,
        now: u64,
    ) -> (r: Genesis)
        requires
            first_block(init_balances.len() as int, chain_id@, now as int).fits(),
        ensures
            r@ == (GenesisView {
                block: first_block(init_balances.len() as int, chain_id@, now as int),
                creation_fee: coins_view(denom_creation_fee@),
                balances: initial_view(init_balances@),
            }),
    {
        let height: u64 = SETUP_BLOCKS + init_balances.len() as u64;
        let time = Timestamp::from_seconds(now + height * BLOCK_SECONDS);
        let block = BlockInfo { height, time, chain_id: chain_id.to_owned() };
        Genesis { block, creation_fee: denom_creation_fee, balances: init_balances }
    }

    /// Takes note of the block that the chain is at.
    pub fn observe(&mut self, block: BlockInfo)
        requires
            old(self).wf(),
        ensures
            final(self).wf(),
            final(self).block == block,
            final(self).tokens == old(self).tokens,
    {
        self.block = block;
    }

    /// Tokens are made from the code `token_id` from now on.
    pub fn set_token_contract(&mut self, token_id: u64)
        requires
            old(self).wf(),
        ensures
            final(self).wf(),
            final(self).block == old(self).block,
            final(self).tokens@ == old(self).tokens@.with_code(token_id),
    {
        self.tokens.set_token_contract(token_id);
    }

    /// Goes on to a block at another time. The block height rises with every change to the
    /// block, and is never taken back.
    pub fn set_block_time_seconds(&mut self, seconds: u64)
        requires
            old(self).wf(),
            old(self).block@.at_seconds(seconds as int).fits(),
        ensures
            final(self).wf(),
            final(self)@ == old(self)@.moved(Move::SetTime { seconds: seconds as nat }),
            final(self).tokens == old(self).tokens,
    {
        self.block.height = self.block.height + 1;
        self.block.time = Timestamp::from_seconds(seconds);
    }

    /// Goes on to a block on a chain of another name.
    pub fn set_chain_id(&mut self, chain_id: &str)
        requires
            old(self).wf(),
            old(self).block@.on_chain(chain_id@).fits(),
        ensures
            final(self).wf(),
            final(self)@ == old(self)@.moved(Move::SetChainId { chain_id: chain_id@ }),
            final(self).tokens == old(self).tokens,
    {
        self.block.height = self.block.height + 1;
        self.block.chain_id = chain_id.to_owned();
    }

    pub fn get_block_height(&self) -> (r: u64)
        ensures
            r == self.block@.height,
    {
        self.block.height
    }

    pub fn get_block_time(&self) -> (r: Timestamp)
        ensures
            r.nanos == self.block@.nanos,
    {
        self.block.time
    }

    /// Goes on to the block after some seconds.
    pub fn increase_time(&mut self, seconds: u64)
        requires
            old(self).wf(),
            old(self).block@.after(seconds as int).fits(),
        ensures
            final(self).wf(),
            final(self)@ == old(self)@.moved(Move::IncreaseTime { seconds: seconds as nat }),
            final(self).tokens == old(self).tokens,
    {
        self.block.time = self.block.time.plus_seconds(seconds);
        self.block.height = self.block.height + 1;
    }

    /// Goes on to the next block, in which code is then stored.
    pub fn upload(&mut self)
        requires
            old(self).wf(),
            old(self).block@.next().fits(),
        ensures
            final(self).wf(),
            final(self)@ == old(self)@.moved(Move::Transaction),
            final(self).tokens == old(self).tokens,
    {
        self.increase_time(BLOCK_SECONDS);
    }

    /// Goes on to the next block, in which a contract is then made. Whoever makes it is its admin.
    pub fn instantiate(
        &mut self,
        code_id: u64,
        sender: &str,
        send_funds: &[Coin],
        label: &str,
    ) -> (r: InstantiateRequest)
        requires
            old(self).wf(),
            old(self).block@.next().fits(),
        ensures
            final(self).wf(),
            final(self)@ == old(self)@.moved(Move::Transaction),
            final(self).tokens == old(self).tokens,
            r.code_id == code_id,
            r.sender@ == sender@,
            coins_view(r.funds@) == coins_view(send_funds@),
            r.label@ == label@,
            r.admin matches Some(admin) && admin@ == sender@,
    {
        self.increase_time(BLOCK_SECONDS);
        InstantiateRequest {
            code_id,
            sender: sender.to_owned(),
            funds: copy_coins(send_funds),
            label: label.to_owned(),
            admin: Some(sender.to_owned()),
        }
    }

    /// Goes on to the next block, in which a message is then run. A message for the module for
    /// native tokens is run in the name of `contract_addr`, and coins that come with it stay
    /// where they are.
    pub fn execute(
        &mut self,
        sender: &str,
        contract_addr: &str,
        for_module: bool,
        send_funds: &[Coin],
    ) -> (r: ExecuteRequest)
        requires
            old(self).wf(),
            old(self).block@.next().fits(),
        ensures
            final(self).wf(),
            (final(self)@, r@) == old(self)@.executed(
                sender@,
                contract_addr@,
                for_module,
                coins_view(send_funds@),
            ),
            final(self).tokens == old(self).tokens,
    {
        self.increase_time(BLOCK_SECONDS);
        if for_module {
            ExecuteRequest::Custom { sender: contract_addr.to_owned() }
        } else {
            ExecuteRequest::Contract {
                sender: sender.to_owned(),
                contract_addr: contract_addr.to_owned(),
                funds: copy_coins(send_funds),
            }
        }
    }

    /// Goes on to the next block, in which the chain itself then calls a contract.
    pub fn sudo(&mut self)
        requires
            old(self).wf(),
            old(self).block@.next().fits(),
        ensures
            final(self).wf(),
            final(self)@ == old(self)@.moved(Move::Transaction),
            final(self).tokens == old(self).tokens,
    {
        self.increase_time(BLOCK_SECONDS);
    }

    /// Who is asked a question: a question for the module for native tokens goes there, whatever
    /// the contract.
    pub fn query(&self, contract_addr: &str, for_module: bool) -> (r: QueryRoute)
        ensures
            r@ == (if for_module {
                QueryRouteView::Custom
            } else {
                QueryRouteView::Contract { contract_addr: contract_addr@ }
            }),
    {
        if for_module {
            QueryRoute::Custom
        } else {
            QueryRoute::Contract { contract_addr: contract_addr.to_owned() }
        }
    }

    /// The request to send coins, which needs no block of its own.
    pub fn send_coins(&self, sender: &str, recipient: &str, amount: &[Coin]) -> (r: SendRequest)
        ensures
            r@ == (SendView {
                sender: sender@,
                recipient: recipient@,
                amount: coins_view(amount@),
            }),
    {
        SendRequest {
            sender: sender.to_owned(),
            recipient: recipient.to_owned(),
            amount: copy_coins(amount),
        }
    }
}

/// Every move is one block: the height counts the moves and is never taken back. The time is never
/// taken back either, unless it is set; and the name of the chain stays, unless it is set. What is
/// known of tokens stays in any case, with the codes that they are made from.
pub proof fn law_height_counts_moves(app: AppView, moves: Seq<Move>)
    ensures
        app.moved_all(moves).block.height == app.block.height + moves.len(),
        (forall|i: int| 0 <= i < moves.len() ==> !(#[trigger] moves[i] is SetTime))
            ==> app.moved_all(moves).block.nanos >= app.block.nanos,
        (forall|i: int| 0 <= i < moves.len() ==> !(#[trigger] moves[i] is SetChainId))
            ==> app.moved_all(moves).block.chain_id == app.block.chain_id,
        app.moved_all(moves).tokens == app.tokens,
    decreases moves.len(),
{
    if moves.len() > 0 {
        let before = moves.drop_last();
        law_height_counts_moves(app, before);
        assert(forall|i: int| 0 <= i < before.len() ==> before[i] == #[trigger] moves[i]);
        assert(moves.last() == moves[moves.len() - 1]);
    }
}

/// Who sends a message for the module for native tokens, and with which coins, plays no part: two
/// such messages to one address lead to the same request in the same environment.
pub proof fn law_module_messages_ignore_sender_and_funds(
    app: AppView,
    contract_addr: Seq<char>,
    sender1: Seq<char>,
    funds1: Seq<CoinView>,
    sender2: Seq<char>,
    funds2: Seq<CoinView>,
)
    ensures
        app.executed(sender1, contract_addr, true, funds1) == app.executed(
            sender2,
            contract_addr,
            true,
            funds2,
        ),
{
}

/// A chain starts as if each of its accounts had taken a block: one more account, one more block.
pub proof fn law_accounts_take_blocks(accounts: nat, chain_id: Seq<char>, now: int)
    ensures
        first_block(accounts + 1 as int, chain_id, now) == first_block(
            accounts as int,
            chain_id,
            now,
        ).next(),
{
}

/// A chain starts four blocks and one for each account high, and five seconds for each of these
/// blocks after `now`, under the name given.
pub proof fn law_first_block_is_exact(accounts: int, chain_id: Seq<char>, now: int)
    ensures
        first_block(accounts, chain_id, now).height == accounts + 4,
        first_block(accounts, chain_id, now).nanos == (now + 5 * (accounts + 4)) * 1_000_000_000,
        first_block(accounts, chain_id, now).chain_id == chain_id,
        CREATION_FEE == 10_000_000,
{
    assert(5 * (accounts + 4) == (SETUP_BLOCKS + accounts) * BLOCK_SECONDS);
}

/// What each move does to height, time and name: a transaction takes five seconds, and what is set
/// is as it was set, whatever it was before.
pub proof fn law_moves_are_exact(b: BlockView, seconds: nat, chain_id: Seq<char>)
    ensures
        ({
            let next = moved(b, Move::SetTime { seconds });
            &&& next.height == b.height + 1
            &&& next.nanos == seconds * 1_000_000_000
            &&& next.chain_id == b.chain_id
        }),
        ({
            let next = moved(b, Move::IncreaseTime { seconds });
            &&& next.height == b.height + 1
            &&& next.nanos == b.nanos + seconds * 1_000_000_000
            &&& next.chain_id == b.chain_id
        }),
        ({
            let next = moved(b, Move::SetChainId { chain_id });
            &&& next.height == b.height + 1
            &&& next.nanos == b.nanos
            &&& next.chain_id == chain_id
        }),
        ({
            let next = moved(b, Move::Transaction);
            &&& next.height == b.height + 1
            &&& next.nanos == b.nanos + 5_000_000_000
            &&& next.chain_id == b.chain_id
        }),
{
}

/// A message for a contract is run by that contract, in the name of the sender and with the coins
/// that were sent; one for the module for native tokens is run in the name of the contract.
pub proof fn law_messages_go_where_they_belong(
    app: AppView,
    sender: Seq<char>,
    contract_addr: Seq<char>,
    funds: Seq<CoinView>,
)
    ensures
        app.executed(sender, contract_addr, false, funds).1 == (ExecuteRequestView::Contract {
            sender,
            contract_addr,
            funds,
        }),
        app.executed(sender, contract_addr, true, funds).1 == (ExecuteRequestView::Custom {
            sender: contract_addr,
        }),
        app.executed(sender, contract_addr, true, funds).0.block.height == app.block.height + 1,
        app.executed(sender, contract_addr, false, funds).0.block.height == app.block.height + 1,
        app.executed(sender, contract_addr, false, funds).0.block.nanos == app.block.nanos
            + 5_000_000_000,
        app.executed(sender, contract_addr, false, funds).0.tokens == app.tokens,
{
}

/// What a chain starts with and what is asked of it are seen with all that they have.
pub proof fn law_chains_are_seen_whole(
    initial: InitialFunds,
    all: Seq<InitialFunds>,
    genesis: Genesis,
    app: MultiTestMockApp,
    sender: String,
    contract_addr: String,
    funds: Vec<Coin>,
)
    ensures
        initial@.account == initial.account@,
        initial@.funds == coins_view(initial.funds@),
        initial_view(all).len() == all.len(),
        forall|i: int| 0 <= i < all.len() ==> #[trigger] initial_view(all)[i] == all[i]@,
        genesis@.block == genesis.block@,
        genesis@.creation_fee == coins_view(genesis.creation_fee@),
        genesis@.balances == initial_view(genesis.balances@),
        app@.block == app.block@,
        app@.tokens == app.tokens@,
        (ExecuteRequest::Custom { sender })@ == (ExecuteRequestView::Custom { sender: sender@ }),
        (ExecuteRequest::Contract { sender, contract_addr, funds })@ == (
        ExecuteRequestView::Contract {
            sender: sender@,
            contract_addr: contract_addr@,
            funds: coins_view(funds@),
        }),
        QueryRoute::Custom@ is Custom,
        (QueryRoute::Contract { contract_addr })@ == (QueryRouteView::Contract {
            contract_addr: contract_addr@,
        }),
{
}

} // verus!
