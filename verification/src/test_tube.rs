//! The test environment on a real chain, where every transaction is signed: the accounts that can
//! sign, what is asked of the chain, and how its answers are read.
use crate::errors::{MockError, StdError};
use crate::text::{amount_value, decimal, format_amount, law_amount_round_trip, parse_amount};
use crate::tokens::{TokenBook, TokensView};
use crate::types::{
    coins, coins_view, AppResponse, Coin, CoinView, Event, ExecuteResponse, TxGas,
};
use vstd::hash_map::StringHashMap;
use vstd::prelude::*;

verus! {

/// What the owner of the environment starts with.
pub const OWNER_FUNDS: u128 = 5_000_000_000_000;

/// What the proposal that makes a contract free of gas is called.
pub const GASLESS_TYPE_URL: &'static str = "/cosmwasm.wasm.v1.SetGasLessContractsProposal";

pub const GASLESS_TITLE: &'static str = "Set Gasless";

/// A coin as it is sent to the chain and comes from it: the amount is a text.
#[derive(Clone, Debug, PartialEq, Eq)]
pub struct ProtoCoin {
    pub denom: String,
    pub amount: String,
}

#[verifier::ext_equal]
pub struct ProtoCoinView {
    pub denom: Seq<char>,
    pub amount: Seq<char>,
}

impl View for ProtoCoin {
    type V = ProtoCoinView;

    open spec fn view(&self) -> ProtoCoinView {
        ProtoCoinView { denom: self.denom@, amount: self.amount@ }
    }
}

pub open spec fn proto_view(s: Seq<ProtoCoin>) -> Seq<ProtoCoinView> {
    s.map_values(|c: ProtoCoin| c@)
}

/// A coin as it is sent.
pub open spec fn written(c: CoinView) -> ProtoCoinView {
    ProtoCoinView { denom: c.denom, amount: decimal(c.amount as nat) }
}

pub open spec fn written_all(s: Seq<CoinView>) -> Seq<ProtoCoinView> {
    s.map_values(|c: CoinView| written(c))
}

/// The amount is one.
pub open spec fn readable(c: ProtoCoinView) -> bool {
    amount_value(c.amount) is Some
}

/// A coin as it came.
pub open spec fn read(c: ProtoCoinView) -> CoinView {
    CoinView { denom: c.denom, amount: amount_value(c.amount)->0 }
}

pub open spec fn read_all(s: Seq<ProtoCoinView>) -> Seq<CoinView> {
    s.map_values(|c: ProtoCoinView| read(c))
}

/// Coins come back as they were sent.
pub proof fn law_funds_round_trip(s: Seq<CoinView>)
    ensures
        forall|i: int| 0 <= i < s.len() ==> readable(#[trigger] written_all(s)[i]),
        read_all(written_all(s)) == s,
{
    assert forall|i: int| 0 <= i < s.len() implies readable(#[trigger] written_all(s)[i]) && read(
        written_all(s)[i],
    ) == s[i] by {
        law_amount_round_trip(s[i].amount);
    }
    assert(read_all(written_all(s)) =~= s);
}

/// An account that was opened for a test.
pub struct OpenAccount<S> {
    /// What the test calls it.
    pub name: String,
    pub address: String,
    /// What it signs with.
    pub signer: S,
}

/// Who signs, by address.
pub open spec fn signers<S>(s: Seq<OpenAccount<S>>) -> Map<Seq<char>, S>
    decreases s.len(),
{
    if s.len() == 0 {
        Map::empty()
    } else {
        signers(s.drop_last()).insert(s.last().address@, s.last().signer)
    }
}

/// The address of each name. A name that is given twice is the later account's.
pub open spec fn addresses<S>(s: Seq<OpenAccount<S>>) -> Map<Seq<char>, Seq<char>>
    decreases s.len(),
{
    if s.len() == 0 {
        Map::empty()
    } else {
        addresses(s.drop_last()).insert(s.last().name@, s.last().address@)
    }
}

/// The accounts of a test environment.
#[verifier::reject_recursive_types(S)]
pub struct TubeView<S> {
    /// Signs what is done for no account in particular.
    pub owner: S,
    /// Who signs, by address.
    pub signers: Map<Seq<char>, S>,
    /// The address of each name.
    pub names: Map<Seq<char>, Seq<char>>,
}

impl<S> TubeView<S> {
    /// The address that `sender` means: that of the account of this name, or else itself.
    pub open spec fn address_of(self, sender: Seq<char>) -> Seq<char> {
        if self.names.contains_key(sender) {
            self.names[sender]
        } else {
            sender
        }
    }

    /// `sender` can sign.
    pub open spec fn knows(self, sender: Seq<char>) -> bool {
        self.signers.contains_key(self.address_of(sender))
    }

    pub open spec fn signer_of(self, sender: Seq<char>) -> S {
        self.signers[self.address_of(sender)]
    }
}

/// The error of a transaction that is to be signed by an account that is not known.
pub open spec fn unknown_account(e: MockError) -> bool {
    e@ == "Account not existed"@
}

/// A proposal to make contracts free of gas.
#[derive(Clone, Debug, PartialEq, Eq)]
pub struct GaslessProposal {
    pub type_url: String,
    pub title: String,
    pub description: String,
    pub contract_addresses: Vec<String>,
    pub proposer: String,
}

/// A request to make a contract.
#[derive(Clone, Debug, PartialEq, Eq)]
pub struct InstantiateCall {
    pub code_id: u64,
    pub admin: Option<String>,
    pub label: Option<String>,
    pub funds: Vec<ProtoCoin>,
}

/// A request to run a message by a contract.
#[derive(Clone, Debug, PartialEq, Eq)]
pub struct ExecuteCall {
    pub contract_addr: String,
    pub funds: Vec<ProtoCoin>,
}

/// A request to send coins.
#[derive(Clone, Debug, PartialEq, Eq)]
pub struct SendCall {
    pub from_address: String,
    pub to_address: String,
    pub amount: Vec<ProtoCoin>,
}

/// The accounts that can sign, each with an `S`.
#[verifier::reject_recursive_types(S)]
pub struct Accounts<S> {
    owner: S,
    account_map: StringHashMap<S>,
    account_name_map: StringHashMap<String>,
}

impl<S> View for Accounts<S> {
    type V = TubeView<S>;

    closed spec fn view(&self) -> TubeView<S> {
        TubeView {
            owner: self.owner,
            signers: self.account_map@,
            names: self.account_name_map@.map_values(|a: String| a@),
        }
    }
}

/// A test environment on a real chain, whose accounts sign with an `S`.
#[verifier::reject_recursive_types(S)]
pub struct TestTubeMockApp<S> {
    pub accounts: Accounts<S>,
    pub tokens: TokenBook,
}

impl<S> View for TestTubeMockApp<S> {
    type V = TubeView<S>;

    open spec fn view(&self) -> TubeView<S> {
        self.accounts@
    }
}

impl<S> TestTubeMockApp<S> {
    pub open spec fn wf(self) -> bool {
        self.tokens.wf()
    }

    /// The environment with the accounts that were opened for it, and their addresses.
    pub fn new(opened: Vec<OpenAccount<S>>, owner: S, token_id: u64, tokenfactory_id: u64) -> (r: (
        Self,
        Vec<String>,
    ))
        ensures
            r.0.wf(),
            r.0@ == (TubeView {
                owner,
                signers: signers(opened@),
                names: addresses(opened@),
            }),
            r.0.tokens@ == (TokensView { addrs: Map::empty(), token_id, tokenfactory_id }),
            r.1.len() == opened.len(),
            forall|i: int| 0 <= i < r.1.len() ==> (#[trigger] r.1@[i])@ == opened@[i].address@,
    {
        let mut accounts: Vec<String> = Vec::new();
        let mut account_map: StringHashMap<S> = StringHashMap::new();
        let mut account_name_map: StringHashMap<String> = StringHashMap::new();
        let mut left: Vec<OpenAccount<S>> = opened;
        let ghost all = left@;
        let ghost done: int = 0;
        assert(all.take(0) =~= Seq::empty());
        assert(account_name_map@.map_values(|a: String| a@) =~= Map::empty());
        while left.len() > 0
            invariant
                0 <= done <= all.len(),
                left@ == all.skip(done),
                accounts.len() == done,
                forall|j: int| 0 <= j < done ==> (#[trigger] accounts@[j])@ == all[j].address@,
                account_map@ == signers(all.take(done)),
                account_name_map@.map_values(|a: String| a@) == addresses(all.take(done)),
            decreases left.len(),
        {
            let ghost names = account_name_map@;
            let account = left.remove(0);
            accounts.push(account.address.clone());
            account_name_map.insert(account.name, account.address.clone());
            account_map.insert(account.address, account.signer);
            proof {
                assert(all.take(done + 1).drop_last() =~= all.take(done));
                assert(all.take(done + 1).last() == all[done]);
                assert(account_name_map@.map_values(|a: String| a@) =~= names.map_values(
                    |a: String| a@,
                ).insert(account.name@, account.address@));
                assert(left@ =~= all.skip(done + 1));
                done = done + 1;
            }
        }
        assert(all.take(done) =~= all);
        let tokens = TokenBook::new(token_id, tokenfactory_id);
        let signing = Accounts { owner, account_map, account_name_map };
        (TestTubeMockApp { accounts: signing, tokens }, accounts)
    }

    /// What the owner of the environment starts with.
    pub fn owner_funds(fee_denom: &str) -> (r: Vec<Coin>)
        ensures
            coins_view(r@) == seq![CoinView { denom: fee_denom@, amount: OWNER_FUNDS }],
    {
        coins(OWNER_FUNDS, fee_denom)
    }

    /// Tokens are made from the code `token_id` from now on.
    pub fn set_token_contract(&mut self, token_id: u64)
        requires
            old(self).wf(),
        ensures
            final(self).wf(),
            final(self)@ == old(self)@,
            final(self).tokens@ == old(self).tokens@.with_code(token_id),
    {
        self.tokens.set_token_contract(token_id);
    }

    /// Who signs when code is stored: the owner.
    pub fn upload(&self) -> (r: &S)
        ensures
            *r == self@.owner,
    {
        &self.accounts.owner
    }

    fn address_of(&self, sender: &str) -> (r: String)
        ensures
            r@ == self@.address_of(sender@),
    {
        match self.accounts.account_name_map.get(sender) {
            Some(addr) => addr.clone(),
            None => sender.to_owned(),
        }
    }

    /// Who signs for `sender`, which is a name or an address.
    pub fn get_signer(&self, sender: &str) -> (r: Result<&S, MockError>)
        ensures
            match r {
                Ok(signer) => self@.knows(sender@) && *signer == self@.signer_of(sender@),
                Err(e) => !self@.knows(sender@) && unknown_account(e),
            },
    {
        let addr = self.address_of(sender);
        match self.accounts.account_map.get(addr.as_str()) {
            Some(signer) => Ok(signer),
            None => Err(MockError::msg("Account not existed")),
        }
    }

    /// Who signs for `sender`, and the coins as they are sent.
    pub fn get_funds_and_signer(&self, sender: &str, send_funds: &[Coin]) -> (r: Result<
        (&S, Vec<ProtoCoin>),
        MockError,
    >)
        ensures
            match r {
                Ok((signer, funds)) => {
                    &&& self@.knows(sender@)
                    &&& *signer == self@.signer_of(sender@)
                    &&& proto_view(funds@) == written_all(coins_view(send_funds@))
                },
                Err(e) => !self@.knows(sender@) && unknown_account(e),
            },
    {
        let signer = match self.get_signer(sender) {
            Ok(signer) => signer,
            Err(e) => return Err(e),
        };
        let mut funds: Vec<ProtoCoin> = Vec::new();
        let mut i: usize = 0;
        while i < send_funds.len()
            invariant
                i <= send_funds.len(),
                funds.len() == i,
                forall|j: int|
                    0 <= j < i ==> (#[trigger] funds@[j])@ == written(send_funds@[j]@),
            decreases send_funds.len() - i,
        {
            let fund = &send_funds[i];
            funds.push(
                ProtoCoin { denom: fund.denom.clone(), amount: format_amount(fund.amount) },
            );
            i += 1;
        }
        assert(proto_view(funds@) =~= written_all(coins_view(send_funds@)));
        Ok((signer, funds))
    }

    /// The proposal that makes a contract free of gas, and who signs it.
    pub fn set_gasless(&self, sender: &str, contract_addr: &str) -> (r: Result<
        (&S, GaslessProposal),
        MockError,
    >)
        ensures
            match r {
                Ok((signer, proposal)) => {
                    &&& self@.knows(sender@)
                    &&& *signer == self@.signer_of(sender@)
                    &&& proposal.type_url@ == GASLESS_TYPE_URL@
                    &&& proposal.title@ == GASLESS_TITLE@
                    &&& proposal.description@ == GASLESS_TITLE@
                    &&& proposal.contract_addresses.len() == 1
                    &&& proposal.contract_addresses[0]@ == contract_addr@
                    &&& proposal.proposer@ == self@.address_of(sender@)
                },
                Err(e) => !self@.knows(sender@) && unknown_account(e),
            },
    {
        let signer = match self.get_signer(sender) {
            Ok(signer) => signer,
            Err(e) => return Err(e),
        };
        let mut contract_addresses: Vec<String> = Vec::new();
        contract_addresses.push(contract_addr.to_owned());
        let proposal = GaslessProposal {
            type_url: GASLESS_TYPE_URL.to_owned(),
            title: GASLESS_TITLE.to_owned(),
            description: GASLESS_TITLE.to_owned(),
            contract_addresses,
            proposer: self.address_of(sender),
        };
        Ok((signer, proposal))
    }

    /// The request to make a contract, and who signs it. Whoever makes it is its admin.
    pub fn instantiate(&self, code_id: u64, sender: &str, send_funds: &[Coin], label: &str) -> (r:
        Result<(&S, InstantiateCall), MockError>)
        ensures
            match r {
                Ok((signer, call)) => {
                    &&& self@.knows(sender@)
                    &&& *signer == self@.signer_of(sender@)
                    &&& call.code_id == code_id
                    &&& call.admin matches Some(admin) && admin@ == self@.address_of(sender@)
                    &&& call.label matches Some(l) && l@ == label@
                    &&& proto_view(call.funds@) == written_all(coins_view(send_funds@))
                },
                Err(e) => !self@.knows(sender@) && unknown_account(e),
            },
    {
        match self.get_funds_and_signer(sender, send_funds) {
            Ok((signer, funds)) => Ok(
                (
                    signer,
                    InstantiateCall {
                        code_id,
                        admin: Some(self.address_of(sender)),
                        label: Some(label.to_owned()),
                        funds,
                    },
                ),
            ),
            Err(e) => Err(e),
        }
    }

    /// The request to run a message by a contract, and who signs it.
    pub fn execute(&self, sender: &str, contract_addr: &str, send_funds: &[Coin]) -> (r: Result<
        (&S, ExecuteCall),
        MockError,
    >)
        ensures
            match r {
                Ok((signer, call)) => {
                    &&& self@.knows(sender@)
                    &&& *signer == self@.signer_of(sender@)
                    &&& call.contract_addr@ == contract_addr@
                    &&& proto_view(call.funds@) == written_all(coins_view(send_funds@))
                },
                Err(e) => !self@.knows(sender@) && unknown_account(e),
            },
    {
        match self.get_funds_and_signer(sender, send_funds) {
            Ok((signer, funds)) => Ok(
                (signer, ExecuteCall { contract_addr: contract_addr.to_owned(), funds }),
            ),
            Err(e) => Err(e),
        }
    }

    /// The request to send coins, and who signs it. It says that they come from `sender` as that
    /// is written, be it a name or an address.
    pub fn send_coins(&self, sender: &str, recipient: &str, amount: &[Coin]) -> (r: Result<
        (&S, SendCall),
        MockError,
    >)
        ensures
            match r {
                Ok((signer, call)) => {
                    &&& self@.knows(sender@)
                    &&& *signer == self@.signer_of(sender@)
                    &&& call.from_address@ == sender@
                    &&& call.to_address@ == recipient@
                    &&& proto_view(call.amount@) == written_all(coins_view(amount@))
                },
                Err(e) => !self@.knows(sender@) && unknown_account(e),
            },
    {
        match self.get_funds_and_signer(sender, amount) {
            Ok((signer, funds)) => Ok(
                (
                    signer,
                    SendCall {
                        from_address: sender.to_owned(),
                        to_address: recipient.to_owned(),
                        amount: funds,
                    },
                ),
            ),
            Err(e) => Err(e),
        }
    }

    /// What a transaction of the chain itself answers: the data, and no events.
    pub fn sudo(&self, data: Vec<u8>) -> (r: AppResponse)
        ensures
            r.events@ == Seq::<Event>::empty(),
            r.data == Some(data),
    {
        AppResponse { events: Vec::new(), data: Some(data) }
    }

    /// What a contract answers to a question; an error of the chain is told by its text.
    pub fn query<T>(&self, answer: Result<T, String>) -> (r: Result<T, StdError>)
        ensures
            match answer {
                Ok(value) => r == Ok::<T, StdError>(value),
                Err(text) => r matches Err(e) && e@ == text@,
            },
    {
        match answer {
            Ok(value) => Ok(value),
            Err(text) => Err(StdError::generic_err(text)),
        }
    }

    /// What an account has of a coin, from the chain's answer: nothing where there is no answer.
    pub fn query_balance(&self, balance: Option<ProtoCoin>) -> (r: u128)
        requires
            balance matches Some(b) ==> readable(b@),
        ensures
            r == match balance {
                Some(b) => read(b@).amount,
                None => 0,
            },
    {
        match balance {
            Some(b) => read_coin(&b).amount,
            None => 0,
        }
    }

    /// What an account has of every coin, from the chain's answer.
    pub fn query_all_balances(&self, balances: &[ProtoCoin]) -> (r: Vec<Coin>)
        requires
            forall|i: int| 0 <= i < balances.len() ==> readable((#[trigger] balances@[i])@),
        ensures
            coins_view(r@) == read_all(proto_view(balances@)),
    {
        let mut out: Vec<Coin> = Vec::new();
        let mut i: usize = 0;
        while i < balances.len()
            invariant
                forall|j: int| 0 <= j < balances.len() ==> readable((#[trigger] balances@[j])@),
                i <= balances.len(),
                out.len() == i,
                forall|j: int| 0 <= j < i ==> (#[trigger] out@[j])@ == read(balances@[j]@),
            decreases balances.len() - i,
        {
            out.push(read_coin(&balances[i]));
            i += 1;
        }
        assert(coins_view(out@) =~= read_all(proto_view(balances@)));
        out
    }

    /// How much there is of a coin, from the chain's answer: nothing of a coin without a name where
    /// there is no answer.
    pub fn query_supply(&self, amount: Option<ProtoCoin>) -> (r: Coin)
        requires
            amount matches Some(a) ==> readable(a@),
        ensures
            r@ == match amount {
                Some(a) => read(a@),
                None => CoinView { denom: Seq::empty(), amount: 0 },
            },
    {
        match amount {
            Some(a) => read_coin(&a),
            None => {
                proof {
                    reveal_strlit("");
                }
                let r = Coin { denom: "".to_owned(), amount: 0 };
                assert(r@.denom =~= Seq::empty());
                r
            },
        }
    }
}

/// What the execution of a contract answers, from the chain's answer.
pub fn execute_response(events: Vec<Event>, data: Vec<u8>, gas_info: TxGas) -> (r: ExecuteResponse)
    ensures
        r.events == events,
        r.data == Some(data),
        r.gas_info == gas_info,
{
    ExecuteResponse { events, data: Some(data), gas_info }
}

/// What sending coins answers, from the chain's answer.
pub fn send_response(events: Vec<Event>, data: Vec<u8>) -> (r: AppResponse)
    ensures
        r.events == events,
        r.data == Some(data),
{
    AppResponse { events, data: Some(data) }
}

fn read_coin(c: &ProtoCoin) -> (r: Coin)
    requires
        readable(c@),
    ensures
        r@ == read(c@),
{
    match parse_amount(c.amount.as_str()) {
        Some(amount) => Coin { denom: c.denom.clone(), amount },
        None => Coin { denom: c.denom.clone(), amount: 0 },
    }
}

/// An account can be asked to sign by its name and by its address, with the same outcome, as long
/// as no account bears its address for a name.
pub proof fn law_name_and_address_agree<S>(app: TubeView<S>, name: Seq<char>)
    requires
        app.names.contains_key(name),
        !app.names.contains_key(app.names[name]),
    ensures
        app.address_of(app.names[name]) == app.address_of(name),
        app.knows(app.names[name]) == app.knows(name),
        app.signer_of(app.names[name]) == app.signer_of(name),
{
}

/// Every account that was opened can sign under its name. It does so with its own signer, where no
/// other account has its name or its address.
pub proof fn law_opened_accounts_sign<S>(opened: Seq<OpenAccount<S>>, owner: S, i: int)
    requires
        0 <= i < opened.len(),
    ensures
        ({
            let app = TubeView { owner, signers: signers(opened), names: addresses(opened) };
            let account = opened[i];
            &&& app.knows(account.name@)
            &&& (forall|j: int|
                0 <= j < opened.len() && j != i ==> {
                    &&& (#[trigger] opened[j]).name@ != account.name@
                    &&& opened[j].address@ != account.address@
                }) ==> {
                &&& app.address_of(account.name@) == account.address@
                &&& app.signer_of(account.name@) == account.signer
            }
        }),
{
    lemma_opened(opened, opened[i].name@, i);
    if forall|j: int|
        0 <= j < opened.len() && j != i ==> {
            &&& (#[trigger] opened[j]).name@ != opened[i].name@
            &&& opened[j].address@ != opened[i].address@
        } {
        lemma_opened_once(opened, i);
    }
}

proof fn lemma_opened_once<S>(opened: Seq<OpenAccount<S>>, i: int)
    requires
        0 <= i < opened.len(),
        forall|j: int|
            0 <= j < opened.len() && j != i ==> {
                &&& (#[trigger] opened[j]).name@ != opened[i].name@
                &&& opened[j].address@ != opened[i].address@
            },
    ensures
        addresses(opened).contains_key(opened[i].name@),
        addresses(opened)[opened[i].name@] == opened[i].address@,
        signers(opened)[opened[i].address@] == opened[i].signer,
    decreases opened.len(),
{
    let last = opened.len() - 1;
    if i < last {
        let before = opened.drop_last();
        assert(forall|j: int| 0 <= j < last ==> before[j] == #[trigger] opened[j]);
        assert(opened[last].name@ != opened[i].name@);
        lemma_opened_once(before, i);
    }
}

/// A name has the address of one of the accounts that bear it, and that address can sign.
proof fn lemma_opened<S>(opened: Seq<OpenAccount<S>>, name: Seq<char>, i: int)
    requires
        0 <= i < opened.len(),
        opened[i].name@ == name,
    ensures
        addresses(opened).contains_key(name),
        signers(opened).contains_key(addresses(opened)[name]),
    decreases opened.len(),
{
    let before = opened.drop_last();
    if opened.last().name@ != name {
        assert(before[i] == opened[i]);
        lemma_opened(before, name, i);
    }
}

/// Coins keep their names on the way to the chain and back; an amount goes as its digits and comes
/// as the number that they stand for.
pub proof fn law_coins_keep_name_and_amount(c: CoinView, p: ProtoCoinView, s: Seq<CoinView>, i: int)
    ensures
        written(c).denom == c.denom,
        written(c).amount == decimal(c.amount as nat),
        amount_value(written(c).amount) == Some(c.amount),
        read(p).denom == p.denom,
        readable(p) <==> amount_value(p.amount) is Some,
        readable(p) ==> amount_value(p.amount) == Some(read(p).amount),
        written_all(s).len() == s.len(),
        0 <= i < s.len() ==> written_all(s)[i] == written(s[i]),
        OWNER_FUNDS == 5_000_000_000_000,
{
    law_amount_round_trip(c.amount);
}

/// A name means the address of the last account that was opened under it, and an address signs with
/// what the last account at it signs with; no other names and addresses are known.
pub proof fn law_the_last_account_counts<S>(
    opened: Seq<OpenAccount<S>>,
    name: Seq<char>,
    address: Seq<char>,
    i: int,
)
    ensures
        addresses(opened).contains_key(name) <==> exists|j: int|
            0 <= j < opened.len() && (#[trigger] opened[j]).name@ == name,
        signers(opened).contains_key(address) <==> exists|j: int|
            0 <= j < opened.len() && (#[trigger] opened[j]).address@ == address,
        0 <= i < opened.len() && opened[i].name@ == name && (forall|j: int|
            i < j < opened.len() ==> (#[trigger] opened[j]).name@ != name) ==> addresses(
            opened,
        )[name] == opened[i].address@,
        0 <= i < opened.len() && opened[i].address@ == address && (forall|j: int|
            i < j < opened.len() ==> (#[trigger] opened[j]).address@ != address) ==> signers(
            opened,
        )[address] == opened[i].signer,
    decreases opened.len(),
{
    if opened.len() > 0 {
        let before = opened.drop_last();
        let n = before.len() as int;
        assert(opened.last() == opened[n]);
        assert(forall|j: int| 0 <= j < n ==> before[j] == #[trigger] opened[j]);
        law_the_last_account_counts(before, name, address, i);
        if exists|j: int| 0 <= j < opened.len() && (#[trigger] opened[j]).name@ == name {
            let j = choose|j: int| 0 <= j < opened.len() && (#[trigger] opened[j]).name@ == name;
            if j < n {
                assert(before[j].name@ == name);
            }
        }
        if exists|j: int| 0 <= j < opened.len() && (#[trigger] opened[j]).address@ == address {
            let j = choose|j: int|
                0 <= j < opened.len() && (#[trigger] opened[j]).address@ == address;
            if j < n {
                assert(before[j].address@ == address);
            }
        }
        if addresses(before).contains_key(name) {
            let j = choose|j: int| 0 <= j < before.len() && (#[trigger] before[j]).name@ == name;
            assert(opened[j].name@ == name);
        }
        if signers(before).contains_key(address) {
            let j = choose|j: int|
                0 <= j < before.len() && (#[trigger] before[j]).address@ == address;
            assert(opened[j].address@ == address);
        }
        if 0 <= i < n {
            if opened[i].name@ == name && (forall|j: int|
                i < j < opened.len() ==> (#[trigger] opened[j]).name@ != name) {
                assert(opened[n].name@ != name);
            }
            if opened[i].address@ == address && (forall|j: int|
                i < j < opened.len() ==> (#[trigger] opened[j]).address@ != address) {
                assert(opened[n].address@ != address);
            }
        }
    }
}

/// A known name means its address, and any other text means itself; it can sign exactly where that
/// address can, and signs as that address does.
pub proof fn law_senders_mean_addresses<S>(app: TubeView<S>, sender: Seq<char>)
    ensures
        app.names.contains_key(sender) ==> app.address_of(sender) == app.names[sender],
        !app.names.contains_key(sender) ==> app.address_of(sender) == sender,
        app.knows(sender) <==> app.signers.contains_key(app.address_of(sender)),
        app.signer_of(sender) == app.signers[app.address_of(sender)],
{
}

/// Coins and environments are seen with all that they have.
pub proof fn law_tubes_are_seen_whole<S>(c: ProtoCoin, s: Seq<ProtoCoin>, app: TestTubeMockApp<S>)
    ensures
        c@.denom == c.denom@,
        c@.amount == c.amount@,
        proto_view(s).len() == s.len(),
        forall|i: int| 0 <= i < s.len() ==> #[trigger] proto_view(s)[i] == s[i]@,
        app@ == app.accounts@,
{
}

/// What is refused and proposed says what it should.
pub proof fn law_texts_of_the_tube(e: MockError, s: Seq<ProtoCoinView>, i: int)
    ensures
        unknown_account(e) <==> e.msg@ == "Account not existed"@,
        GASLESS_TYPE_URL@ == "/cosmwasm.wasm.v1.SetGasLessContractsProposal"@,
        GASLESS_TITLE@ == "Set Gasless"@,
        read_all(s).len() == s.len(),
        0 <= i < s.len() ==> read_all(s)[i] == read(s[i]),
{
}

} // verus!
