//! The tokens that a test environment knows, and the requests by which they are created, given
//! out and asked about.
use crate::types::{coins, coins_view, Coin, CoinView};
use vstd::hash_map::StringHashMap;
use vstd::prelude::*;

verus! {

/// The digits after the point of a token that is created for a test.
pub const TOKEN_DECIMALS: u8 = 6;

/// How much each of some accounts is to have of one token.
#[derive(Clone, Debug, PartialEq, Eq)]
pub struct TokenBalances {
    pub token: String,
    pub balances: Vec<(String, u128)>,
}

#[verifier::ext_equal]
pub struct TokenBalancesView {
    pub token: Seq<char>,
    pub balances: Seq<(Seq<char>, u128)>,
}

pub open spec fn balances_view(s: Seq<(String, u128)>) -> Seq<(Seq<char>, u128)> {
    s.map_values(|b: (String, u128)| (b.0@, b.1))
}

impl View for TokenBalances {
    type V = TokenBalancesView;

    open spec fn view(&self) -> TokenBalancesView {
        TokenBalancesView { token: self.token@, balances: balances_view(self.balances@) }
    }
}

pub open spec fn all_balances_view(s: Seq<TokenBalances>) -> Seq<TokenBalancesView> {
    s.map_values(|b: TokenBalances| b@)
}

/// A request to send coins.
#[derive(Clone, Debug, PartialEq, Eq)]
pub struct SendRequest {
    pub sender: String,
    pub recipient: String,
    pub amount: Vec<Coin>,
}

#[verifier::ext_equal]
pub struct SendView {
    pub sender: Seq<char>,
    pub recipient: Seq<char>,
    pub amount: Seq<CoinView>,
}

impl View for SendRequest {
    type V = SendView;

    open spec fn view(&self) -> SendView {
        SendView {
            sender: self.sender@,
            recipient: self.recipient@,
            amount: coins_view(self.amount@),
        }
    }
}

pub open spec fn sends_view(s: Seq<SendRequest>) -> Seq<SendView> {
    s.map_values(|r: SendRequest| r@)
}

/// A request to create a token: with its name for a symbol too, owned and mintable without a limit
/// by its owner, who starts with some of it; without coins and without a description.
#[derive(Clone, Debug, PartialEq, Eq)]
pub struct TokenRequest {
    pub code_id: u64,
    pub sender: String,
    pub label: String,
    pub name: String,
    pub symbol: String,
    pub decimals: u8,
    pub initial_balances: Vec<(String, u128)>,
    pub minter: Option<String>,
    pub cap: Option<u128>,
}

#[verifier::ext_equal]
pub struct TokenRequestView {
    pub code_id: u64,
    pub sender: Seq<char>,
    pub label: Seq<char>,
    pub name: Seq<char>,
    pub symbol: Seq<char>,
    pub decimals: u8,
    pub initial_balances: Seq<(Seq<char>, u128)>,
    pub minter: Option<Seq<char>>,
    pub cap: Option<u128>,
}

impl View for TokenRequest {
    type V = TokenRequestView;

    open spec fn view(&self) -> TokenRequestView {
        TokenRequestView {
            code_id: self.code_id,
            sender: self.sender@,
            label: self.label@,
            name: self.name@,
            symbol: self.symbol@,
            decimals: self.decimals,
            initial_balances: balances_view(self.initial_balances@),
            minter: match self.minter {
                Some(m) => Some(m@),
                None => None,
            },
            cap: self.cap,
        }
    }
}

/// A request to create the contract that makes native tokens.
#[derive(Clone, Debug, PartialEq, Eq)]
pub struct FactoryRequest {
    pub code_id: u64,
    pub sender: String,
    pub label: String,
}

/// What a token is told to do.
#[derive(Clone, Debug, PartialEq, Eq)]
pub enum TokenMsg {
    /// Give the recipient newly made tokens.
    Mint { recipient: String, amount: u128 },
    /// Let the spender spend so much more, without an end in time.
    IncreaseAllowance { spender: String, amount: u128 },
}

pub enum TokenMsgView {
    Mint { recipient: Seq<char>, amount: u128 },
    IncreaseAllowance { spender: Seq<char>, amount: u128 },
}

impl View for TokenMsg {
    type V = TokenMsgView;

    open spec fn view(&self) -> TokenMsgView {
        match *self {
            TokenMsg::Mint { recipient, amount } => TokenMsgView::Mint {
                recipient: recipient@,
                amount,
            },
            TokenMsg::IncreaseAllowance { spender, amount } => TokenMsgView::IncreaseAllowance {
                spender: spender@,
                amount,
            },
        }
    }
}

/// A request to tell a token something, without coins.
#[derive(Clone, Debug, PartialEq, Eq)]
pub struct TokenCall {
    pub sender: String,
    pub contract_addr: String,
    pub msg: TokenMsg,
}

#[verifier::ext_equal]
pub struct TokenCallView {
    pub sender: Seq<char>,
    pub contract_addr: Seq<char>,
    pub msg: TokenMsgView,
}

impl View for TokenCall {
    type V = TokenCallView;

    open spec fn view(&self) -> TokenCallView {
        TokenCallView {
            sender: self.sender@,
            contract_addr: self.contract_addr@,
            msg: self.msg@,
        }
    }
}

/// A question to a token: how much an account has of it.
#[derive(Clone, Debug, PartialEq, Eq)]
pub struct BalanceQuery {
    pub contract_addr: String,
    pub address: String,
}

#[verifier::ext_equal]
pub struct BalanceQueryView {
    pub contract_addr: Seq<char>,
    pub address: Seq<char>,
}

impl View for BalanceQuery {
    type V = BalanceQueryView;

    open spec fn view(&self) -> BalanceQueryView {
        BalanceQueryView { contract_addr: self.contract_addr@, address: self.address@ }
    }
}

/// The questions in `s`, each with the name of its token.
pub open spec fn queries_view(s: Seq<(String, BalanceQuery)>) -> Seq<
    (Seq<char>, BalanceQueryView),
> {
    s.map_values(|q: (String, BalanceQuery)| (q.0@, q.1@))
}

/// `s` asks each token of `addrs` once how much `account` has of it.
pub open spec fn asks_all(
    s: Seq<(Seq<char>, BalanceQueryView)>,
    addrs: Map<Seq<char>, Seq<char>>,
    account: Seq<char>,
) -> bool {
    &&& forall|i: int|
        0 <= i < s.len() ==> {
            &&& addrs.contains_key((#[trigger] s[i]).0)
            &&& s[i].1.contract_addr == addrs[s[i].0]
            &&& s[i].1.address == account
        }
    &&& forall|i: int, j: int|
        0 <= i < j < s.len() ==> (#[trigger] s[i]).0 != (#[trigger] s[j]).0
    &&& forall|name: Seq<char>| #[trigger]
        addrs.contains_key(name) ==> exists|i: int|
            0 <= i < s.len() && (#[trigger] s[i]).0 == name
}

/// What is known of tokens: the address of each by its name, and the codes that tokens and their
/// factory are made from.
#[verifier::ext_equal]
pub struct TokensView {
    pub addrs: Map<Seq<char>, Seq<char>>,
    pub token_id: u64,
    pub tokenfactory_id: u64,
}

impl TokensView {
    pub open spec fn with_token(self, token: Seq<char>, addr: Seq<char>) -> TokensView {
        TokensView { addrs: self.addrs.insert(token, addr), ..self }
    }

    pub open spec fn with_code(self, token_id: u64) -> TokensView {
        TokensView { token_id, ..self }
    }

    /// The request that creates `token` for `owner`.
    pub open spec fn creation(
        self,
        owner: Seq<char>,
        token: Seq<char>,
        initial_amount: u128,
    ) -> TokenRequestView {
        TokenRequestView {
            code_id: self.token_id,
            sender: owner,
            label: "cw20"@,
            name: token,
            symbol: token,
            decimals: TOKEN_DECIMALS,
            initial_balances: seq![(owner, initial_amount)],
            minter: Some(owner),
            cap: None,
        }
    }
}

/// The request that mints.
pub open spec fn minting(
    sender: Seq<char>,
    recipient: Seq<char>,
    contract_addr: Seq<char>,
    amount: u128,
) -> TokenCallView {
    TokenCallView { sender, contract_addr, msg: TokenMsgView::Mint { recipient, amount } }
}

/// The requests that send `balances` of one kind of coin, one for each recipient.
pub open spec fn sends_of(
    sender: Seq<char>,
    denom: Seq<char>,
    balances: Seq<(Seq<char>, u128)>,
) -> Seq<SendView> {
    balances.map_values(
        |b: (Seq<char>, u128)|
            SendView { sender, recipient: b.0, amount: seq![CoinView { denom, amount: b.1 }] },
    )
}

/// The requests that send all of `balances`, one kind of coin after the other.
pub open spec fn all_sends(sender: Seq<char>, balances: Seq<TokenBalancesView>) -> Seq<SendView>
    decreases balances.len(),
{
    if balances.len() == 0 {
        Seq::empty()
    } else {
        all_sends(sender, balances.drop_last()) + sends_of(
            sender,
            balances.last().token,
            balances.last().balances,
        )
    }
}

/// `names` has every key of `addrs` once, and nothing else.
spec fn lists_keys(names: Seq<String>, addrs: Map<Seq<char>, String>) -> bool {
    &&& forall|i: int| 0 <= i < names.len() ==> addrs.contains_key((#[trigger] names[i])@)
    &&& forall|name: Seq<char>| #[trigger]
        addrs.contains_key(name) ==> exists|i: int|
            0 <= i < names.len() && (#[trigger] names[i])@ == name
    &&& forall|i: int, j: int|
        0 <= i < j < names.len() ==> (#[trigger] names[i])@ != (#[trigger] names[j])@
}

/// The tokens that a test environment knows.
pub struct TokenBook {
    addrs: StringHashMap<String>,
    // the keys of `addrs`, each once
    names: Vec<String>,
    token_id: u64,
    tokenfactory_id: u64,
}

impl View for TokenBook {
    type V = TokensView;

    closed spec fn view(&self) -> TokensView {
        TokensView {
            addrs: self.addrs@.map_values(|a: String| a@),
            token_id: self.token_id,
            tokenfactory_id: self.tokenfactory_id,
        }
    }
}

impl TokenBook {
    pub closed spec fn wf(self) -> bool {
        lists_keys(self.names@, self.addrs@)
    }

    /// No tokens yet.
    pub fn new(token_id: u64, tokenfactory_id: u64) -> (r: Self)
        ensures
            r.wf(),
            r@ == (TokensView { addrs: Map::empty(), token_id, tokenfactory_id }),
    {
        let r = TokenBook {
            addrs: StringHashMap::new(),
            names: Vec::new(),
            token_id,
            tokenfactory_id,
        };
        assert(r@.addrs =~= Map::empty());
        r
    }

    pub fn token_id(&self) -> (r: u64)
        ensures
            r == self@.token_id,
    {
        self.token_id
    }

    pub fn tokenfactory_id(&self) -> (r: u64)
        ensures
            r == self@.tokenfactory_id,
    {
        self.tokenfactory_id
    }

    /// Tokens are made from the code `token_id` from now on.
    pub fn set_token_contract(&mut self, token_id: u64)
        requires
            old(self).wf(),
        ensures
            final(self).wf(),
            final(self)@ == old(self)@.with_code(token_id),
    {
        self.token_id = token_id;
    }

    /// The address of a token, if it is known.
    pub fn get_token_addr(&self, token: &str) -> (r: Option<String>)
        ensures
            match r {
                Some(addr) => self@.addrs.contains_key(token@) && addr@ == self@.addrs[token@],
                None => !self@.addrs.contains_key(token@),
            },
    {
        match self.addrs.get(token) {
            Some(addr) => Some(addr.clone()),
            None => None,
        }
    }

    /// Notes the address of a token, in place of one that was known.
    pub fn token_created(&mut self, token: &str, addr: &str)
        requires
            old(self).wf(),
        ensures
            final(self).wf(),
            final(self)@ == old(self)@.with_token(token@, addr@),
    {
        let known = self.addrs.contains_key(token);
        if !known {
            self.names.push(token.to_owned());
        }
        self.addrs.insert(token.to_owned(), addr.to_owned());
        proof {
            let pre = *old(self);
            assert(self@.addrs =~= pre@.addrs.insert(token@, addr@));
            assert forall|i: int| 0 <= i < self.names.len() implies self.addrs@.contains_key(
                (#[trigger] self.names@[i])@,
            ) by {
                if i < pre.names.len() {
                    assert(self.names@[i] == pre.names@[i]);
                }
            }
            assert forall|name: Seq<char>| #[trigger] self.addrs@.contains_key(
                name,
            ) implies exists|i: int|
                0 <= i < self.names.len() && (#[trigger] self.names@[i])@ == name by {
                if pre.addrs@.contains_key(name) {
                    let i = choose|i: int|
                        0 <= i < pre.names.len() && (#[trigger] pre.names@[i])@ == name;
                    assert(self.names@[i] == pre.names@[i]);
                } else {
                    assert(self.names@[pre.names.len() as int]@ == name);
                }
            }
            assert forall|i: int, j: int| 0 <= i < j < self.names.len() implies (
            #[trigger] self.names@[i])@ != (#[trigger] self.names@[j])@ by {
                assert(self.names@[i] == pre.names@[i]);
                assert(pre.addrs@.contains_key(pre.names@[i]@));
            }
        }
    }

    /// Notes a token that is at `contract_addr` already, under the symbol that it answered.
    pub fn register_token(&mut self, contract_addr: &str, symbol: &str) -> (r: String)
        requires
            old(self).wf(),
        ensures
            final(self).wf(),
            final(self)@ == old(self)@.with_token(symbol@, contract_addr@),
            r@ == symbol@,
    {
        self.token_created(symbol, contract_addr);
        symbol.to_owned()
    }

    /// The request that creates the factory of native tokens.
    pub fn create_tokenfactory(&self, sender: &str) -> (r: FactoryRequest)
        ensures
            r.code_id == self@.tokenfactory_id,
            r.sender@ == sender@,
            r.label@ == "tokenfactory"@,
    {
        FactoryRequest {
            code_id: self.tokenfactory_id,
            sender: sender.to_owned(),
            label: "tokenfactory".to_owned(),
        }
    }

    /// The request that creates `token`. Once it has been met, the address is noted with
    /// [`TokenBook::token_created`].
    pub fn create_token(&self, owner: &str, token: &str, initial_amount: u128) -> (r: TokenRequest)
        ensures
            r@ == self@.creation(owner@, token@, initial_amount),
            r.code_id == self@.token_id,
            r.sender@ == owner@,
            r.label@ == "cw20"@,
            r.name@ == token@,
            r.symbol@ == token@,
            r.decimals == 6,
            r.initial_balances.len() == 1,
            r.initial_balances[0].0@ == owner@,
            r.initial_balances[0].1 == initial_amount,
            r.minter matches Some(minter) && minter@ == owner@,
            r.cap is None,
    {
        let mut initial_balances: Vec<(String, u128)> = Vec::new();
        initial_balances.push((owner.to_owned(), initial_amount));
        assert(balances_view(initial_balances@) =~= seq![(owner@, initial_amount)]);
        TokenRequest {
            code_id: self.token_id,
            sender: owner.to_owned(),
            label: "cw20".to_owned(),
            name: token.to_owned(),
            symbol: token.to_owned(),
            decimals: TOKEN_DECIMALS,
            initial_balances,
            minter: Some(owner.to_owned()),
            cap: None,
        }
    }

    /// The question how much an account has of the token at `contract_addr`.
    pub fn query_token_balance(contract_addr: &str, account_addr: &str) -> (r: BalanceQuery)
        ensures
            r@ == (BalanceQueryView { contract_addr: contract_addr@, address: account_addr@ }),
            r.contract_addr@ == contract_addr@,
            r.address@ == account_addr@,
    {
        BalanceQuery {
            contract_addr: contract_addr.to_owned(),
            address: account_addr.to_owned(),
        }
    }

    /// The questions how much an account has of each token, in some order. The answers are put
    /// together with [`token_balances`].
    pub fn query_token_balances(&self, account_addr: &str) -> (r: Vec<(String, BalanceQuery)>)
        requires
            self.wf(),
        ensures
            asks_all(queries_view(r@), self@.addrs, account_addr@),
            forall|i: int|
                0 <= i < r.len() ==> {
                    &&& self@.addrs.contains_key((#[trigger] r@[i]).0@)
                    &&& r@[i].1.contract_addr@ == self@.addrs[r@[i].0@]
                    &&& r@[i].1.address@ == account_addr@
                },
    {
        let mut out: Vec<(String, BalanceQuery)> = Vec::new();
        let mut i: usize = 0;
        while i < self.names.len()
            invariant
                self.wf(),
                i <= self.names.len(),
                out.len() == i,
                forall|j: int|
                    0 <= j < i ==> {
                        &&& (#[trigger] out@[j]).0@ == self.names@[j]@
                        &&& out@[j].1@.contract_addr == self@.addrs[self.names@[j]@]
                        &&& out@[j].1@.address == account_addr@
                        &&& out@[j].1.contract_addr@ == self@.addrs[self.names@[j]@]
                        &&& out@[j].1.address@ == account_addr@
                    },
            decreases self.names.len() - i,
        {
            let name = &self.names[i];
            assert(self.addrs@.contains_key(self.names@[i as int]@));
            if let Some(addr) = self.addrs.get(name.as_str()) {
                let query = TokenBook::query_token_balance(addr.as_str(), account_addr);
                out.push((name.clone(), query));
            }
            i += 1;
        }
        proof {
            let s = queries_view(out@);
            assert forall|k: int| 0 <= k < out.len() implies {
                &&& self@.addrs.contains_key((#[trigger] out@[k]).0@)
                &&& out@[k].1.contract_addr@ == self@.addrs[out@[k].0@]
                &&& out@[k].1.address@ == account_addr@
            } by {
                assert(self.addrs@.contains_key(self.names@[k]@));
            }
            assert forall|k: int| 0 <= k < s.len() implies {
                &&& self@.addrs.contains_key((#[trigger] s[k]).0)
                &&& s[k].1.contract_addr == self@.addrs[s[k].0]
                &&& s[k].1.address == account_addr@
            } by {
                assert(out@[k].0@ == self.names@[k]@);
                assert(self.addrs@.contains_key(self.names@[k]@));
            }
            assert forall|k: int, l: int| 0 <= k < l < s.len() implies (#[trigger] s[k]).0 != (
            #[trigger] s[l]).0 by {
                assert(out@[k].0@ == self.names@[k]@);
                assert(out@[l].0@ == self.names@[l]@);
            }
            assert forall|name: Seq<char>| #[trigger]
                self@.addrs.contains_key(name) implies exists|k: int|
                0 <= k < s.len() && (#[trigger] s[k]).0 == name by {
                assert(self.addrs@.contains_key(name));
                let k = choose|k: int|
                    0 <= k < self.names.len() && (#[trigger] self.names@[k])@ == name;
                assert(out@[k].0@ == name);
                assert(s[k].0 == name);
            }
        }
        out
    }

    /// The requests that send coins from one account to many.
    pub fn set_balances_from(sender: &str, balances: &[TokenBalances]) -> (r: Vec<SendRequest>)
        ensures
            sends_view(r@) == all_sends(sender@, all_balances_view(balances@)),
    {
        let mut out: Vec<SendRequest> = Vec::new();
        let ghost all = all_balances_view(balances@);
        let mut i: usize = 0;
        assert(all.take(0) =~= Seq::empty());
        assert(sends_view(out@) =~= all_sends(sender@, all.take(0)));
        while i < balances.len()
            invariant
                i <= balances.len(),
                all == all_balances_view(balances@),
                sends_view(out@) == all_sends(sender@, all.take(i as int)),
            decreases balances.len() - i,
        {
            let of = &balances[i];
            let ghost before = sends_view(out@);
            let ghost one = sends_of(sender@, of@.token, of@.balances);
            let mut j: usize = 0;
            assert(before + one.take(0) =~= before);
            while j < of.balances.len()
                invariant
                    j <= of.balances.len(),
                    one == sends_of(sender@, of@.token, of@.balances),
                    sends_view(out@) == before + one.take(j as int),
                decreases of.balances.len() - j,
            {
                let amount = coins(of.balances[j].1, of.token.as_str());
                let request = SendRequest {
                    sender: sender.to_owned(),
                    recipient: of.balances[j].0.clone(),
                    amount,
                };
                let ghost sent = out@;
                out.push(request);
                proof {
                    assert(one[j as int] == request@);
                    assert(sends_view(out@) =~= sends_view(sent).push(request@));
                    assert(one.take(j + 1) =~= one.take(j as int).push(one[j as int]));
                    assert(before + one.take(j + 1) =~= (before + one.take(j as int)).push(
                        one[j as int],
                    ));
                }
                j += 1;
            }
            proof {
                assert(one.take(j as int) =~= one);
                let next = all.take(i + 1);
                assert(next.drop_last() =~= all.take(i as int));
                assert(next.last() == of@);
            }
            i += 1;
        }
        assert(all.take(i as int) =~= all);
        out
    }

    /// The requests that send coins from the owner to many.
    pub fn set_balances(owner: &str, balances: &[TokenBalances]) -> (r: Vec<SendRequest>)
        ensures
            sends_view(r@) == all_sends(owner@, all_balances_view(balances@)),
    {
        TokenBook::set_balances_from(owner, balances)
    }

    /// The request that mints tokens.
    pub fn mint_token(sender: &str, recipient: &str, cw20_addr: &str, amount: u128) -> (r:
        TokenCall)
        ensures
            r@ == minting(sender@, recipient@, cw20_addr@, amount),
            r.sender@ == sender@,
            r.contract_addr@ == cw20_addr@,
            r.msg matches TokenMsg::Mint { recipient: to, amount: n } && to@ == recipient@ && n
                == amount,
    {
        TokenCall {
            sender: sender.to_owned(),
            contract_addr: cw20_addr.to_owned(),
            msg: TokenMsg::Mint { recipient: recipient.to_owned(), amount },
        }
    }

    /// The request that lets the spender spend tokens of the approver. A token that is not known
    /// by its name is taken for an address.
    pub fn approve_token(&self, token: &str, approver: &str, spender: &str, amount: u128) -> (r:
        TokenCall)
        ensures
            r@ == (TokenCallView {
                sender: approver@,
                contract_addr: if self@.addrs.contains_key(token@) {
                    self@.addrs[token@]
                } else {
                    token@
                },
                msg: TokenMsgView::IncreaseAllowance { spender: spender@, amount },
            }),
            r.sender@ == approver@,
            self@.addrs.contains_key(token@) ==> r.contract_addr@ == self@.addrs[token@],
            !self@.addrs.contains_key(token@) ==> r.contract_addr@ == token@,
            r.msg matches TokenMsg::IncreaseAllowance { spender: by, amount: n } && by@ == spender@
                && n == amount,
    {
        let token_addr = match self.get_token_addr(token) {
            Some(addr) => addr,
            None => token.to_owned(),
        };
        TokenCall {
            sender: approver.to_owned(),
            contract_addr: token_addr,
            msg: TokenMsg::IncreaseAllowance { spender: spender.to_owned(), amount },
        }
    }
}

/// The balances of an account, from the answers to the questions about them.
pub fn token_balances(queries: &[(String, BalanceQuery)], amounts: &[u128]) -> (r: Vec<Coin>)
    requires
        amounts.len() == queries.len(),
    ensures
        coins_view(r@) == Seq::new(
            queries@.len(),
            |i: int| CoinView { denom: queries@[i].0@, amount: amounts@[i] },
        ),
        r.len() == queries.len(),
        forall|i: int|
            0 <= i < r.len() ==> (#[trigger] r@[i]).denom@ == queries@[i].0@ && r@[i].amount
                == amounts@[i],
{
    let mut out: Vec<Coin> = Vec::new();
    let mut i: usize = 0;
    while i < queries.len()
        invariant
            amounts.len() == queries.len(),
            i <= queries.len(),
            out.len() == i,
            forall|j: int|
                0 <= j < i ==> (#[trigger] out@[j])@ == (CoinView {
                    denom: queries@[j].0@,
                    amount: amounts@[j],
                }),
            forall|j: int|
                0 <= j < i ==> (#[trigger] out@[j]).denom@ == queries@[j].0@ && out@[j].amount
                    == amounts@[j],
        decreases queries.len() - i,
    {
        out.push(Coin { denom: queries[i].0.clone(), amount: amounts[i] });
        i += 1;
    }
    assert(coins_view(out@) =~= Seq::new(
        queries@.len(),
        |i: int| CoinView { denom: queries@[i].0@, amount: amounts@[i] },
    ));
    out
}

/// What is noted of a token is found again, and nothing else changes.
pub proof fn law_noted_token_is_found(
    t: TokensView,
    token: Seq<char>,
    addr: Seq<char>,
    other: Seq<char>,
    token_id: u64,
)
    ensures
        t.with_token(token, addr).addrs.contains_key(token),
        t.with_token(token, addr).addrs[token] == addr,
        other != token ==> t.with_token(token, addr).addrs.contains_key(other)
            == t.addrs.contains_key(other),
        other != token && t.addrs.contains_key(other) ==> t.with_token(token, addr).addrs[other]
            == t.addrs[other],
        t.with_token(token, addr).token_id == t.token_id,
        t.with_token(token, addr).tokenfactory_id == t.tokenfactory_id,
        t.with_code(token_id).tokenfactory_id == t.tokenfactory_id,
        t.with_code(token_id).token_id == token_id,
        t.with_code(token_id).addrs == t.addrs,
{
}

/// Balances are sent one after the other: those of two lists together as those of the first and
/// then those of the second.
pub proof fn law_sends_follow_each_other(
    sender: Seq<char>,
    a: Seq<TokenBalancesView>,
    b: Seq<TokenBalancesView>,
)
    ensures
        all_sends(sender, a + b) == all_sends(sender, a) + all_sends(sender, b),
    decreases b.len(),
{
    if b.len() == 0 {
        assert(a + b =~= a);
        assert(all_sends(sender, a) + all_sends(sender, b) =~= all_sends(sender, a));
    } else {
        assert((a + b).drop_last() =~= a + b.drop_last());
        assert((a + b).last() == b.last());
        law_sends_follow_each_other(sender, a, b.drop_last());
        let one = sends_of(sender, b.last().token, b.last().balances);
        assert(all_sends(sender, a) + all_sends(sender, b.drop_last()) + one =~= all_sends(
            sender,
            a,
        ) + all_sends(sender, b));
    }
}

/// Each token is asked about once: the names in the questions are those of the tokens.
pub proof fn law_each_token_is_asked(
    s: Seq<(Seq<char>, BalanceQueryView)>,
    addrs: Map<Seq<char>, Seq<char>>,
    account: Seq<char>,
)
    requires
        asks_all(s, addrs, account),
    ensures
        ({
            let names = s.map_values(|q: (Seq<char>, BalanceQueryView)| q.0);
            names.no_duplicates() && names.to_set() == addrs.dom() && s.len() == addrs.dom().len()
        }),
        forall|i: int|
            0 <= i < s.len() ==> {
                &&& addrs.contains_key((#[trigger] s[i]).0)
                &&& s[i].1.contract_addr == addrs[s[i].0]
                &&& s[i].1.address == account
            },
{
    let names = s.map_values(|q: (Seq<char>, BalanceQueryView)| q.0);
    assert forall|name: Seq<char>| names.to_set().contains(name) == addrs.dom().contains(name) by {
        if addrs.contains_key(name) {
            let i = choose|i: int| 0 <= i < s.len() && (#[trigger] s[i]).0 == name;
            assert(names[i] == name);
        }
        if names.contains(name) {
            let i = choose|i: int| 0 <= i < names.len() && names[i] == name;
            assert(s[i].0 == name);
        }
    }
    assert(names.to_set() =~= addrs.dom());
    assert forall|i: int, j: int|
        0 <= i < names.len() && 0 <= j < names.len() && i != j implies names[i] != names[j] by {
        assert(s[i].0 == names[i] && s[j].0 == names[j]);
    }
    names.unique_seq_to_set();
}

/// A request to mint names the sender, the token, the recipient and the amount that were given, and
/// different amounts or recipients make different requests.
pub proof fn law_minting_is_exact(
    sender: Seq<char>,
    recipient: Seq<char>,
    addr: Seq<char>,
    amount: u128,
    other_recipient: Seq<char>,
    other_amount: u128,
)
    ensures
        minting(sender, recipient, addr, amount).sender == sender,
        minting(sender, recipient, addr, amount).contract_addr == addr,
        minting(sender, recipient, addr, amount).msg == (TokenMsgView::Mint { recipient, amount }),
        other_recipient != recipient || other_amount != amount ==> minting(
            sender,
            recipient,
            addr,
            amount,
        ) != minting(sender, other_recipient, addr, other_amount),
{
}

/// A token is created from the code for tokens, by its owner, who starts with the amount given and
/// may mint without a limit; its name is its symbol, and it has six digits after the point.
pub proof fn law_creation_is_exact(
    t: TokensView,
    owner: Seq<char>,
    token: Seq<char>,
    amount: u128,
)
    ensures
        ({
            let r = t.creation(owner, token, amount);
            &&& r.code_id == t.token_id
            &&& r.sender == owner
            &&& r.label == "cw20"@
            &&& r.name == token
            &&& r.symbol == token
            &&& r.decimals == 6
            &&& r.initial_balances.len() == 1
            &&& r.initial_balances[0].0 == owner
            &&& r.initial_balances[0].1 == amount
            &&& r.minter == Some(owner)
            &&& r.cap is None
        }),
{
}

/// What `balances` list for `who`.
pub open spec fn listed_for(balances: Seq<(Seq<char>, u128)>, who: Seq<char>) -> nat
    decreases balances.len(),
{
    if balances.len() == 0 {
        0
    } else {
        (if balances[0].0 == who {
            balances[0].1 as nat
        } else {
            0
        }) + listed_for(balances.skip(1), who)
    }
}

/// What `balances` list of `token` for `who`.
pub open spec fn listed_of(
    balances: Seq<TokenBalancesView>,
    token: Seq<char>,
    who: Seq<char>,
) -> nat
    decreases balances.len(),
{
    if balances.len() == 0 {
        0
    } else {
        (if balances[0].token == token {
            listed_for(balances[0].balances, who)
        } else {
            0
        }) + listed_of(balances.skip(1), token, who)
    }
}

/// How much of `denom` there is in `coins`.
pub open spec fn amount_of(coins: Seq<CoinView>, denom: Seq<char>) -> nat
    decreases coins.len(),
{
    if coins.len() == 0 {
        0
    } else {
        (if coins[0].denom == denom {
            coins[0].amount as nat
        } else {
            0
        }) + amount_of(coins.skip(1), denom)
    }
}

/// How much of `denom` is sent from `sender` to `who`.
pub open spec fn sent_to(
    sends: Seq<SendView>,
    sender: Seq<char>,
    who: Seq<char>,
    denom: Seq<char>,
) -> nat
    decreases sends.len(),
{
    if sends.len() == 0 {
        0
    } else {
        (if sends[0].sender == sender && sends[0].recipient == who {
            amount_of(sends[0].amount, denom)
        } else {
            0
        }) + sent_to(sends.skip(1), sender, who, denom)
    }
}

proof fn lemma_sent_to_adds(
    a: Seq<SendView>,
    b: Seq<SendView>,
    sender: Seq<char>,
    who: Seq<char>,
    denom: Seq<char>,
)
    ensures
        sent_to(a + b, sender, who, denom) == sent_to(a, sender, who, denom) + sent_to(
            b,
            sender,
            who,
            denom,
        ),
    decreases a.len(),
{
    if a.len() == 0 {
        assert(a + b =~= b);
    } else {
        lemma_sent_to_adds(a.skip(1), b, sender, who, denom);
        assert((a + b).skip(1) =~= a.skip(1) + b);
        assert((a + b)[0] == a[0]);
    }
}

proof fn lemma_sends_of_one(
    sender: Seq<char>,
    token: Seq<char>,
    balances: Seq<(Seq<char>, u128)>,
    who: Seq<char>,
    denom: Seq<char>,
)
    ensures
        sent_to(sends_of(sender, token, balances), sender, who, denom) == if token == denom {
            listed_for(balances, who)
        } else {
            0
        },
    decreases balances.len(),
{
    reveal_with_fuel(amount_of, 2);
    let sends = sends_of(sender, token, balances);
    if balances.len() > 0 {
        lemma_sends_of_one(sender, token, balances.skip(1), who, denom);
        assert(sends.skip(1) =~= sends_of(sender, token, balances.skip(1)));
        let coin = CoinView { denom: token, amount: balances[0].1 };
        assert(sends[0].amount =~= seq![coin]);
        assert(seq![coin].skip(1) =~= Seq::empty());
    }
}

/// Every recipient is sent what the balances list for them, of every kind of coin: the amounts sent
/// add up to the amounts listed.
pub proof fn law_sent_amounts_add_up(
    sender: Seq<char>,
    balances: Seq<TokenBalancesView>,
    denom: Seq<char>,
    who: Seq<char>,
)
    ensures
        sent_to(all_sends(sender, balances), sender, who, denom) == listed_of(
            balances,
            denom,
            who,
        ),
    decreases balances.len(),
{
    if balances.len() > 0 {
        let head = seq![balances[0]];
        let tail = balances.skip(1);
        law_sent_amounts_add_up(sender, tail, denom, who);
        law_one_kind_is_sent_in_order(sender, balances[0], 0);
        law_sends_follow_each_other(sender, head, tail);
        assert(head + tail =~= balances);
        lemma_sent_to_adds(
            all_sends(sender, head),
            all_sends(sender, tail),
            sender,
            who,
            denom,
        );
        lemma_sends_of_one(sender, balances[0].token, balances[0].balances, who, denom);
    }
}

/// One kind of coin is sent to one recipient after the other: from the sender, to that recipient,
/// that amount of that coin alone.
pub proof fn law_one_kind_is_sent_in_order(sender: Seq<char>, one: TokenBalancesView, i: int)
    ensures
        ({
            let sends = all_sends(sender, seq![one]);
            &&& sends == sends_of(sender, one.token, one.balances)
            &&& sends.len() == one.balances.len()
            &&& 0 <= i < sends.len() ==> {
                &&& sends[i].sender == sender
                &&& sends[i].recipient == one.balances[i].0
                &&& sends[i].amount.len() == 1
                &&& sends[i].amount[0].denom == one.token
                &&& sends[i].amount[0].amount == one.balances[i].1
            }
        }),
        all_sends(sender, Seq::empty()).len() == 0,
{
    reveal_with_fuel(all_sends, 2);
    let s = seq![one];
    assert(s.drop_last() =~= Seq::empty());
    assert(s.last() == one);
    assert(all_sends(sender, s) =~= sends_of(sender, one.token, one.balances));
}

/// Balances, requests and questions are seen with all that they have.
pub proof fn law_requests_are_seen_whole(
    b: TokenBalances,
    all: Seq<TokenBalances>,
    send: SendRequest,
    sends: Seq<SendRequest>,
    token: TokenRequest,
    call: TokenCall,
    query: BalanceQuery,
    queries: Seq<(String, BalanceQuery)>,
)
    ensures
        b@.token == b.token@,
        b@.balances.len() == b.balances.len(),
        forall|i: int|
            0 <= i < b.balances.len() ==> (#[trigger] b@.balances[i]).0 == b.balances@[i].0@
                && b@.balances[i].1 == b.balances@[i].1,
        all_balances_view(all).len() == all.len(),
        forall|i: int| 0 <= i < all.len() ==> #[trigger] all_balances_view(all)[i] == all[i]@,
        send@.sender == send.sender@,
        send@.recipient == send.recipient@,
        send@.amount == coins_view(send.amount@),
        sends_view(sends).len() == sends.len(),
        forall|i: int| 0 <= i < sends.len() ==> #[trigger] sends_view(sends)[i] == sends[i]@,
        token@.code_id == token.code_id,
        token@.sender == token.sender@,
        token@.label == token.label@,
        token@.name == token.name@,
        token@.symbol == token.symbol@,
        token@.decimals == token.decimals,
        token@.initial_balances.len() == token.initial_balances.len(),
        forall|i: int|
            0 <= i < token.initial_balances.len() ==> (#[trigger] token@.initial_balances[i]).0
                == token.initial_balances@[i].0@ && token@.initial_balances[i].1
                == token.initial_balances@[i].1,
        token.minter is None <==> token@.minter is None,
        token.minter matches Some(m) ==> token@.minter == Some(m@),
        token@.cap == token.cap,
        call@.sender == call.sender@,
        call@.contract_addr == call.contract_addr@,
        call.msg matches TokenMsg::Mint { recipient, amount } ==> call@.msg == (
        TokenMsgView::Mint { recipient: recipient@, amount }),
        call.msg matches TokenMsg::IncreaseAllowance { spender, amount } ==> call@.msg == (
        TokenMsgView::IncreaseAllowance { spender: spender@, amount }),
        query@.contract_addr == query.contract_addr@,
        query@.address == query.address@,
        queries_view(queries).len() == queries.len(),
        forall|i: int|
            0 <= i < queries.len() ==> (#[trigger] queries_view(queries)[i]).0 == queries[i].0@
                && queries_view(queries)[i].1 == queries[i].1@,
{
}

} // verus!
