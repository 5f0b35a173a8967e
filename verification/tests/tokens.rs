use cosmwasm_testing_util::mint_plan::{MintAction, MintEvent, MintPlan};
use cosmwasm_testing_util::tokens::{
    token_balances, BalanceQuery, FactoryRequest, SendRequest, TokenBalances, TokenBook, TokenCall,
    TokenMsg, TokenRequest,
};
use cosmwasm_testing_util::types::{coins, Coin};

fn balances(token: &str, of: &[(&str, u128)]) -> TokenBalances {
    TokenBalances {
        token: token.to_string(),
        balances: of.iter().map(|(who, amount)| (who.to_string(), *amount)).collect(),
    }
}

fn creation(code_id: u64, owner: &str, token: &str, amount: u128) -> TokenRequest {
    TokenRequest {
        code_id,
        sender: owner.to_string(),
        label: "cw20".to_string(),
        name: token.to_string(),
        symbol: token.to_string(),
        decimals: 6,
        initial_balances: vec![(owner.to_string(), amount)],
        minter: Some(owner.to_string()),
        cap: None,
    }
}

fn mint(sender: &str, recipient: &str, addr: &str, amount: u128) -> TokenCall {
    TokenCall {
        sender: sender.to_string(),
        contract_addr: addr.to_string(),
        msg: TokenMsg::Mint { recipient: recipient.to_string(), amount },
    }
}

#[test]
fn a_book_starts_without_tokens() {
    let book = TokenBook::new(1, 2);
    assert_eq!(book.token_id(), 1);
    assert_eq!(book.tokenfactory_id(), 2);
    assert_eq!(book.get_token_addr("usdt"), None);
    assert_eq!(book.query_token_balances("me"), vec![]);
}

#[test]
fn noted_tokens_are_found() {
    let mut book = TokenBook::new(1, 2);
    book.token_created("usdt", "addr0");
    book.token_created("airi", "addr1");
    assert_eq!(book.get_token_addr("usdt"), Some("addr0".to_string()));
    assert_eq!(book.get_token_addr("airi"), Some("addr1".to_string()));
    assert_eq!(book.get_token_addr("addr0"), None);
    // a later address takes the place of an earlier one
    book.token_created("usdt", "addr2");
    assert_eq!(book.get_token_addr("usdt"), Some("addr2".to_string()));
    assert_eq!(book.register_token("addr3", "orai"), "orai");
    assert_eq!(book.get_token_addr("orai"), Some("addr3".to_string()));
    assert_eq!(book.query_token_balances("me").len(), 3);
    book.set_token_contract(9);
    assert_eq!(book.token_id(), 9);
    assert_eq!(book.tokenfactory_id(), 2);
    assert_eq!(book.get_token_addr("usdt"), Some("addr2".to_string()));
}

#[test]
fn tokens_are_asked_for() {
    let mut book = TokenBook::new(1, 2);
    assert_eq!(book.create_token("me", "usdt", 7), creation(1, "me", "usdt", 7));
    book.set_token_contract(5);
    assert_eq!(book.create_token("me", "usdt", 0), creation(5, "me", "usdt", 0));
    assert_eq!(
        book.create_tokenfactory("me"),
        FactoryRequest {
            code_id: 2,
            sender: "me".to_string(),
            label: "tokenfactory".to_string(),
        }
    );
    assert_eq!(TokenBook::mint_token("me", "you", "addr", 3), mint("me", "you", "addr", 3));
}

#[test]
fn a_token_that_is_not_known_is_an_address() {
    let mut book = TokenBook::new(1, 2);
    let approval = |addr: &str| TokenCall {
        sender: "me".to_string(),
        contract_addr: addr.to_string(),
        msg: TokenMsg::IncreaseAllowance { spender: "you".to_string(), amount: 5 },
    };
    assert_eq!(book.approve_token("usdt", "me", "you", 5), approval("usdt"));
    book.token_created("usdt", "addr0");
    assert_eq!(book.approve_token("usdt", "me", "you", 5), approval("addr0"));
}

#[test]
fn each_token_is_asked_about_once() {
    let mut book = TokenBook::new(1, 2);
    book.token_created("usdt", "addr0");
    book.token_created("airi", "addr1");
    book.token_created("usdt", "addr2");
    let mut queries = book.query_token_balances("me");
    queries.sort_by(|a, b| a.0.cmp(&b.0));
    let ask = |addr: &str| BalanceQuery {
        contract_addr: addr.to_string(),
        address: "me".to_string(),
    };
    assert_eq!(
        queries,
        vec![("airi".to_string(), ask("addr1")), ("usdt".to_string(), ask("addr2"))]
    );
    assert_eq!(TokenBook::query_token_balance("addr1", "me"), ask("addr1"));
    assert_eq!(
        token_balances(&queries, &[10, 20]),
        vec![
            Coin { denom: "airi".to_string(), amount: 10 },
            Coin { denom: "usdt".to_string(), amount: 20 },
        ]
    );
}

#[test]
fn coins_are_sent_one_after_the_other() {
    let asked = [
        balances("orai", &[("a", 1), ("b", 0)]),
        balances("atom", &[]),
        balances("osmo", &[("a", 3)]),
    ];
    let send = |to: &str, amount: u128, denom: &str| SendRequest {
        sender: "me".to_string(),
        recipient: to.to_string(),
        amount: coins(amount, denom),
    };
    let expected = vec![send("a", 1, "orai"), send("b", 0, "orai"), send("a", 3, "osmo")];
    assert_eq!(TokenBook::set_balances_from("me", &asked), expected);
    assert_eq!(TokenBook::set_balances("me", &asked), expected);
    assert_eq!(TokenBook::set_balances("me", &[]), vec![]);
    // the first kinds of coins, then the others
    let mut parts = TokenBook::set_balances("me", &asked[..1]);
    parts.extend(TokenBook::set_balances("me", &asked[1..]));
    assert_eq!(parts, expected);
}

#[test]
fn a_plan_creates_what_is_not_known_and_mints() {
    let mut book = TokenBook::new(4, 2);
    book.token_created("known", "addr_known");
    let mut plan = TokenBook::set_token_balances_from(
        "me",
        vec![
            balances("new", &[("a", 1), ("nobody", 0), ("b", 2)]),
            balances("known", &[("a", 3)]),
            balances("new", &[("c", 4)]),
            balances("empty", &[]),
        ],
    );
    assert_eq!(
        plan.step(&mut book, MintEvent::Begin),
        MintAction::CreateToken(creation(4, "me", "new", 0))
    );
    assert_eq!(
        plan.step(&mut book, MintEvent::TokenCreated("addr_new".to_string())),
        MintAction::Mint(mint("me", "a", "addr_new", 1))
    );
    assert_eq!(book.get_token_addr("new"), Some("addr_new".to_string()));
    assert_eq!(
        plan.step(&mut book, MintEvent::Minted),
        MintAction::Mint(mint("me", "b", "addr_new", 2))
    );
    assert_eq!(
        plan.step(&mut book, MintEvent::Minted),
        MintAction::Mint(mint("me", "a", "addr_known", 3))
    );
    // created before, so known now
    assert_eq!(
        plan.step(&mut book, MintEvent::Minted),
        MintAction::Mint(mint("me", "c", "addr_new", 4))
    );
    assert_eq!(
        plan.step(&mut book, MintEvent::Minted),
        MintAction::CreateToken(creation(4, "me", "empty", 0))
    );
    assert_eq!(
        plan.step(&mut book, MintEvent::TokenCreated("addr_empty".to_string())),
        MintAction::Done(vec![
            "addr_new".to_string(),
            "addr_known".to_string(),
            "addr_new".to_string(),
            "addr_empty".to_string(),
        ])
    );
    assert_eq!(plan.step(&mut book, MintEvent::Begin), MintAction::Stopped);
}

#[test]
fn an_empty_plan_is_done_at_once() {
    let mut book = TokenBook::new(4, 2);
    let mut plan = TokenBook::set_token_balances("me", vec![]);
    assert_eq!(plan.step(&mut book, MintEvent::Begin), MintAction::Done(vec![]));
}

#[test]
fn a_refusal_ends_a_plan() {
    let mut book = TokenBook::new(4, 2);
    book.token_created("known", "addr");
    let mut plan =
        MintPlan::new("me", vec![balances("known", &[("a", 3)]), balances("new", &[("a", 3)])]);
    assert_eq!(
        plan.step(&mut book, MintEvent::Begin),
        MintAction::Mint(mint("me", "a", "addr", 3))
    );
    assert_eq!(plan.step(&mut book, MintEvent::Failed), MintAction::Stopped);
    assert_eq!(plan.step(&mut book, MintEvent::Minted), MintAction::Stopped);
    assert_eq!(book.get_token_addr("new"), None);
}

#[test]
fn an_event_out_of_turn_ends_a_plan() {
    let mut book = TokenBook::new(4, 2);
    let mut plan = MintPlan::new("me", vec![balances("new", &[("a", 3)])]);
    let event = MintEvent::TokenCreated("addr".to_string());
    assert_eq!(plan.step(&mut book, event), MintAction::Stopped);
    assert_eq!(book.get_token_addr("new"), None);
    let mut plan = MintPlan::new("me", vec![balances("new", &[("a", 3)])]);
    assert_eq!(
        plan.step(&mut book, MintEvent::Begin),
        MintAction::CreateToken(creation(4, "me", "new", 0))
    );
    assert_eq!(plan.step(&mut book, MintEvent::Minted), MintAction::Stopped);
}
