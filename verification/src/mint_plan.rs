//! Giving tokens out step by step. A plan says what to ask of the chain next and is told what
//! came of it: tokens that are not known are created first, then the tokens are minted.
use crate::tokens::{
    all_balances_view, balances_view, listed_for, minting, TokenBalances, TokenBalancesView,
    TokenBook, TokenCall, TokenCallView, TokenMsgView, TokenRequest, TokenRequestView, TokensView,
};
use vstd::prelude::*;

verus! {

/// What to ask of the chain.
#[derive(Clone, Debug, PartialEq, Eq)]
pub enum MintAction {
    CreateToken(TokenRequest),
    Mint(TokenCall),
    /// Nothing: the tokens are given out. They are at these addresses, in the order asked for.
    Done(Vec<String>),
    /// Nothing: the plan has ended before.
    Stopped,
}

pub enum MintActionView {
    CreateToken(TokenRequestView),
    Mint(TokenCallView),
    Done(Seq<Seq<char>>),
    Stopped,
}

pub open spec fn strings_view(s: Seq<String>) -> Seq<Seq<char>> {
    s.map_values(|x: String| x@)
}

impl View for MintAction {
    type V = MintActionView;

    open spec fn view(&self) -> MintActionView {
        match *self {
            MintAction::CreateToken(request) => MintActionView::CreateToken(request@),
            MintAction::Mint(call) => MintActionView::Mint(call@),
            MintAction::Done(addrs) => MintActionView::Done(strings_view(addrs@)),
            MintAction::Stopped => MintActionView::Stopped,
        }
    }
}

/// What came of the last step.
#[derive(Clone, Debug, PartialEq, Eq)]
pub enum MintEvent {
    /// There was none yet.
    Begin,
    /// The token was created at this address.
    TokenCreated(String),
    /// The tokens were minted.
    Minted,
    /// The chain refused.
    Failed,
}

pub enum MintEventView {
    Begin,
    TokenCreated(Seq<char>),
    Minted,
    Failed,
}

impl View for MintEvent {
    type V = MintEventView;

    open spec fn view(&self) -> MintEventView {
        match *self {
            MintEvent::Begin => MintEventView::Begin,
            MintEvent::TokenCreated(addr) => MintEventView::TokenCreated(addr@),
            MintEvent::Minted => MintEventView::Minted,
            MintEvent::Failed => MintEventView::Failed,
        }
    }
}

/// What a plan waits for.
#[derive(Clone, Copy, Debug, PartialEq, Eq, Structural)]
pub enum MintPhase {
    Begin,
    Creation,
    Mint,
    Ended,
}

/// The requests that mint `balances` of the token at `addr`: one for each recipient that is to
/// have more than nothing.
pub open spec fn mints_of(
    sender: Seq<char>,
    addr: Seq<char>,
    balances: Seq<(Seq<char>, u128)>,
) -> Seq<TokenCallView> {
    balances.filter(|b: (Seq<char>, u128)| b.1 > 0).map_values(
        |b: (Seq<char>, u128)| minting(sender, b.0, addr, b.1),
    )
}

/// The state of a plan.
#[verifier::ext_equal]
pub struct PlanView {
    pub sender: Seq<char>,
    /// The tokens whose address is not known yet.
    pub todo: Seq<TokenBalancesView>,
    /// The requests that are left for the last token whose address is known.
    pub mints: Seq<TokenCallView>,
    /// The addresses of the tokens so far.
    pub addrs: Seq<Seq<char>>,
    pub phase: MintPhase,
}

impl PlanView {
    pub open spec fn start(sender: Seq<char>, balances: Seq<TokenBalancesView>) -> PlanView {
        PlanView {
            sender,
            todo: balances,
            mints: Seq::empty(),
            addrs: Seq::empty(),
            phase: MintPhase::Begin,
        }
    }

    /// The next token turns out to be at `addr`.
    pub open spec fn found(self, addr: Seq<char>) -> PlanView {
        PlanView {
            todo: self.todo.skip(1),
            mints: mints_of(self.sender, addr, self.todo[0].balances),
            addrs: self.addrs.push(addr),
            phase: MintPhase::Mint,
            ..self
        }
    }

    /// The next thing to ask: what is left to mint comes first, then the next token, which is
    /// created where it is not known.
    pub open spec fn advance(self, tokens: TokensView) -> (PlanView, MintActionView)
        decreases self.todo.len(),
    {
        if self.mints.len() > 0 {
            (
                PlanView { mints: self.mints.skip(1), phase: MintPhase::Mint, ..self },
                MintActionView::Mint(self.mints[0]),
            )
        } else if self.todo.len() == 0 {
            (PlanView { phase: MintPhase::Ended, ..self }, MintActionView::Done(self.addrs))
        } else if tokens.addrs.contains_key(self.todo[0].token) {
            self.found(tokens.addrs[self.todo[0].token]).advance(tokens)
        } else {
            (
                PlanView { phase: MintPhase::Creation, ..self },
                MintActionView::CreateToken(
                    tokens.creation(self.sender, self.todo[0].token, 0),
                ),
            )
        }
    }

    /// What is known of tokens after an event.
    pub open spec fn learned(self, tokens: TokensView, event: MintEventView) -> TokensView {
        match event {
            MintEventView::TokenCreated(addr) => if self.phase == MintPhase::Creation
                && self.todo.len() > 0 {
                tokens.with_token(self.todo[0].token, addr)
            } else {
                tokens
            },
            _ => tokens,
        }
    }

    /// The step of a plan: an event that it waited for takes it on, any other ends it.
    pub open spec fn step(self, tokens: TokensView, event: MintEventView) -> (
        PlanView,
        MintActionView,
    ) {
        let stop = (PlanView { phase: MintPhase::Ended, ..self }, MintActionView::Stopped);
        match event {
            MintEventView::Begin => if self.phase == MintPhase::Begin {
                self.advance(tokens)
            } else {
                stop
            },
            MintEventView::Minted => if self.phase == MintPhase::Mint {
                self.advance(tokens)
            } else {
                stop
            },
            MintEventView::TokenCreated(addr) => if self.phase == MintPhase::Creation
                && self.todo.len() > 0 {
                self.found(addr).advance(self.learned(tokens, event))
            } else {
                stop
            },
            MintEventView::Failed => stop,
        }
    }
}

/// A plan to give tokens out.
pub struct MintPlan {
    sender: String,
    balances: Vec<TokenBalances>,
    // the token that is worked on
    token_at: usize,
    // its next recipient
    recipient_at: usize,
    // of the tokens before that one, and of that one once its address is known
    addrs: Vec<String>,
    phase: MintPhase,
}

impl View for MintPlan {
    type V = PlanView;

    closed spec fn view(&self) -> PlanView {
        let all = all_balances_view(self.balances@);
        if self.addrs.len() > self.token_at {
            PlanView {
                sender: self.sender@,
                todo: all.skip(self.token_at + 1),
                mints: mints_of(
                    self.sender@,
                    self.addrs@.last()@,
                    all[self.token_at as int].balances.skip(self.recipient_at as int),
                ),
                addrs: strings_view(self.addrs@),
                phase: self.phase,
            }
        } else {
            PlanView {
                sender: self.sender@,
                todo: all.skip(self.token_at as int),
                mints: Seq::empty(),
                addrs: strings_view(self.addrs@),
                phase: self.phase,
            }
        }
    }
}

/// The first of some balances is asked for first, if it is more than nothing.
proof fn lemma_mints_front(sender: Seq<char>, addr: Seq<char>, balances: Seq<(Seq<char>, u128)>)
    requires
        balances.len() > 0,
    ensures
        balances[0].1 == 0 ==> mints_of(sender, addr, balances) == mints_of(
            sender,
            addr,
            balances.skip(1),
        ),
        balances[0].1 > 0 ==> mints_of(sender, addr, balances) == seq![
            minting(sender, balances[0].0, addr, balances[0].1),
        ] + mints_of(sender, addr, balances.skip(1)),
{
    let pred = |b: (Seq<char>, u128)| b.1 > 0;
    let head = seq![balances[0]];
    let tail = balances.skip(1);
    assert(balances =~= head + tail);
    Seq::filter_distributes_over_add(head, tail, pred);
    reveal_with_fuel(Seq::filter, 2);
    assert(head.drop_last() =~= Seq::empty());
    if balances[0].1 == 0 {
        assert(head.filter(pred) =~= Seq::empty());
        assert(balances.filter(pred) =~= tail.filter(pred));
    } else {
        assert(head.filter(pred) =~= head);
        assert(mints_of(sender, addr, balances) =~= seq![
            minting(sender, balances[0].0, addr, balances[0].1),
        ] + mints_of(sender, addr, tail));
    }
}

fn copy_strings(s: &Vec<String>) -> (r: Vec<String>)
    ensures
        strings_view(r@) == strings_view(s@),
{
    let mut out: Vec<String> = Vec::new();
    let mut i: usize = 0;
    while i < s.len()
        invariant
            i <= s.len(),
            out.len() == i,
            forall|j: int| 0 <= j < i ==> (#[trigger] out@[j])@ == s@[j]@,
        decreases s.len() - i,
    {
        out.push(s[i].clone());
        i += 1;
    }
    assert(strings_view(out@) =~= strings_view(s@));
    out
}

impl MintPlan {
    pub closed spec fn wf(self) -> bool {
        &&& self.token_at <= self.balances.len()
        &&& self.token_at <= self.addrs.len() <= self.token_at + 1
        &&& self.addrs.len() > self.token_at ==> {
            &&& self.token_at < self.balances.len()
            &&& self.recipient_at <= self.balances@[self.token_at as int].balances.len()
        }
        &&& self.phase == MintPhase::Creation ==> {
            &&& self.addrs.len() == self.token_at
            &&& self.token_at < self.balances.len()
        }
    }

    /// A plan by which `sender` gives out tokens.
    pub fn new(sender: &str, balances: Vec<TokenBalances>) -> (r: Self)
        ensures
            r.wf(),
            r@ == PlanView::start(sender@, all_balances_view(balances@)),
    {
        let r = MintPlan {
            sender: sender.to_owned(),
            balances,
            token_at: 0,
            recipient_at: 0,
            addrs: Vec::new(),
            phase: MintPhase::Begin,
        };
        proof {
            assert(all_balances_view(balances@).skip(0) =~= all_balances_view(balances@));
            assert(r@ =~= PlanView::start(sender@, all_balances_view(balances@)));
        }
        r
    }

    fn advance(&mut self, book: &TokenBook) -> (r: MintAction)
        requires
            old(self).wf(),
            book.wf(),
        ensures
            final(self).wf(),
            (final(self)@, r@) == old(self)@.advance(book@),
    {
        let ghost all = all_balances_view(self.balances@);
        let ghost goal = old(self)@.advance(book@);
        loop
            invariant
                self.wf(),
                book.wf(),
                all == all_balances_view(self.balances@),
                goal == old(self)@.advance(book@),
                self@.advance(book@) == goal,
            decreases
                    self.balances.len() - self.token_at,
                    1 - (self.addrs.len() - self.token_at),
                    if self.addrs.len() > self.token_at {
                        self.balances@[self.token_at as int].balances.len() - self.recipient_at
                    } else {
                        0
                    },
        {
            let ghost pre = *self;
            if self.addrs.len() > self.token_at {
                let at: usize = self.token_at;
                let to: usize = self.recipient_at;
                let ghost of = all[at as int].balances;
                let ghost rest = of.skip(to as int);
                assert(of =~= balances_view(self.balances@[at as int].balances@));
                if to < self.balances[at].balances.len() {
                    let amount: u128 = self.balances[at].balances[to].1;
                    self.recipient_at = to + 1;
                    proof {
                        assert(rest[0] == of[to as int]);
                        assert(rest.skip(1) =~= of.skip(to + 1));
                        lemma_mints_front(self.sender@, self.addrs@.last()@, rest);
                    }
                    if amount > 0 {
                        let call = TokenBook::mint_token(
                            self.sender.as_str(),
                            self.balances[at].balances[to].0.as_str(),
                            self.addrs[at].as_str(),
                            amount,
                        );
                        self.phase = MintPhase::Mint;
                        proof {
                            let m = pre@.mints;
                            assert(m[0] == call@);
                            assert(m.skip(1) =~= mints_of(
                                self.sender@,
                                self.addrs@.last()@,
                                of.skip(to + 1),
                            ));
                            assert(self@ =~= PlanView {
                                mints: m.skip(1),
                                phase: MintPhase::Mint,
                                ..pre@
                            });
                        }
                        return MintAction::Mint(call);
                    }
                    assert(self@ =~= pre@);
                } else {
                    self.token_at = at + 1;
                    self.recipient_at = 0;
                    proof {
                        assert(rest =~= Seq::empty());
                        assert(rest.filter(|b: (Seq<char>, u128)| b.1 > 0) =~= Seq::empty());
                        assert(pre@.mints =~= Seq::empty());
                        assert(self@ =~= pre@);
                    }
                }
            } else if self.token_at < self.balances.len() {
                let at: usize = self.token_at;
                proof {
                    assert(pre@.todo[0] == all[at as int]);
                }
                match book.get_token_addr(self.balances[at].token.as_str()) {
                    Some(addr) => {
                        self.addrs.push(addr);
                        self.recipient_at = 0;
                        self.phase = MintPhase::Mint;
                        proof {
                            assert(all[at as int].balances.skip(0) =~= all[at as int].balances);
                            assert(pre@.todo.skip(1) =~= all.skip(at + 1));
                            assert(strings_view(self.addrs@) =~= strings_view(pre.addrs@).push(
                                addr@,
                            ));
                            assert(self@ =~= pre@.found(addr@));
                        }
                    },
                    None => {
                        let request = book.create_token(
                            self.sender.as_str(),
                            self.balances[at].token.as_str(),
                            0,
                        );
                        self.phase = MintPhase::Creation;
                        assert(self@ =~= PlanView { phase: MintPhase::Creation, ..pre@ });
                        return MintAction::CreateToken(request);
                    },
                }
            } else {
                let addrs = copy_strings(&self.addrs);
                self.phase = MintPhase::Ended;
                proof {
                    assert(pre@.todo =~= Seq::empty());
                    assert(self@ =~= PlanView { phase: MintPhase::Ended, ..pre@ });
                }
                return MintAction::Done(addrs);
            }
        }
    }

    /// The step of a plan: an event that it waited for takes it on, any other ends it.
    pub fn step(&mut self, book: &mut TokenBook, event: MintEvent) -> (r: MintAction)
        requires
            old(self).wf(),
            old(book).wf(),
        ensures
            final(self).wf(),
            final(book).wf(),
            final(book)@ == old(self)@.learned(old(book)@, event@),
            (final(self)@, r@) == old(self)@.step(old(book)@, event@),
    {
        let ghost pre = *self;
        match event {
            MintEvent::Begin => {
                if self.phase == MintPhase::Begin {
                    return self.advance(book);
                }
            },
            MintEvent::Minted => {
                if self.phase == MintPhase::Mint {
                    return self.advance(book);
                }
            },
            MintEvent::TokenCreated(addr) => {
                if self.phase == MintPhase::Creation {
                    let at: usize = self.token_at;
                    book.token_created(self.balances[at].token.as_str(), addr.as_str());
                    proof {
                        let all = all_balances_view(self.balances@);
                        assert(pre@.todo[0] == all[at as int]);
                        assert(all[at as int].balances.skip(0) =~= all[at as int].balances);
                        assert(pre@.todo.skip(1) =~= all.skip(at + 1));
                        assert(strings_view(pre.addrs@.push(addr)) =~= strings_view(
                            pre.addrs@,
                        ).push(addr@));
                    }
                    self.addrs.push(addr);
                    self.recipient_at = 0;
                    self.phase = MintPhase::Mint;
                    assert(self@ =~= pre@.found(addr@));
                    return self.advance(book);
                }
            },
            MintEvent::Failed => {},
        }
        self.phase = MintPhase::Ended;
        assert(self@ =~= PlanView { phase: MintPhase::Ended, ..pre@ });
        MintAction::Stopped
    }
}

impl TokenBook {
    /// The plan by which `sender` gives out tokens.
    pub fn set_token_balances_from(sender: &str, balances: Vec<TokenBalances>) -> (r: MintPlan)
        ensures
            r.wf(),
            r@ == PlanView::start(sender@, all_balances_view(balances@)),
    {
        MintPlan::new(sender, balances)
    }

    /// The plan by which the owner gives out tokens.
    pub fn set_token_balances(owner: &str, balances: Vec<TokenBalances>) -> (r: MintPlan)
        ensures
            r.wf(),
            r@ == PlanView::start(owner@, all_balances_view(balances@)),
    {
        TokenBook::set_token_balances_from(owner, balances)
    }
}

/// All that a plan asks for in the state `plan`, having just asked for `action`, and what is known
/// of tokens in the end, on a chain that refuses nothing and puts each new token at the address
/// that `place` tells.
pub open spec fn played(
    plan: PlanView,
    action: MintActionView,
    tokens: TokensView,
    place: spec_fn(Seq<char>) -> Seq<char>,
) -> (Seq<MintActionView>, TokensView)
    decreases
            plan.todo.len(),
            plan.mints.len(),
            match action {
                MintActionView::Mint(_) => 2int,
                MintActionView::CreateToken(_) => 1int,
                _ => 0int,
            },
{
    proof {
        lemma_advance_shrinks(plan, tokens);
        if plan.todo.len() > 0 {
            let addr = place(plan.todo[0].token);
            lemma_advance_shrinks(
                plan.found(addr),
                plan.learned(tokens, MintEventView::TokenCreated(addr)),
            );
        }
    }
    match action {
        MintActionView::CreateToken(_) => {
            let event = MintEventView::TokenCreated(place(plan.todo[0].token));
            let (next, asked) = plan.step(tokens, event);
            let (more, known) = played(next, asked, plan.learned(tokens, event), place);
            (seq![action] + more, known)
        },
        MintActionView::Mint(_) => {
            let (next, asked) = plan.step(tokens, MintEventView::Minted);
            let (more, known) = played(next, asked, tokens, place);
            (seq![action] + more, known)
        },
        _ => (seq![action], tokens),
    }
}

/// Each request leaves less to ask for.
pub proof fn lemma_advance_shrinks(plan: PlanView, tokens: TokensView)
    ensures
        ({
            let (next, asked) = plan.advance(tokens);
            &&& next.todo.len() <= plan.todo.len()
            &&& next.todo.len() == plan.todo.len() ==> next.mints.len() <= plan.mints.len()
            &&& next.todo.len() == plan.todo.len() && next.mints.len() == plan.mints.len()
                ==> !(asked is Mint)
        }),
    decreases plan.todo.len(),
{
    if plan.mints.len() == 0 && plan.todo.len() > 0 && tokens.addrs.contains_key(
        plan.todo[0].token,
    ) {
        lemma_advance_shrinks(plan.found(tokens.addrs[plan.todo[0].token]), tokens);
    }
}

/// What giving out `balances` comes to.
pub struct Handout {
    pub asked: Seq<MintActionView>,
    pub addrs: Seq<Seq<char>>,
    pub tokens: TokensView,
}

/// The tokens are given out one after the other. One that is not known is created, with nothing
/// minted on creation, and known from then on; then each recipient gets what is theirs.
pub open spec fn handout(
    sender: Seq<char>,
    balances: Seq<TokenBalancesView>,
    tokens: TokensView,
    place: spec_fn(Seq<char>) -> Seq<char>,
) -> Handout
    decreases balances.len(),
{
    if balances.len() == 0 {
        Handout { asked: Seq::empty(), addrs: Seq::empty(), tokens }
    } else {
        let token = balances[0].token;
        let known = tokens.addrs.contains_key(token);
        let addr = if known {
            tokens.addrs[token]
        } else {
            place(token)
        };
        let creation = if known {
            Seq::empty()
        } else {
            seq![MintActionView::CreateToken(tokens.creation(sender, token, 0))]
        };
        let rest = handout(
            sender,
            balances.skip(1),
            if known {
                tokens
            } else {
                tokens.with_token(token, addr)
            },
            place,
        );
        Handout {
            asked: creation + minted(mints_of(sender, addr, balances[0].balances)) + rest.asked,
            addrs: seq![addr] + rest.addrs,
            tokens: rest.tokens,
        }
    }
}

pub open spec fn minted(calls: Seq<TokenCallView>) -> Seq<MintActionView> {
    calls.map_values(|c: TokenCallView| MintActionView::Mint(c))
}

proof fn lemma_played(
    plan: PlanView,
    tokens: TokensView,
    place: spec_fn(Seq<char>) -> Seq<char>,
)
    ensures
        ({
            let (next, asked) = plan.advance(tokens);
            let rest = handout(plan.sender, plan.todo, tokens, place);
            played(next, asked, tokens, place) == (
                minted(plan.mints) + rest.asked + seq![
                    MintActionView::Done(plan.addrs + rest.addrs),
                ],
                rest.tokens,
            )
        }),
    decreases plan.todo.len(), plan.mints.len(),
{
    let (next, asked) = plan.advance(tokens);
    let rest = handout(plan.sender, plan.todo, tokens, place);
    let end = seq![MintActionView::Done(plan.addrs + rest.addrs)];
    if plan.mints.len() > 0 {
        lemma_played(next, tokens, place);
        assert(seq![asked] + (minted(next.mints) + rest.asked + end) =~= minted(plan.mints)
            + rest.asked + end);
    } else if plan.todo.len() == 0 {
        assert(plan.addrs + rest.addrs =~= plan.addrs);
        assert(seq![asked] =~= minted(plan.mints) + rest.asked + end);
    } else {
        let token = plan.todo[0].token;
        let known = tokens.addrs.contains_key(token);
        let addr = if known {
            tokens.addrs[token]
        } else {
            place(token)
        };
        let found = plan.found(addr);
        let learned = if known {
            tokens
        } else {
            tokens.with_token(token, addr)
        };
        lemma_played(found, learned, place);
        let more = handout(plan.sender, found.todo, learned, place);
        assert(found.addrs + more.addrs =~= plan.addrs + rest.addrs);
        if known {
            assert(minted(found.mints) + more.asked + end =~= minted(plan.mints) + rest.asked
                + end);
        } else {
            assert(seq![asked] + (minted(found.mints) + more.asked + end) =~= minted(plan.mints)
                + rest.asked + end);
        }
    }
}

/// A plan that meets no refusal gives out exactly what it was made for, in order, and ends with
/// the addresses.
pub proof fn law_plan_gives_everything_out(
    sender: Seq<char>,
    balances: Seq<TokenBalancesView>,
    tokens: TokensView,
    place: spec_fn(Seq<char>) -> Seq<char>,
)
    ensures
        ({
            let start = PlanView::start(sender, balances);
            let (next, asked) = start.step(tokens, MintEventView::Begin);
            let whole = handout(sender, balances, tokens, place);
            played(next, asked, tokens, place) == (
                whole.asked + seq![MintActionView::Done(whole.addrs)],
                whole.tokens,
            )
        }),
{
    let start = PlanView::start(sender, balances);
    let whole = handout(sender, balances, tokens, place);
    lemma_played(start, tokens, place);
    assert(start.addrs + whole.addrs =~= whole.addrs);
    assert(minted(start.mints) + whole.asked =~= whole.asked);
}

/// Whatever is given out, the addresses are those of the tokens asked for, one for each, as the
/// book has them in the end; and the book forgets and moves no token.
pub proof fn law_handout_addresses(
    sender: Seq<char>,
    balances: Seq<TokenBalancesView>,
    tokens: TokensView,
    place: spec_fn(Seq<char>) -> Seq<char>,
)
    ensures
        ({
            let whole = handout(sender, balances, tokens, place);
            &&& whole.addrs.len() == balances.len()
            &&& forall|i: int|
                #![trigger balances[i]]
                0 <= i < balances.len() ==> {
                    &&& whole.tokens.addrs.contains_key(balances[i].token)
                    &&& whole.tokens.addrs[balances[i].token] == whole.addrs[i]
                }
            &&& tokens.addrs.submap_of(whole.tokens.addrs)
            &&& whole.tokens.token_id == tokens.token_id
            &&& whole.tokens.tokenfactory_id == tokens.tokenfactory_id
        }),
    decreases balances.len(),
{
    if balances.len() > 0 {
        let token = balances[0].token;
        let learned = if tokens.addrs.contains_key(token) {
            tokens
        } else {
            tokens.with_token(token, place(token))
        };
        let whole = handout(sender, balances, tokens, place);
        let rest = handout(sender, balances.skip(1), learned, place);
        law_handout_addresses(sender, balances.skip(1), learned, place);
        assert(learned.addrs.submap_of(rest.tokens.addrs));
        assert(learned.addrs.dom().contains(token));
        assert(rest.tokens.addrs.dom().contains(token));
        assert forall|k: Seq<char>| #[trigger]
            tokens.addrs.dom().contains(k) implies rest.tokens.addrs.dom().contains(k)
            && tokens.addrs[k] == rest.tokens.addrs[k] by {
            assert(learned.addrs.dom().contains(k));
            assert(rest.tokens.addrs.dom().contains(k));
        }
        assert forall|i: int| #![trigger balances[i]] 0 <= i < balances.len() implies {
            &&& whole.tokens.addrs.contains_key(balances[i].token)
            &&& whole.tokens.addrs[balances[i].token] == whole.addrs[i]
        } by {
            if i > 0 {
                assert(balances.skip(1)[i - 1] == balances[i]);
                assert(whole.addrs[i] == rest.addrs[i - 1]);
            }
        }
    }
}

/// A refusal ends a plan: nothing is learned from it, and nothing is asked for from then on.
pub proof fn law_refusal_ends_plan(
    plan: PlanView,
    tokens: TokensView,
    later: TokensView,
    event: MintEventView,
)
    ensures
        ({
            let (next, asked) = plan.step(tokens, MintEventView::Failed);
            &&& asked is Stopped
            &&& plan.learned(tokens, MintEventView::Failed) == tokens
            &&& next.step(later, event) == (next, MintActionView::Stopped)
            &&& next.learned(later, event) == later
        }),
{
}

/// Recipients are served in order, one after the other: one that is to have more than nothing by a
/// single request for all of it, and one that is to have nothing by none.
pub proof fn law_recipients_are_served_in_order(
    sender: Seq<char>,
    addr: Seq<char>,
    a: Seq<(Seq<char>, u128)>,
    b: Seq<(Seq<char>, u128)>,
    recipient: Seq<char>,
    amount: u128,
)
    ensures
        mints_of(sender, addr, a + b) == mints_of(sender, addr, a) + mints_of(sender, addr, b),
        mints_of(sender, addr, seq![(recipient, 0u128)]).len() == 0,
        amount > 0 ==> {
            let calls = mints_of(sender, addr, seq![(recipient, amount)]);
            &&& calls.len() == 1
            &&& calls[0].sender == sender
            &&& calls[0].contract_addr == addr
            &&& calls[0].msg == (TokenMsgView::Mint { recipient, amount })
        },
{
    let pred = |x: (Seq<char>, u128)| x.1 > 0;
    Seq::filter_distributes_over_add(a, b, pred);
    assert(mints_of(sender, addr, a + b) =~= mints_of(sender, addr, a) + mints_of(sender, addr, b));
    let none = seq![(recipient, 0u128)];
    let some = seq![(recipient, amount)];
    assert(none.skip(1) =~= Seq::empty());
    assert(some.skip(1) =~= Seq::empty());
    let nobody = Seq::<(Seq<char>, u128)>::empty();
    assert(nobody.filter(pred) =~= Seq::empty());
    assert(mints_of(sender, addr, nobody) =~= Seq::empty());
    lemma_mints_front(sender, addr, none);
    lemma_mints_front(sender, addr, some);
}

/// One token alone: where it is known, its recipients are served at its address; where it is not, it
/// is created first, with nothing minted on creation, and known from then on at its new address.
pub proof fn law_one_token_is_given_out(
    sender: Seq<char>,
    one: TokenBalancesView,
    tokens: TokensView,
    place: spec_fn(Seq<char>) -> Seq<char>,
)
    ensures
        handout(sender, Seq::empty(), tokens, place).asked.len() == 0,
        handout(sender, Seq::empty(), tokens, place).addrs.len() == 0,
        handout(sender, Seq::empty(), tokens, place).tokens == tokens,
        ({
            let whole = handout(sender, seq![one], tokens, place);
            if tokens.addrs.contains_key(one.token) {
                let addr = tokens.addrs[one.token];
                &&& whole.asked == minted(mints_of(sender, addr, one.balances))
                &&& whole.addrs == seq![addr]
                &&& whole.tokens == tokens
            } else {
                let addr = place(one.token);
                &&& whole.asked == seq![
                    MintActionView::CreateToken(tokens.creation(sender, one.token, 0)),
                ] + minted(mints_of(sender, addr, one.balances))
                &&& whole.addrs == seq![addr]
                &&& whole.tokens == tokens.with_token(one.token, addr)
            }
        }),
{
    reveal_with_fuel(handout, 2);
    let s = seq![one];
    assert(s.skip(1) =~= Seq::empty());
    let known = tokens.addrs.contains_key(one.token);
    let addr = if known {
        tokens.addrs[one.token]
    } else {
        place(one.token)
    };
    let whole = handout(sender, s, tokens, place);
    assert(whole.addrs =~= seq![addr]);
    let mints = minted(mints_of(sender, addr, one.balances));
    if known {
        assert(whole.asked =~= mints);
    } else {
        let creation = MintActionView::CreateToken(tokens.creation(sender, one.token, 0));
        assert(whole.asked =~= seq![creation] + mints);
    }
}

/// Tokens are given out one after the other: those of two lists together as those of the first, and
/// then those of the second with what is known by then.
pub proof fn law_handouts_follow_each_other(
    sender: Seq<char>,
    a: Seq<TokenBalancesView>,
    b: Seq<TokenBalancesView>,
    tokens: TokensView,
    place: spec_fn(Seq<char>) -> Seq<char>,
)
    ensures
        ({
            let first = handout(sender, a, tokens, place);
            let second = handout(sender, b, first.tokens, place);
            let whole = handout(sender, a + b, tokens, place);
            &&& whole.asked == first.asked + second.asked
            &&& whole.addrs == first.addrs + second.addrs
            &&& whole.tokens == second.tokens
        }),
    decreases a.len(),
{
    let first = handout(sender, a, tokens, place);
    let second = handout(sender, b, first.tokens, place);
    let whole = handout(sender, a + b, tokens, place);
    if a.len() == 0 {
        assert(a + b =~= b);
        assert(whole.asked =~= first.asked + second.asked);
        assert(whole.addrs =~= first.addrs + second.addrs);
    } else {
        let token = a[0].token;
        let learned = if tokens.addrs.contains_key(token) {
            tokens
        } else {
            tokens.with_token(token, place(token))
        };
        assert((a + b).skip(1) =~= a.skip(1) + b);
        assert((a + b)[0] == a[0]);
        law_handouts_follow_each_other(sender, a.skip(1), b, learned, place);
        assert(whole.asked =~= first.asked + second.asked);
        assert(whole.addrs =~= first.addrs + second.addrs);
    }
}

/// How much is minted for `who` of the token at `addr`.
pub open spec fn minted_for(asked: Seq<MintActionView>, addr: Seq<char>, who: Seq<char>) -> nat
    decreases asked.len(),
{
    if asked.len() == 0 {
        0
    } else {
        (match asked[0] {
            MintActionView::Mint(call) => match call.msg {
                TokenMsgView::Mint { recipient, amount } => if call.contract_addr == addr
                    && recipient == who {
                    amount as nat
                } else {
                    0
                },
                _ => 0,
            },
            _ => 0,
        }) + minted_for(asked.skip(1), addr, who)
    }
}

/// How much `balances` list for `who` of the tokens at `addr`, where the token of each place is at
/// the address of that place.
pub open spec fn listed_at(
    balances: Seq<TokenBalancesView>,
    addrs: Seq<Seq<char>>,
    addr: Seq<char>,
    who: Seq<char>,
) -> nat
    decreases balances.len(),
{
    if balances.len() == 0 {
        0
    } else {
        (if addrs[0] == addr {
            listed_for(balances[0].balances, who)
        } else {
            0
        }) + listed_at(balances.skip(1), addrs.skip(1), addr, who)
    }
}

proof fn lemma_minted_for_adds(
    a: Seq<MintActionView>,
    b: Seq<MintActionView>,
    addr: Seq<char>,
    who: Seq<char>,
)
    ensures
        minted_for(a + b, addr, who) == minted_for(a, addr, who) + minted_for(b, addr, who),
    decreases a.len(),
{
    if a.len() == 0 {
        assert(a + b =~= b);
    } else {
        lemma_minted_for_adds(a.skip(1), b, addr, who);
        assert((a + b).skip(1) =~= a.skip(1) + b);
        assert((a + b)[0] == a[0]);
    }
}

proof fn lemma_minted_of_one(
    sender: Seq<char>,
    at: Seq<char>,
    balances: Seq<(Seq<char>, u128)>,
    addr: Seq<char>,
    who: Seq<char>,
)
    ensures
        minted_for(minted(mints_of(sender, at, balances)), addr, who) == if at == addr {
            listed_for(balances, who)
        } else {
            0
        },
    decreases balances.len(),
{
    let calls = mints_of(sender, at, balances);
    if balances.len() == 0 {
        assert(balances.filter(|b: (Seq<char>, u128)| b.1 > 0) =~= Seq::empty());
        assert(minted(calls) =~= Seq::empty());
    } else {
        lemma_mints_front(sender, at, balances);
        lemma_minted_of_one(sender, at, balances.skip(1), addr, who);
        if balances[0].1 > 0 {
            let rest = mints_of(sender, at, balances.skip(1));
            assert(minted(calls).skip(1) =~= minted(rest));
        }
    }
}

/// Every recipient is minted what the balances list for them: of the token at each address, the
/// amounts minted add up to the amounts listed.
pub proof fn law_minted_amounts_add_up(
    sender: Seq<char>,
    balances: Seq<TokenBalancesView>,
    tokens: TokensView,
    place: spec_fn(Seq<char>) -> Seq<char>,
    addr: Seq<char>,
    who: Seq<char>,
)
    ensures
        ({
            let whole = handout(sender, balances, tokens, place);
            &&& minted_for(whole.asked, addr, who) == listed_at(balances, whole.addrs, addr, who)
            &&& minted_for(whole.asked + seq![MintActionView::Done(whole.addrs)], addr, who)
                == listed_at(balances, whole.addrs, addr, who)
        }),
    decreases balances.len(),
{
    let whole = handout(sender, balances, tokens, place);
    if balances.len() > 0 {
        let head = seq![balances[0]];
        let tail = balances.skip(1);
        assert(head + tail =~= balances);
        let first = handout(sender, head, tokens, place);
        let second = handout(sender, tail, first.tokens, place);
        law_handouts_follow_each_other(sender, head, tail, tokens, place);
        law_one_token_is_given_out(sender, balances[0], tokens, place);
        law_minted_amounts_add_up(sender, tail, first.tokens, place, addr, who);
        let at = first.addrs[0];
        let mints = minted(mints_of(sender, at, balances[0].balances));
        lemma_minted_of_one(sender, at, balances[0].balances, addr, who);
        if !tokens.addrs.contains_key(balances[0].token) {
            let creation = seq![
                MintActionView::CreateToken(tokens.creation(sender, balances[0].token, 0)),
            ];
            assert(creation.skip(1) =~= Seq::empty());
            reveal_with_fuel(minted_for, 2);
            lemma_minted_for_adds(creation, mints, addr, who);
        }
        lemma_minted_for_adds(first.asked, second.asked, addr, who);
        assert(whole.addrs.skip(1) =~= second.addrs);
        assert(whole.addrs[0] == at);
    }
    let done = seq![MintActionView::Done(whole.addrs)];
    assert(done.skip(1) =~= Seq::empty());
    assert(minted_for(done, addr, who) == 0) by {
        reveal_with_fuel(minted_for, 2);
    }
    lemma_minted_for_adds(whole.asked, done, addr, who);
}

/// An event that a plan does not wait for ends it: nothing is learned from it and nothing is asked
/// for. A new plan waits to begin.
pub proof fn law_events_out_of_turn_end_a_plan(
    plan: PlanView,
    tokens: TokensView,
    addr: Seq<char>,
    sender: Seq<char>,
    balances: Seq<TokenBalancesView>,
)
    ensures
        PlanView::start(sender, balances).phase == MintPhase::Begin,
        plan.phase != MintPhase::Begin ==> {
            &&& plan.step(tokens, MintEventView::Begin).1 is Stopped
            &&& plan.step(tokens, MintEventView::Begin).0.phase == MintPhase::Ended
        },
        plan.phase != MintPhase::Mint ==> {
            &&& plan.step(tokens, MintEventView::Minted).1 is Stopped
            &&& plan.step(tokens, MintEventView::Minted).0.phase == MintPhase::Ended
        },
        plan.phase != MintPhase::Creation ==> {
            &&& plan.step(tokens, MintEventView::TokenCreated(addr)).1 is Stopped
            &&& plan.step(tokens, MintEventView::TokenCreated(addr)).0.phase == MintPhase::Ended
            &&& plan.learned(tokens, MintEventView::TokenCreated(addr)) == tokens
        },
        plan.learned(tokens, MintEventView::Begin) == tokens,
        plan.learned(tokens, MintEventView::Minted) == tokens,
{
}

/// Actions and events are seen with all that they have.
pub proof fn law_actions_are_seen_whole(
    request: TokenRequest,
    call: TokenCall,
    addrs: Vec<String>,
    addr: String,
    calls: Seq<TokenCallView>,
)
    ensures
        MintAction::CreateToken(request)@ == MintActionView::CreateToken(request@),
        MintAction::Mint(call)@ == MintActionView::Mint(call@),
        MintAction::Done(addrs)@ is Done,
        MintAction::Done(addrs)@->Done_0.len() == addrs.len(),
        forall|i: int|
            0 <= i < addrs.len() ==> #[trigger] MintAction::Done(addrs)@->Done_0[i] == addrs@[i]@,
        MintAction::Stopped@ is Stopped,
        MintEvent::Begin@ is Begin,
        MintEvent::TokenCreated(addr)@ == MintEventView::TokenCreated(addr@),
        MintEvent::Minted@ is Minted,
        MintEvent::Failed@ is Failed,
        minted(calls).len() == calls.len(),
        forall|i: int|
            0 <= i < calls.len() ==> #[trigger] minted(calls)[i] == MintActionView::Mint(calls[i]),
{
}

/// A plan is played step by step: what was asked for comes first, then what the step asks for that
/// follows on its success, with what was learned from it; where nothing was asked for, it is over.
pub proof fn law_plans_are_played_step_by_step(
    plan: PlanView,
    request: TokenRequestView,
    call: TokenCallView,
    addrs: Seq<Seq<char>>,
    tokens: TokensView,
    place: spec_fn(Seq<char>) -> Seq<char>,
)
    ensures
        ({
            let event = MintEventView::TokenCreated(place(plan.todo[0].token));
            let (next, asked) = plan.step(tokens, event);
            let more = played(next, asked, plan.learned(tokens, event), place);
            let whole = played(plan, MintActionView::CreateToken(request), tokens, place);
            &&& whole.0 == seq![MintActionView::CreateToken(request)] + more.0
            &&& whole.1 == more.1
        }),
        ({
            let (next, asked) = plan.step(tokens, MintEventView::Minted);
            let more = played(next, asked, tokens, place);
            let whole = played(plan, MintActionView::Mint(call), tokens, place);
            &&& whole.0 == seq![MintActionView::Mint(call)] + more.0
            &&& whole.1 == more.1
        }),
        played(plan, MintActionView::Done(addrs), tokens, place) == (
            seq![MintActionView::Done(addrs)],
            tokens,
        ),
{
}

} // verus!
