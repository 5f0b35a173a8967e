//! Coins, times, blocks and what a transaction answers.
use vstd::prelude::*;

verus! {

pub const NANOS_PER_SECOND: u64 = 1_000_000_000;

/// An amount of one kind of coin.
#[derive(Clone, Debug, PartialEq, Eq)]
pub struct Coin {
    pub denom: String,
    pub amount: u128,
}

#[verifier::ext_equal]
pub struct CoinView {
    pub denom: Seq<char>,
    pub amount: u128,
}

impl View for Coin {
    type V = CoinView;

    open spec fn view(&self) -> CoinView {
        CoinView { denom: self.denom@, amount: self.amount }
    }
}

pub open spec fn coins_view(s: Seq<Coin>) -> Seq<CoinView> {
    s.map_values(|c: Coin| c@)
}

impl Coin {
    pub fn copy(&self) -> (r: Self)
        ensures
            r@ == self@,
            r.denom@ == self.denom@,
            r.amount == self.amount,
    {
        Coin { denom: self.denom.clone(), amount: self.amount }
    }
}

/// A copy of a list of coins.
pub fn copy_coins(s: &[Coin]) -> (r: Vec<Coin>)
    ensures
        coins_view(r@) == coins_view(s@),
        r.len() == s.len(),
        forall|i: int|
            0 <= i < s.len() ==> (#[trigger] r@[i]).denom@ == s@[i].denom@ && r@[i].amount
                == s@[i].amount,
{
    let mut out: Vec<Coin> = Vec::new();
    let mut i: usize = 0;
    while i < s.len()
        invariant
            i <= s.len(),
            out.len() == i,
            forall|j: int| 0 <= j < i ==> (#[trigger] out@[j])@ == s@[j]@,
            forall|j: int|
                0 <= j < i ==> (#[trigger] out@[j]).denom@ == s@[j].denom@ && out@[j].amount
                    == s@[j].amount,
        decreases s.len() - i,
    {
        out.push(s[i].copy());
        i += 1;
    }
    assert(coins_view(out@) =~= coins_view(s@));
    out
}

/// A list of one coin.
pub fn coins(amount: u128, denom: &str) -> (r: Vec<Coin>)
    ensures
        coins_view(r@) == seq![CoinView { denom: denom@, amount }],
        r.len() == 1,
        r[0].denom@ == denom@,
        r[0].amount == amount,
{
    let mut out: Vec<Coin> = Vec::new();
    out.push(Coin { denom: denom.to_owned(), amount });
    assert(coins_view(out@) =~= seq![CoinView { denom: denom@, amount }]);
    out
}

/// A point in time, in nanoseconds since the start of 1970.
#[derive(Clone, Copy, Debug, PartialEq, Eq, Structural)]
pub struct Timestamp {
    pub nanos: u64,
}

impl Timestamp {
    pub fn from_seconds(seconds: u64) -> (r: Self)
        requires
            seconds * NANOS_PER_SECOND <= u64::MAX,
        ensures
            r.nanos == seconds * NANOS_PER_SECOND,
    {
        Timestamp { nanos: seconds * NANOS_PER_SECOND }
    }

    pub fn plus_seconds(&self, seconds: u64) -> (r: Self)
        requires
            self.nanos + seconds * NANOS_PER_SECOND <= u64::MAX,
        ensures
            r.nanos == self.nanos + seconds * NANOS_PER_SECOND,
    {
        Timestamp { nanos: self.nanos + seconds * NANOS_PER_SECOND }
    }

    /// The whole seconds since the start of 1970.
    pub fn seconds(&self) -> (r: u64)
        ensures
            r == self.nanos / NANOS_PER_SECOND,
    {
        self.nanos / NANOS_PER_SECOND
    }
}

/// The seconds from one block to the next.
pub const BLOCK_SECONDS: u64 = 5;

/// The block in which a transaction runs.
#[derive(Clone, Debug, PartialEq, Eq)]
pub struct BlockInfo {
    pub height: u64,
    pub time: Timestamp,
    pub chain_id: String,
}

#[verifier::ext_equal]
pub struct BlockView {
    pub height: int,
    pub nanos: int,
    pub chain_id: Seq<char>,
}

impl BlockView {
    /// The height and the time fit in their fields.
    pub open spec fn fits(self) -> bool {
        0 <= self.height <= u64::MAX && 0 <= self.nanos <= u64::MAX
    }

    /// The block after `seconds` have passed.
    pub open spec fn after(self, seconds: int) -> BlockView {
        BlockView {
            height: self.height + 1,
            nanos: self.nanos + seconds * NANOS_PER_SECOND,
            chain_id: self.chain_id,
        }
    }

    /// The block that follows.
    pub open spec fn next(self) -> BlockView {
        self.after(BLOCK_SECONDS as int)
    }

    /// The block that follows, at a time of its own.
    pub open spec fn at_seconds(self, seconds: int) -> BlockView {
        BlockView {
            height: self.height + 1,
            nanos: seconds * NANOS_PER_SECOND,
            chain_id: self.chain_id,
        }
    }

    /// The block that follows, on a chain of another name.
    pub open spec fn on_chain(self, chain_id: Seq<char>) -> BlockView {
        BlockView { height: self.height + 1, nanos: self.nanos, chain_id }
    }
}

impl View for BlockInfo {
    type V = BlockView;

    open spec fn view(&self) -> BlockView {
        BlockView {
            height: self.height as int,
            nanos: self.time.nanos as int,
            chain_id: self.chain_id@,
        }
    }
}

impl BlockInfo {
    pub fn copy(&self) -> (r: Self)
        ensures
            r@ == self@,
            r.height == self.height,
            r.time == self.time,
            r.chain_id@ == self.chain_id@,
    {
        BlockInfo { height: self.height, time: self.time, chain_id: self.chain_id.clone() }
    }

    /// Whether there is room for the block after `seconds`.
    pub fn has_room(&self, seconds: u64) -> (r: bool)
        ensures
            r == self@.after(seconds as int).fits(),
    {
        let room: u64 = u64::MAX - self.time.nanos;
        proof {
            let k = room as int / NANOS_PER_SECOND as int;
            if seconds <= k {
                assert(seconds * NANOS_PER_SECOND <= k * NANOS_PER_SECOND);
            } else {
                assert(seconds * NANOS_PER_SECOND >= (k + 1) * NANOS_PER_SECOND);
            }
        }
        self.height < u64::MAX && seconds <= room / NANOS_PER_SECOND
    }
}

/// The blocks that follow a block are higher by one, whatever else about them changes; and a
/// block that follows by the passing of time is not earlier.
pub proof fn law_blocks_only_rise(b: BlockView, seconds: nat, chain_id: Seq<char>)
    ensures
        b.next().height == b.height + 1,
        b.after(seconds as int).height == b.height + 1,
        b.at_seconds(seconds as int).height == b.height + 1,
        b.on_chain(chain_id).height == b.height + 1,
        b.next().nanos > b.nanos,
        b.after(seconds as int).nanos >= b.nanos,
{
}

/// A key and a value that an event carries.
#[derive(Clone, Debug, PartialEq, Eq)]
pub struct Attribute {
    pub key: String,
    pub value: String,
}

/// Something that happened in a transaction.
#[derive(Clone, Debug, PartialEq, Eq)]
pub struct Event {
    pub ty: String,
    pub attributes: Vec<Attribute>,
}

/// The gas of a transaction.
#[derive(Clone, Copy, Debug, PartialEq, Eq, Structural)]
pub struct TxGas {
    pub gas_wanted: u64,
    pub gas_used: u64,
}

/// What a transaction answers.
#[derive(Clone, Debug, PartialEq, Eq)]
pub struct AppResponse {
    pub events: Vec<Event>,
    pub data: Option<Vec<u8>>,
}

/// What the execution of a contract answers.
#[derive(Clone, Debug, PartialEq, Eq)]
pub struct ExecuteResponse {
    /// Response events.
    pub events: Vec<Event>,
    /// Response data.
    pub data: Option<Vec<u8>>,
    pub gas_info: TxGas,
}

impl Default for ExecuteResponse {
    fn default() -> (r: Self)
        ensures
            r.events@ == Seq::<Event>::empty(),
            r.data == None::<Vec<u8>>,
            r.gas_info == (TxGas { gas_wanted: 0, gas_used: 0 }),
    {
        ExecuteResponse {
            events: Vec::new(),
            data: None,
            gas_info: TxGas { gas_wanted: 0, gas_used: 0 },
        }
    }
}

/// The same events and data, with no gas counted.
impl From<AppResponse> for ExecuteResponse {
    fn from(res: AppResponse) -> (r: Self) {
        ExecuteResponse {
            events: res.events,
            data: res.data,
            gas_info: TxGas { gas_wanted: 0, gas_used: 0 },
        }
    }
}

impl vstd::std_specs::convert::FromSpecImpl<AppResponse> for ExecuteResponse {
    open spec fn obeys_from_spec() -> bool {
        true
    }

    open spec fn from_spec(res: AppResponse) -> Self {
        ExecuteResponse {
            events: res.events,
            data: res.data,
            gas_info: TxGas { gas_wanted: 0, gas_used: 0 },
        }
    }
}

/// A block whose time is set has that time, whatever it was before: so many seconds, each of
/// 1_000_000_000 nanoseconds. The name of the chain stays.
pub proof fn law_set_time_is_the_time(b: BlockView, other: BlockView, seconds: int)
    ensures
        b.at_seconds(seconds).nanos == seconds * 1_000_000_000,
        b.at_seconds(seconds).nanos == other.at_seconds(seconds).nanos,
        b.at_seconds(seconds).height == b.height + 1,
        b.at_seconds(seconds).chain_id == b.chain_id,
{
}

/// Time that passes is added, of which five seconds for the block that follows; and what passes in
/// two steps is what passes in one, but for the block in between. The name of the chain stays.
pub proof fn law_passing_time_adds_up(b: BlockView, first: int, second: int)
    ensures
        b.after(first).nanos - b.nanos == first * 1_000_000_000,
        b.after(first).after(second).nanos == b.after(first + second).nanos,
        b.after(first).after(second).height == b.height + 2,
        b.after(first).chain_id == b.chain_id,
        b.next().nanos - b.nanos == 5_000_000_000,
        b.next().height == b.height + 1,
        b.next().chain_id == b.chain_id,
{
    assert(NANOS_PER_SECOND == 1_000_000_000);
}

/// A chain that is renamed has the new name, and its time stays.
pub proof fn law_set_name_is_the_name(b: BlockView, chain_id: Seq<char>)
    ensures
        b.on_chain(chain_id).chain_id == chain_id,
        b.on_chain(chain_id).nanos == b.nanos,
        b.on_chain(chain_id).height == b.height + 1,
{
}

/// A block fits exactly where height and time are from 0 to 18446744073709551615.
pub proof fn law_blocks_that_fit(b: BlockView)
    ensures
        b.fits() <==> 0 <= b.height <= 18446744073709551615 && 0 <= b.nanos
            <= 18446744073709551615,
{
}

/// Coins and blocks are seen with all that they have.
pub proof fn law_coins_and_blocks_are_seen_whole(c: Coin, s: Seq<Coin>, b: BlockInfo)
    ensures
        c@.denom == c.denom@,
        c@.amount == c.amount,
        coins_view(s).len() == s.len(),
        forall|i: int|
            0 <= i < s.len() ==> (#[trigger] coins_view(s)[i]).denom == s[i].denom@ && coins_view(
                s,
            )[i].amount == s[i].amount,
        b@.height == b.height,
        b@.nanos == b.time.nanos,
        b@.chain_id == b.chain_id@,
        NANOS_PER_SECOND == 1_000_000_000,
        BLOCK_SECONDS == 5,
{
}

/// The answer of an execution has the events and the data of the transaction, and no gas.
pub proof fn law_answers_keep_events_and_data(res: AppResponse)
    ensures
        ({
            let r = <ExecuteResponse as vstd::std_specs::convert::FromSpec<AppResponse>>::from_spec(
                res,
            );
            &&& r.events == res.events
            &&& r.data == res.data
            &&& r.gas_info.gas_wanted == 0
            &&& r.gas_info.gas_used == 0
        }),
{
}

} // verus!
