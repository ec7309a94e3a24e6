//! A block that asks for an order at the best price of the book when that
//! price is good enough.
use vstd::prelude::*;

use crate::block_spec::{BlockInput, BlockOutput, BlockSpec, BlockSpecAssociatedTypes};
use crate::channel_keys;
use crate::channel_keys::{agree_on, bool_channel, read_bool, ChannelKeys, Reader, Writer};
use crate::effects::Effect;
use crate::errors::RegistryError;
use crate::execution::{
    ContractDeps, EffectConsumerTrait, ExecutionContext, ExecutionContextTrait, OrderBookTrait,
};
use crate::intents::{BlockIntents, Intent, OneIntent};
use crate::registry::{is_read_result, ChannelRegistry, ChannelValue};
use crate::trade_types::{Contract, Price, Quantity, Side};

verus! {

/// Whether to look at the book.
#[derive(Debug, Clone, Copy, PartialEq, Eq, Structural)]
pub struct Input {
    pub should_execute: bool,
}

/// The block writes nothing.
#[derive(Debug, Clone, Copy, PartialEq, Eq, Structural)]
pub struct Output;

/// The block keeps no state.
#[derive(Debug, Clone, Copy, PartialEq, Eq, Structural)]
pub struct State;

impl Default for Output {
    fn default() -> (r: Output)
        ensures
            r == Output,
    {
        Output
    }
}

impl Default for State {
    fn default() -> (r: State)
        ensures
            r == State,
    {
        State
    }
}

/// The contract, side and quantity of the order, and the worst price to
/// accept.
#[derive(Debug, PartialEq, Eq)]
pub struct InitParams {
    pub contract: Contract,
    pub side: Side,
    pub quantity: Quantity,
    pub threshold: Price,
}

impl Clone for InitParams {
    fn clone(&self) -> (r: Self)
        ensures
            r == *self,
    {
        InitParams {
            contract: self.contract.clone(),
            side: self.side,
            quantity: self.quantity,
            threshold: self.threshold,
        }
    }
}

/// The channel the input is read from.
#[derive(Debug, PartialEq, Eq)]
pub struct InputKeys {
    pub should_execute: String,
}

impl Clone for InputKeys {
    fn clone(&self) -> (r: Self)
        ensures
            r == *self,
    {
        InputKeys { should_execute: self.should_execute.clone() }
    }
}

/// No output channels.
#[derive(Debug, Clone, Copy, PartialEq, Eq, Structural)]
pub struct OutputKeys;

/// Reads the input from its channel.
pub struct InputReader {
    pub should_execute: String,
}

/// Writes the (empty) output.
pub struct OutputWriter;

impl ChannelKeys for InputKeys {
    open spec fn channel_names_spec(&self) -> Seq<Seq<char>> {
        seq![self.should_execute@]
    }

    fn channel_names(&self) -> (r: Vec<String>) {
        let mut r: Vec<String> = Vec::new();
        r.push(self.should_execute.clone());
        proof {
            assert(crate::weave::names_view(r@) =~= seq![self.should_execute@]);
        }
        r
    }
}

impl ChannelKeys for OutputKeys {
    open spec fn channel_names_spec(&self) -> Seq<Seq<char>> {
        Seq::empty()
    }

    fn channel_names(&self) -> (r: Vec<String>) {
        let r: Vec<String> = Vec::new();
        proof {
            assert(crate::weave::names_view(r@) =~= Seq::<Seq<char>>::empty());
        }
        r
    }
}

impl Reader<Input> for InputReader {
    open spec fn read_spec(&self, channels: Map<Seq<char>, ChannelValue>) -> Option<Input> {
        match bool_channel(channels, self.should_execute@) {
            Some(b) => Some(Input { should_execute: b }),
            None => None,
        }
    }

    fn read(&self, registry: &ChannelRegistry) -> (r: Option<Input>) {
        match read_bool(registry, self.should_execute.as_str()) {
            Some(b) => Some(Input { should_execute: b }),
            None => None,
        }
    }
}

impl Writer<Output> for OutputWriter {
    open spec fn write_spec(&self, channels: Map<Seq<char>, ChannelValue>, value: Output) -> Map<
        Seq<char>,
        ChannelValue,
    > {
        channels
    }

    fn write(&self, registry: &mut ChannelRegistry, value: &Output) {
    }
}

impl channel_keys::InputKeys<Input> for InputKeys {
    type ReaderType = InputReader;

    open spec fn reader_fails_with(
        &self,
        channels: Map<Seq<char>, ChannelValue>,
        e: RegistryError,
    ) -> bool {
        is_read_result::<bool>(channels, self.should_execute@, Err(e))
    }

    open spec fn reader_ok(&self, channels: Map<Seq<char>, ChannelValue>) -> bool {
        bool_channel(channels, self.should_execute@) is Some
    }

    /// Fails where the input channel is missing or does not hold a `bool`.
    fn reader(&self, registry: &ChannelRegistry) -> (r: Result<InputReader, RegistryError>)
        ensures
            r is Ok <==> bool_channel(registry@, self.should_execute@) is Some,
            r matches Ok(rd) ==> rd.should_execute@ == self.should_execute@,
    {
        registry.get::<bool>(self.should_execute.as_str())?;
        Ok(InputReader { should_execute: self.should_execute.clone() })
    }
}

impl channel_keys::OutputKeys<Output> for OutputKeys {
    type WriterType = OutputWriter;

    open spec fn writer_fails_with(
        &self,
        channels: Map<Seq<char>, ChannelValue>,
        e: RegistryError,
    ) -> bool {
        false
    }

    open spec fn writer_ok(&self, channels: Map<Seq<char>, ChannelValue>) -> bool {
        true
    }

    open spec fn register_ok(&self, channels: Map<Seq<char>, ChannelValue>) -> bool {
        true
    }

    open spec fn registered(&self, channels: Map<Seq<char>, ChannelValue>) -> Map<
        Seq<char>,
        ChannelValue,
    > {
        channels
    }

    fn writer(&self, registry: &ChannelRegistry) -> (r: Result<OutputWriter, RegistryError>)
        ensures
            r is Ok,
    {
        Ok(OutputWriter)
    }

    fn register(&self, registry: &mut ChannelRegistry) -> (r: Result<(), RegistryError>)
        ensures
            r is Ok,
            final(registry)@ == old(registry)@,
    {
        Ok(())
    }
}

impl BlockInput for Input {
    type Keys = InputKeys;
}

impl BlockOutput for Output {
    type Keys = OutputKeys;
}

impl ContractDeps for InitParams {
    open spec fn contract_deps_spec(&self) -> Seq<Seq<char>> {
        seq![self.contract@]
    }

    fn contract_deps(&self) -> (r: Vec<Contract>) {
        let mut r: Vec<Contract> = Vec::new();
        r.push(self.contract.clone());
        proof {
            assert(crate::execution::contract_names(r@) =~= seq![self.contract@]);
        }
        r
    }
}

/// Takes the best price on the other side of the book when it is at or
/// better than the threshold: at most the threshold when buying, at least
/// the threshold when selling.
#[derive(Debug)]
pub struct SniperBlock {
    block_id: u32,
    contract: Contract,
    side: Side,
    quantity: Quantity,
    threshold: Price,
}

/// The intent for a sniper on `side` with the given threshold, given the best
/// price `top` on the other side of the book and the intent to place at a
/// price.
pub open spec fn snipe_intent(
    side: Side,
    threshold: Price,
    top: Option<Price>,
    place: spec_fn(Price) -> Intent,
) -> Intent {
    match top {
        Some(p) => if (side == Side::Buy && p.cents <= threshold.cents) || (side == Side::Sell
            && p.cents >= threshold.cents) {
            place(p)
        } else {
            Intent::NoIntent
        },
        None => Intent::NoIntent,
    }
}

impl SniperBlock {
    /// The intent to place the block's order at `price`.
    pub closed spec fn order_at(&self, price: Price) -> Intent {
        Intent::Place {
            contract: self.contract,
            side: self.side,
            price,
            quantity: self.quantity,
        }
    }

    /// The side the block trades on.
    pub closed spec fn side_spec(&self) -> Side {
        self.side
    }

    /// The worst price the block accepts.
    pub closed spec fn threshold_spec(&self) -> Price {
        self.threshold
    }

    /// The intent of the block for the best price `top` on the other side.
    pub open spec fn snipe_spec(&self, top: Option<Price>) -> Intent {
        snipe_intent(self.side_spec(), self.threshold_spec(), top, |p: Price| self.order_at(p))
    }

    /// The intent to place the block's order at `price`.
    fn place_intent(&self, price: Price) -> (r: Intent)
        ensures
            r == self.order_at(price),
    {
        Intent::Place {
            contract: self.contract.clone(),
            side: self.side,
            price: price,
            quantity: self.quantity,
        }
    }

    /// Buys at the best sell price when it is at most the threshold.
    fn snipe_buy<OB: OrderBookTrait>(&self, order_book: &OB) -> (r: Intent)
        ensures
            r == (match order_book.top_of_side_spec(Side::Sell) {
                Some(p) => if p.cents <= self.threshold_spec().cents {
                    self.order_at(p)
                } else {
                    Intent::NoIntent
                },
                None => Intent::NoIntent,
            }),
    {
        match order_book.top_of_side(Side::Sell) {
            Some(top_price) => {
                if top_price.cents <= self.threshold.cents {
                    return self.place_intent(top_price);
                }
            },
            None => {},
        }
        Intent::NoIntent
    }

    /// Sells at the best buy price when it is at least the threshold.
    fn snipe_sell<OB: OrderBookTrait>(&self, order_book: &OB) -> (r: Intent)
        ensures
            r == (match order_book.top_of_side_spec(Side::Buy) {
                Some(p) => if p.cents >= self.threshold_spec().cents {
                    self.order_at(p)
                } else {
                    Intent::NoIntent
                },
                None => Intent::NoIntent,
            }),
    {
        match order_book.top_of_side(Side::Buy) {
            Some(top_price) => {
                if top_price.cents >= self.threshold.cents {
                    return self.place_intent(top_price);
                }
            },
            None => {},
        }
        Intent::NoIntent
    }

    /// The best price on the side a snipe of this block trades against: the
    /// sell side for a buyer, the buy side for a seller.
    pub open spec fn opposite_top<OB: OrderBookTrait>(&self, book: OB) -> Option<Price> {
        match self.side_spec() {
            Side::Buy => book.top_of_side_spec(Side::Sell),
            Side::Sell => book.top_of_side_spec(Side::Buy),
        }
    }

    /// The contract the block trades.
    pub closed spec fn contract_spec(&self) -> Contract {
        self.contract
    }

    /// The block's intent against the book of its contract: where `execute`
    /// is set, the snipe for the block's side; no order otherwise. `None`
    /// where the context has no book for the contract.
    pub fn intents<C: ExecutionContextTrait>(&self, ctx: &C, execute: bool) -> (r: Option<OneIntent>)
        ensures
            r is Some <==> ctx.order_book_spec(self.contract_spec()) is Some,
            r matches Some(i) ==> i.intents_spec() == seq![
                if execute {
                    self.snipe_spec(self.opposite_top(ctx.order_book_spec(self.contract_spec())->0))
                } else {
                    Intent::NoIntent
                },
            ],
    {
        let order_book = match ctx.get_order_book(&self.contract) {
            Some(b) => b,
            None => {
                return None;
            },
        };
        let intent = if execute {
            match self.side {
                Side::Buy => self.snipe_buy(&order_book),
                Side::Sell => self.snipe_sell(&order_book),
            }
        } else {
            Intent::NoIntent
        };
        let r = OneIntent::new([intent]);
        proof {
            assert(r.intents_spec() =~= seq![
                if execute {
                    self.snipe_spec(self.opposite_top(order_book))
                } else {
                    Intent::NoIntent
                },
            ]);
        }
        Some(r)
    }
}

impl BlockSpecAssociatedTypes for SniperBlock {
    type Input = Input;
    type Output = Output;
    type State = State;
    type InitParameters = InitParams;
    type Intents = OneIntent;
}

impl ContractDeps for SniperBlock {
    closed spec fn contract_deps_spec(&self) -> Seq<Seq<char>> {
        seq![self.contract@]
    }

    fn contract_deps(&self) -> (r: Vec<Contract>) {
        let mut r: Vec<Contract> = Vec::new();
        r.push(self.contract.clone());
        proof {
            assert(crate::execution::contract_names(r@) =~= seq![self.contract@]);
        }
        r
    }
}

impl BlockSpec for SniperBlock {
    closed spec fn block_id_spec(&self) -> u32 {
        self.block_id
    }

    open spec fn init_state_spec(&self) -> State {
        State
    }

    fn block_id(&self) -> (r: u32) {
        self.block_id
    }

    fn init_state(&self) -> (r: State) {
        State
    }

    /// A block with ID 0 for the order described by the parameters.
    fn new_from_init_params(params: &InitParams) -> (r: SniperBlock)
        ensures
            r.block_id_spec() == 0,
            r.side_spec() == params.side,
            r.threshold_spec() == params.threshold,
            forall|p: Price|
                #[trigger] r.order_at(p) == (Intent::Place {
                    contract: params.contract,
                    side: params.side,
                    price: p,
                    quantity: params.quantity,
                }),
            r.contract_deps_spec() == seq![params.contract@],
    {
        SniperBlock {
            block_id: 0,
            contract: params.contract.clone(),
            side: params.side,
            quantity: params.quantity,
            threshold: params.threshold,
        }
    }

    open spec fn execute_ok(
        &self,
        context: ExecutionContext,
        input: Input,
        state: State,
        accepts: spec_fn(Effect) -> bool,
    ) -> bool {
        true
    }

    open spec fn steps_to(
        &self,
        context: ExecutionContext,
        input: Input,
        state: State,
        accepts: spec_fn(Effect) -> bool,
        out: Option<(Output, State, OneIntent)>,
    ) -> bool {
        out matches Some((o, s, i)) && o == Output && s == State && i.intents_spec() == seq![
            if input.should_execute {
                self.snipe_spec(Some(Price { cents: 100 }))
            } else {
                Intent::NoIntent
            },
        ]
    }

    /// Asks, in its one slot, for the snipe against the book of its contract
    /// where `should_execute` is set and for no order otherwise; schedules no
    /// effect.
    fn execute<E: EffectConsumerTrait>(
        &self,
        context: &ExecutionContext,
        input: Input,
        state: &State,
        effects: &mut E,
    ) -> (r: Option<(Output, State, OneIntent)>)
        ensures
            r matches Some((o, s, i)) && o == Output && s == State && i.intents_spec() == seq![
                if input.should_execute {
                    self.snipe_spec(
                        Some(
                            Price { cents: 100 },
                        ),
                    )
                } else {
                    Intent::NoIntent
                },
            ],
            *final(effects) == *old(effects),
    {
        match self.intents(context, input.should_execute) {
            Some(i) => Some((Output, State, i)),
            None => None,
        }
    }
}

/// The sniper block's channels: its input keys name one channel, its
/// `should_execute` field's; reading the input gives the `bool` that channel holds
/// and nothing where the channel is missing or holds another type; a reader
/// can be made exactly where reading succeeds; the reader reads no other
/// channel; and the output, which has no fields, names and writes no channel.
pub proof fn lemma_sniper_channels(
    keys: InputKeys,
    rd: InputReader,
    w: OutputWriter,
    m: Map<Seq<char>, ChannelValue>,
    m2: Map<Seq<char>, ChannelValue>,
    o: Output,
)
    requires
        rd.should_execute@ == keys.should_execute@,
    ensures
        keys.channel_names_spec() == seq![keys.should_execute@],
        OutputKeys.channel_names_spec() == Seq::<Seq<char>>::empty(),
        forall|b: bool|
            m.contains_key(keys.should_execute@) && m[keys.should_execute@] == ChannelValue::Bool(b)
                ==> rd.read_spec(m) == Some(Input { should_execute: b }),
        !(m.contains_key(keys.should_execute@) && m[keys.should_execute@] is Bool) ==> rd.read_spec(m) is None,
        channel_keys::InputKeys::<Input>::reader_ok(&keys, m) <==> rd.read_spec(m) is Some,
        agree_on(m, m2, keys.channel_names_spec()) ==> rd.read_spec(m) == rd.read_spec(m2),
        w.write_spec(m, o) == m,
{
    if agree_on(m, m2, keys.channel_names_spec()) {
        assert(keys.channel_names_spec().contains(keys.should_execute@)) by {
            assert(keys.channel_names_spec()[0] == keys.should_execute@);
        }
    }
}

/// The sniper takes the best price on the other side of the book only when it
/// is within its threshold: for a block that places `contract`, `side` and
/// `quantity` at a price (as `new_from_init_params` makes it), a snipe
/// against the top price `top` places exactly that at `top` where a buyer's
/// `top` is at most the threshold or a seller's at least the threshold, and
/// asks for no order otherwise or where the book side is empty. A step asks
/// for the snipe against the book in its one slot where `should_execute` is
/// set, and for no order otherwise.
pub proof fn lemma_sniper_snipes(
    b: SniperBlock,
    top: Option<Price>,
    contract: Contract,
    side: Side,
    quantity: Quantity,
    ctx: ExecutionContext,
    input: Input,
    state: State,
    accepts: spec_fn(Effect) -> bool,
    out: Option<(Output, State, OneIntent)>,
)
    requires
        b.side_spec() == side,
        forall|p: Price|
            #[trigger] b.order_at(p) == (Intent::Place { contract, side, price: p, quantity }),
        b.steps_to(ctx, input, state, accepts, out),
    ensures
        top is None ==> b.snipe_spec(top) == Intent::NoIntent,
        forall|p: Price|
            top == Some(p) && (side == Side::Buy && p.cents <= b.threshold_spec().cents || side
                == Side::Sell && p.cents >= b.threshold_spec().cents) ==> b.snipe_spec(top) == (
            Intent::Place { contract, side, price: p, quantity }),
        forall|p: Price|
            top == Some(p) && !(side == Side::Buy && p.cents <= b.threshold_spec().cents || side
                == Side::Sell && p.cents >= b.threshold_spec().cents) ==> b.snipe_spec(top)
                == Intent::NoIntent,
        out matches Some((o, s, i)) && s == state && i.intents_spec().len() == 1,
        !input.should_execute ==> (out->0).2.intents_spec()[0] == Intent::NoIntent,
{
    match top {
        Some(p) => {
            assert(b.order_at(p) == (Intent::Place { contract, side, price: p, quantity }));
        },
        None => {},
    }
}

} // verus!
