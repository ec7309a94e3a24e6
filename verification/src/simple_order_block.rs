//! A block that asks for one fixed order when its input says so.
use vstd::prelude::*;

use crate::block_spec::{BlockInput, BlockOutput, BlockSpec, BlockSpecAssociatedTypes};
use crate::channel_keys;
use crate::channel_keys::{agree_on, bool_channel, read_bool, ChannelKeys, Reader, Writer};
use crate::effects::Effect;
use crate::errors::RegistryError;
use crate::execution::{ContractDeps, EffectConsumerTrait, ExecutionContext};
use crate::intents::{BlockIntents, Intent, OneIntent};
use crate::registry::{is_read_result, ChannelRegistry, ChannelValue};
use crate::trade_types::{Contract, Price, Quantity, Side};

verus! {

/// Whether to place the order.
#[derive(Debug, Clone, Copy, PartialEq, Eq, Structural)]
pub struct Input {
    pub should_execute: bool,
}

/// The block writes nothing.
#[derive(Debug, Clone, Copy, PartialEq, Eq, Structural)]
pub struct Output;

/// The block keeps no state.
#[derive(Debug, Clone, Copy, PartialEq, Eq, Structural)]
pub struct State;

impl Default for Output {
    fn default() -> (r: Output)
        ensures
            r == Output,
    {
        Output
    }
}

impl Default for State {
    fn default() -> (r: State)
        ensures
            r == State,
    {
        State
    }
}

/// The order to place.
#[derive(Debug, PartialEq, Eq)]
pub struct InitParams {
    pub contract: Contract,
    pub side: Side,
    pub price: Price,
    pub quantity: Quantity,
}

impl Clone for InitParams {
    fn clone(&self) -> (r: Self)
        ensures
            r == *self,
    {
        InitParams {
            contract: self.contract.clone(),
            side: self.side,
            price: self.price,
            quantity: self.quantity,
        }
    }
}

/// The channel the input is read from.
#[derive(Debug, PartialEq, Eq)]
pub struct InputKeys {
    pub should_execute: String,
}

impl Clone for InputKeys {
    fn clone(&self) -> (r: Self)
        ensures
            r == *self,
    {
        InputKeys { should_execute: self.should_execute.clone() }
    }
}

/// No output channels.
#[derive(Debug, Clone, Copy, PartialEq, Eq, Structural)]
pub struct OutputKeys;

/// Reads the input from its channel.
pub struct InputReader {
    pub should_execute: String,
}

/// Writes the (empty) output.
pub struct OutputWriter;

impl ChannelKeys for InputKeys {
    open spec fn channel_names_spec(&self) -> Seq<Seq<char>> {
        seq![self.should_execute@]
    }

    fn channel_names(&self) -> (r: Vec<String>) {
        let mut r: Vec<String> = Vec::new();
        r.push(self.should_execute.clone());
        proof {
            assert(crate::weave::names_view(r@) =~= seq![self.should_execute@]);
        }
        r
    }
}

impl ChannelKeys for OutputKeys {
    open spec fn channel_names_spec(&self) -> Seq<Seq<char>> {
        Seq::empty()
    }

    fn channel_names(&self) -> (r: Vec<String>) {
        let r: Vec<String> = Vec::new();
        proof {
            assert(crate::weave::names_view(r@) =~= Seq::<Seq<char>>::empty());
        }
        r
    }
}

impl Reader<Input> for InputReader {
    open spec fn read_spec(&self, channels: Map<Seq<char>, ChannelValue>) -> Option<Input> {
        match bool_channel(channels, self.should_execute@) {
            Some(b) => Some(Input { should_execute: b }),
            None => None,
        }
    }

    fn read(&self, registry: &ChannelRegistry) -> (r: Option<Input>) {
        match read_bool(registry, self.should_execute.as_str()) {
            Some(b) => Some(Input { should_execute: b }),
            None => None,
        }
    }
}

impl Writer<Output> for OutputWriter {
    open spec fn write_spec(&self, channels: Map<Seq<char>, ChannelValue>, value: Output) -> Map<
        Seq<char>,
        ChannelValue,
    > {
        channels
    }

    fn write(&self, registry: &mut ChannelRegistry, value: &Output) {
    }
}

impl channel_keys::InputKeys<Input> for InputKeys {
    type ReaderType = InputReader;

    open spec fn reader_fails_with(
        &self,
        channels: Map<Seq<char>, ChannelValue>,
        e: RegistryError,
    ) -> bool {
        is_read_result::<bool>(channels, self.should_execute@, Err(e))
    }

    open spec fn reader_ok(&self, channels: Map<Seq<char>, ChannelValue>) -> bool {
        bool_channel(channels, self.should_execute@) is Some
    }

    /// Fails where the input channel is missing or does not hold a `bool`.
    fn reader(&self, registry: &ChannelRegistry) -> (r: Result<InputReader, RegistryError>)
        ensures
            r is Ok <==> bool_channel(registry@, self.should_execute@) is Some,
            r matches Ok(rd) ==> rd.should_execute@ == self.should_execute@,
    {
        registry.get::<bool>(self.should_execute.as_str())?;
        Ok(InputReader { should_execute: self.should_execute.clone() })
    }
}

impl channel_keys::OutputKeys<Output> for OutputKeys {
    type WriterType = OutputWriter;

    open spec fn writer_fails_with(
        &self,
        channels: Map<Seq<char>, ChannelValue>,
        e: RegistryError,
    ) -> bool {
        false
    }

    open spec fn writer_ok(&self, channels: Map<Seq<char>, ChannelValue>) -> bool {
        true
    }

    open spec fn register_ok(&self, channels: Map<Seq<char>, ChannelValue>) -> bool {
        true
    }

    open spec fn registered(&self, channels: Map<Seq<char>, ChannelValue>) -> Map<
        Seq<char>,
        ChannelValue,
    > {
        channels
    }

    fn writer(&self, registry: &ChannelRegistry) -> (r: Result<OutputWriter, RegistryError>)
        ensures
            r is Ok,
    {
        Ok(OutputWriter)
    }

    fn register(&self, registry: &mut ChannelRegistry) -> (r: Result<(), RegistryError>)
        ensures
            r is Ok,
            final(registry)@ == old(registry)@,
    {
        Ok(())
    }
}

impl BlockInput for Input {
    type Keys = InputKeys;
}

impl BlockOutput for Output {
    type Keys = OutputKeys;
}

impl ContractDeps for InitParams {
    open spec fn contract_deps_spec(&self) -> Seq<Seq<char>> {
        seq![self.contract@]
    }

    fn contract_deps(&self) -> (r: Vec<Contract>) {
        let mut r: Vec<Contract> = Vec::new();
        r.push(self.contract.clone());
        proof {
            assert(crate::execution::contract_names(r@) =~= seq![self.contract@]);
        }
        r
    }
}

/// Places one fixed order whenever its input says so.
#[derive(Debug)]
pub struct SimpleOrderBlock {
    pub block_id: u32,
    contract: Contract,
    side: Side,
    price: Price,
    quantity: Quantity,
}

impl SimpleOrderBlock {
    /// The intent to place the block's order.
    pub closed spec fn order_spec(&self) -> Intent {
        Intent::Place {
            contract: self.contract,
            side: self.side,
            price: self.price,
            quantity: self.quantity,
        }
    }

    /// The name of the block's contract.
    pub closed spec fn contract_spec(&self) -> Seq<char> {
        self.contract@
    }

    /// The intent to place the block's order.
    fn place_intent(&self) -> (r: Intent)
        ensures
            r == self.order_spec(),
    {
        Intent::place_intent(self.contract.clone(), self.side, self.price, self.quantity)
    }

    /// The intent to have no order.
    fn no_intent(&self) -> (r: Intent)
        ensures
            r == Intent::NoIntent,
    {
        Intent::no_intent()
    }

    /// The block's order where `execute` is set, no order otherwise.
    pub fn intents(&self, execute: bool) -> (r: OneIntent)
        ensures
            r.intents_spec() == seq![
                if execute {
                    self.order_spec()
                } else {
                    Intent::NoIntent
                },
            ],
    {
        let r = if execute {
            OneIntent::new([self.place_intent()])
        } else {
            OneIntent::new([self.no_intent()])
        };
        proof {
            assert(r.intents_spec() =~= seq![
                if execute {
                    self.order_spec()
                } else {
                    Intent::NoIntent
                },
            ]);
        }
        r
    }
}

impl BlockSpecAssociatedTypes for SimpleOrderBlock {
    type Input = Input;
    type Output = Output;
    type State = State;
    type InitParameters = InitParams;
    type Intents = OneIntent;
}

impl ContractDeps for SimpleOrderBlock {
    closed spec fn contract_deps_spec(&self) -> Seq<Seq<char>> {
        seq![self.contract@]
    }

    fn contract_deps(&self) -> (r: Vec<Contract>) {
        let mut r: Vec<Contract> = Vec::new();
        r.push(self.contract.clone());
        proof {
            assert(crate::execution::contract_names(r@) =~= seq![self.contract@]);
        }
        r
    }
}

impl BlockSpec for SimpleOrderBlock {
    closed spec fn block_id_spec(&self) -> u32 {
        self.block_id
    }

    open spec fn init_state_spec(&self) -> State {
        State
    }

    fn block_id(&self) -> (r: u32) {
        self.block_id
    }

    fn init_state(&self) -> (r: State) {
        State
    }

    /// A block with ID 0 that places the order described by the parameters.
    fn new_from_init_params(params: &InitParams) -> (r: SimpleOrderBlock)
        ensures
            r.block_id_spec() == 0,
            r.order_spec() == (Intent::Place {
                contract: params.contract,
                side: params.side,
                price: params.price,
                quantity: params.quantity,
            }),
            r.contract_deps_spec() == seq![params.contract@],
    {
        SimpleOrderBlock {
            block_id: 0,
            contract: params.contract.clone(),
            side: params.side,
            price: params.price,
            quantity: params.quantity,
        }
    }

    open spec fn execute_ok(
        &self,
        context: ExecutionContext,
        input: Input,
        state: State,
        accepts: spec_fn(Effect) -> bool,
    ) -> bool {
        true
    }

    open spec fn steps_to(
        &self,
        context: ExecutionContext,
        input: Input,
        state: State,
        accepts: spec_fn(Effect) -> bool,
        out: Option<(Output, State, OneIntent)>,
    ) -> bool {
        out matches Some((o, s, i)) && o == Output && s == State && i.intents_spec() == seq![
            if input.should_execute {
                self.order_spec()
            } else {
                Intent::NoIntent
            },
        ]
    }

    /// Asks for the block's order in its one slot where `should_execute` is
    /// set, and for no order otherwise; never fails and schedules no effect.
    fn execute<E: EffectConsumerTrait>(
        &self,
        context: &ExecutionContext,
        input: Input,
        state: &State,
        effects: &mut E,
    ) -> (r: Option<(Output, State, OneIntent)>)
        ensures
            r matches Some((o, s, i)) && o == Output && s == State && i.intents_spec() == seq![
                if input.should_execute {
                    self.order_spec()
                } else {
                    Intent::NoIntent
                },
            ],
            *final(effects) == *old(effects),
    {
        Some((Output, State, self.intents(input.should_execute)))
    }
}

/// The order block's channels: its input keys name one channel, its
/// `should_execute` field's; reading the input gives the `bool` that channel holds
/// and nothing where the channel is missing or holds another type; a reader
/// can be made exactly where reading succeeds; the reader reads no other
/// channel; and the output, which has no fields, names and writes no channel.
pub proof fn lemma_simple_order_channels(
    keys: InputKeys,
    rd: InputReader,
    w: OutputWriter,
    m: Map<Seq<char>, ChannelValue>,
    m2: Map<Seq<char>, ChannelValue>,
    o: Output,
)
    requires
        rd.should_execute@ == keys.should_execute@,
    ensures
        keys.channel_names_spec() == seq![keys.should_execute@],
        OutputKeys.channel_names_spec() == Seq::<Seq<char>>::empty(),
        forall|b: bool|
            m.contains_key(keys.should_execute@) && m[keys.should_execute@] == ChannelValue::Bool(b)
                ==> rd.read_spec(m) == Some(Input { should_execute: b }),
        !(m.contains_key(keys.should_execute@) && m[keys.should_execute@] is Bool) ==> rd.read_spec(m) is None,
        channel_keys::InputKeys::<Input>::reader_ok(&keys, m) <==> rd.read_spec(m) is Some,
        agree_on(m, m2, keys.channel_names_spec()) ==> rd.read_spec(m) == rd.read_spec(m2),
        w.write_spec(m, o) == m,
{
    if agree_on(m, m2, keys.channel_names_spec()) {
        assert(keys.channel_names_spec().contains(keys.should_execute@)) by {
            assert(keys.channel_names_spec()[0] == keys.should_execute@);
        }
    }
}

/// The order block asks, in its one slot, for its order exactly when told
/// to: for a block whose order places `contract`, `side`, `price` and
/// `quantity` (as `new_from_init_params` makes it from its parameters), a step
/// never fails, keeps the state, and its one intent places exactly that where
/// `should_execute` is set and asks for no order otherwise.
pub proof fn lemma_simple_order_step(
    b: SimpleOrderBlock,
    ctx: ExecutionContext,
    input: Input,
    state: State,
    accepts: spec_fn(Effect) -> bool,
    out: Option<(Output, State, OneIntent)>,
    contract: Contract,
    side: Side,
    price: Price,
    quantity: Quantity,
)
    requires
        b.order_spec() == (Intent::Place { contract, side, price, quantity }),
        b.steps_to(ctx, input, state, accepts, out),
    ensures
        out matches Some((o, s, i)) && s == state && i.intents_spec().len() == 1,
        input.should_execute ==> (out->0).2.intents_spec()[0] == (Intent::Place {
            contract,
            side,
            price,
            quantity,
        }),
        !input.should_execute ==> (out->0).2.intents_spec()[0] == Intent::NoIntent,
{
}

} // verus!
