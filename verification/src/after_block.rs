//! A block whose output says whether the current time is past a given time.
use vstd::prelude::*;

use crate::block_spec::{BlockInput, BlockOutput, BlockSpec, BlockSpecAssociatedTypes};
use crate::channel_keys;
use crate::channel_keys::{same_outside, ChannelKeys, Reader, Writer};
use crate::effects::Effect;
use crate::errors::RegistryError;
use crate::execution::{ContractDeps, EffectConsumerTrait, ExecutionContext};
use crate::intents::{BlockIntents, ZeroIntents};
use crate::registry::{is_read_result, ChannelRegistry, ChannelValue};
use crate::trade_types::Contract;

verus! {

/// The block reads nothing.
#[derive(Debug, Clone, Copy, PartialEq, Eq, Structural)]
pub struct Input;

/// Whether the current time is past the block's time.
#[derive(Debug, Clone, Copy, PartialEq, Eq, Structural)]
pub struct Output {
    pub is_after: bool,
}

/// The block keeps no state.
#[derive(Debug, Clone, Copy, PartialEq, Eq, Structural)]
pub struct State;

/// The time to compare against.
#[derive(Debug, Clone, Copy, PartialEq, Eq, Structural)]
pub struct InitParams {
    pub time: u64,
}

impl Default for Input {
    fn default() -> (r: Input)
        ensures
            r == Input,
    {
        Input
    }
}

impl Default for State {
    fn default() -> (r: State)
        ensures
            r == State,
    {
        State
    }
}

/// No input channels.
#[derive(Debug, Clone, Copy, PartialEq, Eq, Structural)]
pub struct InputKeys;

/// The channel the output is written to.
#[derive(Debug, PartialEq, Eq)]
pub struct OutputKeys {
    pub is_after: String,
}

impl Clone for OutputKeys {
    fn clone(&self) -> (r: Self)
        ensures
            r == *self,
    {
        OutputKeys { is_after: self.is_after.clone() }
    }
}

/// Reads the (empty) input.
pub struct InputReader;

/// Writes the output into its channel.
pub struct OutputWriter {
    pub is_after: String,
}

impl ChannelKeys for InputKeys {
    open spec fn channel_names_spec(&self) -> Seq<Seq<char>> {
        Seq::empty()
    }

    fn channel_names(&self) -> (r: Vec<String>) {
        let r: Vec<String> = Vec::new();
        proof {
            assert(crate::weave::names_view(r@) =~= Seq::<Seq<char>>::empty());
        }
        r
    }
}

impl ChannelKeys for OutputKeys {
    open spec fn channel_names_spec(&self) -> Seq<Seq<char>> {
        seq![self.is_after@]
    }

    fn channel_names(&self) -> (r: Vec<String>) {
        let mut r: Vec<String> = Vec::new();
        r.push(self.is_after.clone());
        proof {
            assert(crate::weave::names_view(r@) =~= seq![self.is_after@]);
        }
        r
    }
}

impl Reader<Input> for InputReader {
    open spec fn read_spec(&self, channels: Map<Seq<char>, ChannelValue>) -> Option<Input> {
        Some(Input)
    }

    fn read(&self, registry: &ChannelRegistry) -> (r: Option<Input>) {
        Some(Input)
    }
}

impl Writer<Output> for OutputWriter {
    open spec fn write_spec(&self, channels: Map<Seq<char>, ChannelValue>, value: Output) -> Map<
        Seq<char>,
        ChannelValue,
    > {
        channels.insert(self.is_after@, ChannelValue::Bool(value.is_after))
    }

    fn write(&self, registry: &mut ChannelRegistry, value: &Output) {
        registry.put(self.is_after.as_str(), value.is_after);
    }
}

impl channel_keys::InputKeys<Input> for InputKeys {
    type ReaderType = InputReader;

    open spec fn reader_fails_with(
        &self,
        channels: Map<Seq<char>, ChannelValue>,
        e: RegistryError,
    ) -> bool {
        false
    }

    open spec fn reader_ok(&self, channels: Map<Seq<char>, ChannelValue>) -> bool {
        true
    }

    /// Never fails: there is nothing to read.
    fn reader(&self, registry: &ChannelRegistry) -> (r: Result<InputReader, RegistryError>)
        ensures
            r is Ok,
    {
        Ok(InputReader)
    }
}

impl channel_keys::OutputKeys<Output> for OutputKeys {
    type WriterType = OutputWriter;

    open spec fn writer_fails_with(
        &self,
        channels: Map<Seq<char>, ChannelValue>,
        e: RegistryError,
    ) -> bool {
        is_read_result::<bool>(channels, self.is_after@, Err(e))
    }

    open spec fn writer_ok(&self, channels: Map<Seq<char>, ChannelValue>) -> bool {
        channels.contains_key(self.is_after@) && channels[self.is_after@] is Bool
    }

    open spec fn register_ok(&self, channels: Map<Seq<char>, ChannelValue>) -> bool {
        !channels.contains_key(self.is_after@) || channels[self.is_after@] is Bool
    }

    open spec fn registered(&self, channels: Map<Seq<char>, ChannelValue>) -> Map<
        Seq<char>,
        ChannelValue,
    > {
        if channels.contains_key(self.is_after@) {
            channels
        } else {
            channels.insert(self.is_after@, ChannelValue::Bool(false))
        }
    }

    /// Fails where the output channel is missing or does not hold a `bool`.
    fn writer(&self, registry: &ChannelRegistry) -> (r: Result<OutputWriter, RegistryError>)
        ensures
            r is Ok <==> registry@.contains_key(self.is_after@) && registry@[self.is_after@] is Bool,
            r matches Ok(w) ==> w.is_after@ == self.is_after@,
    {
        registry.get::<bool>(self.is_after.as_str())?;
        Ok(OutputWriter { is_after: self.is_after.clone() })
    }

    /// Creates the output channel with `false` where it does not exist; fails
    /// where it exists but does not hold a `bool`.
    fn register(&self, registry: &mut ChannelRegistry) -> (r: Result<(), RegistryError>)
        ensures
            old(registry)@.contains_key(self.is_after@) ==> final(registry)@ == old(registry)@,
            !old(registry)@.contains_key(self.is_after@) ==> r is Ok && final(registry)@ == old(
                registry)@.insert(self.is_after@, ChannelValue::Bool(false)),
            r is Ok <==> !old(registry)@.contains_key(self.is_after@) || old(
                registry)@[self.is_after@] is Bool,
    {
        if registry.has(self.is_after.as_str()) {
            registry.get::<bool>(self.is_after.as_str())?;
        } else {
            registry.put(self.is_after.as_str(), false);
        }
        Ok(())
    }
}

impl BlockInput for Input {
    type Keys = InputKeys;
}

impl BlockOutput for Output {
    type Keys = OutputKeys;
}

impl ContractDeps for InitParams {
    open spec fn contract_deps_spec(&self) -> Seq<Seq<char>> {
        Seq::empty()
    }

    fn contract_deps(&self) -> (r: Vec<Contract>) {
        let r: Vec<Contract> = Vec::new();
        proof {
            assert(crate::execution::contract_names(r@) =~= Seq::<Seq<char>>::empty());
        }
        r
    }
}

/// Outputs whether the current time is strictly past its time.
#[derive(Debug, Clone, Copy, PartialEq, Eq, Structural)]
pub struct AfterBlock {
    pub block_id: u32,
    time: u64,
}

impl AfterBlock {
    /// The time the block compares against.
    pub closed spec fn time_spec(&self) -> u64 {
        self.time
    }
}

impl BlockSpecAssociatedTypes for AfterBlock {
    type Input = Input;
    type Output = Output;
    type State = State;
    type InitParameters = InitParams;
    type Intents = ZeroIntents;
}

impl ContractDeps for AfterBlock {
    open spec fn contract_deps_spec(&self) -> Seq<Seq<char>> {
        Seq::empty()
    }

    fn contract_deps(&self) -> (r: Vec<Contract>) {
        let r: Vec<Contract> = Vec::new();
        proof {
            assert(crate::execution::contract_names(r@) =~= Seq::<Seq<char>>::empty());
        }
        r
    }
}

impl BlockSpec for AfterBlock {
    closed spec fn block_id_spec(&self) -> u32 {
        self.block_id
    }

    open spec fn init_state_spec(&self) -> State {
        State
    }

    fn block_id(&self) -> (r: u32) {
        self.block_id
    }

    fn init_state(&self) -> (r: State) {
        State
    }

    /// A block with ID 0 and the given time.
    fn new_from_init_params(params: &InitParams) -> (r: AfterBlock)
        ensures
            r.block_id_spec() == 0,
            r.time_spec() == params.time,
    {
        AfterBlock { block_id: 0, time: params.time }
    }

    open spec fn execute_ok(
        &self,
        context: ExecutionContext,
        input: Input,
        state: State,
        accepts: spec_fn(Effect) -> bool,
    ) -> bool {
        true
    }

    open spec fn steps_to(
        &self,
        context: ExecutionContext,
        input: Input,
        state: State,
        accepts: spec_fn(Effect) -> bool,
        out: Option<(Output, State, ZeroIntents)>,
    ) -> bool {
        out == Some((Output { is_after: context.time > self.time_spec() }, State, ZeroIntents))
    }

    /// Outputs whether the context's time is strictly greater than the block's
    /// time; never fails and schedules no effect.
    fn execute<E: EffectConsumerTrait>(
        &self,
        context: &ExecutionContext,
        input: Input,
        state: &State,
        effects: &mut E,
    ) -> (r: Option<(Output, State, ZeroIntents)>)
        ensures
            r == Some((Output { is_after: context.time > self.time_spec() }, State, ZeroIntents)),
            *final(effects) == *old(effects),
    {
        let is_after = context.time > self.time;
        Some((Output { is_after }, State, ZeroIntents))
    }
}

/// The after block's channels: its input has no fields, so its keys name no
/// channel and reading always succeeds; its output keys name the `is_after`
/// channel, and writing puts the output's `is_after` there as a `bool` and
/// leaves every other channel as it was; registering creates that channel
/// holding `false` where it is missing and keeps it otherwise, after which a
/// writer can be made wherever registering succeeds.
pub proof fn lemma_after_channels(
    rd: InputReader,
    out_keys: OutputKeys,
    w: OutputWriter,
    m: Map<Seq<char>, ChannelValue>,
    o: Output,
)
    requires
        w.is_after@ == out_keys.is_after@,
    ensures
        InputKeys.channel_names_spec() == Seq::<Seq<char>>::empty(),
        rd.read_spec(m) == Some(Input),
        out_keys.channel_names_spec() == seq![out_keys.is_after@],
        w.write_spec(m, o).contains_key(out_keys.is_after@),
        w.write_spec(m, o)[out_keys.is_after@] == ChannelValue::Bool(o.is_after),
        same_outside(m, w.write_spec(m, o), out_keys.channel_names_spec()),
        !m.contains_key(out_keys.is_after@) ==> channel_keys::OutputKeys::<Output>::registered(
            &out_keys,
            m,
        ) == m.insert(out_keys.is_after@, ChannelValue::Bool(false)),
        m.contains_key(out_keys.is_after@) ==> channel_keys::OutputKeys::<Output>::registered(
            &out_keys,
            m,
        ) == m,
        channel_keys::OutputKeys::<Output>::register_ok(&out_keys, m)
            ==> channel_keys::OutputKeys::<Output>::writer_ok(
            &out_keys,
            channel_keys::OutputKeys::<Output>::registered(&out_keys, m),
        ),
{
    let out_names = out_keys.channel_names_spec();
    assert(out_names[0] == out_keys.is_after@);
    assert(out_names.contains(out_keys.is_after@));
}

/// The after block says whether the time is past its own: a step from any
/// input and state succeeds, keeps the state, asks for nothing, and outputs
/// `true` exactly when the context's time is strictly later than the block's
/// time; so a later context is after wherever an earlier one is.
pub proof fn lemma_after_step(
    b: AfterBlock,
    ctx: ExecutionContext,
    ctx2: ExecutionContext,
    input: Input,
    state: State,
    accepts: spec_fn(Effect) -> bool,
    out: Option<(Output, State, ZeroIntents)>,
    out2: Option<(Output, State, ZeroIntents)>,
)
    requires
        b.steps_to(ctx, input, state, accepts, out),
        b.steps_to(ctx2, input, state, accepts, out2),
        ctx.time <= ctx2.time,
    ensures
        out matches Some((o, s, i)) && s == state && i.intents_spec().len() == 0 && (o.is_after
            <==> ctx.time > b.time_spec()),
        (out->0).0.is_after ==> (out2->0).0.is_after,
{
}

} // verus!
