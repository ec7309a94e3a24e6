//! A block that schedules its algorithm's termination when told to.
use vstd::prelude::*;

use crate::block_spec::{BlockInput, BlockOutput, BlockSpec, BlockSpecAssociatedTypes};
use crate::channel_keys;
use crate::channel_keys::{agree_on, bool_channel, read_bool, ChannelKeys, Reader, Writer};
use crate::effects::Effect;
use crate::errors::RegistryError;
use crate::execution::{ContractDeps, EffectConsumerTrait, ExecutionContext};
use crate::intents::{BlockIntents, ZeroIntents};
use crate::registry::{is_read_result, ChannelRegistry, ChannelValue};
use crate::trade_types::Contract;

verus! {

/// Whether to delete.
#[derive(Debug, Clone, Copy, PartialEq, Eq, Structural)]
pub struct Input {
    pub should_delete: bool,
}

/// The block writes nothing.
#[derive(Debug, Clone, Copy, PartialEq, Eq, Structural)]
pub struct Output;

/// The block keeps no state.
#[derive(Debug, Clone, Copy, PartialEq, Eq, Structural)]
pub struct State;

/// The block takes no parameters.
#[derive(Debug, Clone, Copy, PartialEq, Eq, Structural)]
pub struct InitParams;

impl Default for Output {
    fn default() -> (r: Output)
        ensures
            r == Output,
    {
        Output
    }
}

impl Default for State {
    fn default() -> (r: State)
        ensures
            r == State,
    {
        State
    }
}

impl Default for InitParams {
    fn default() -> (r: InitParams)
        ensures
            r == InitParams,
    {
        InitParams
    }
}

/// The channel the input is read from.
#[derive(Debug, PartialEq, Eq)]
pub struct InputKeys {
    pub should_delete: String,
}

impl Clone for InputKeys {
    fn clone(&self) -> (r: Self)
        ensures
            r == *self,
    {
        InputKeys { should_delete: self.should_delete.clone() }
    }
}

/// No output channels.
#[derive(Debug, Clone, Copy, PartialEq, Eq, Structural)]
pub struct OutputKeys;

/// Reads the input from its channel.
pub struct InputReader {
    pub should_delete: String,
}

/// Writes the (empty) output.
pub struct OutputWriter;

impl ChannelKeys for InputKeys {
    open spec fn channel_names_spec(&self) -> Seq<Seq<char>> {
        seq![self.should_delete@]
    }

    fn channel_names(&self) -> (r: Vec<String>) {
        let mut r: Vec<String> = Vec::new();
        r.push(self.should_delete.clone());
        proof {
            assert(crate::weave::names_view(r@) =~= seq![self.should_delete@]);
        }
        r
    }
}

impl ChannelKeys for OutputKeys {
    open spec fn channel_names_spec(&self) -> Seq<Seq<char>> {
        Seq::empty()
    }

    fn channel_names(&self) -> (r: Vec<String>) {
        let r: Vec<String> = Vec::new();
        proof {
            assert(crate::weave::names_view(r@) =~= Seq::<Seq<char>>::empty());
        }
        r
    }
}

impl Reader<Input> for InputReader {
    open spec fn read_spec(&self, channels: Map<Seq<char>, ChannelValue>) -> Option<Input> {
        match bool_channel(channels, self.should_delete@) {
            Some(b) => Some(Input { should_delete: b }),
            None => None,
        }
    }

    fn read(&self, registry: &ChannelRegistry) -> (r: Option<Input>) {
        match read_bool(registry, self.should_delete.as_str()) {
            Some(b) => Some(Input { should_delete: b }),
            None => None,
        }
    }
}

impl Writer<Output> for OutputWriter {
    open spec fn write_spec(&self, channels: Map<Seq<char>, ChannelValue>, value: Output) -> Map<
        Seq<char>,
        ChannelValue,
    > {
        channels
    }

    fn write(&self, registry: &mut ChannelRegistry, value: &Output) {
    }
}

impl channel_keys::InputKeys<Input> for InputKeys {
    type ReaderType = InputReader;

    open spec fn reader_fails_with(
        &self,
        channels: Map<Seq<char>, ChannelValue>,
        e: RegistryError,
    ) -> bool {
        is_read_result::<bool>(channels, self.should_delete@, Err(e))
    }

    open spec fn reader_ok(&self, channels: Map<Seq<char>, ChannelValue>) -> bool {
        bool_channel(channels, self.should_delete@) is Some
    }

    /// Fails where the input channel is missing or does not hold a `bool`.
    fn reader(&self, registry: &ChannelRegistry) -> (r: Result<InputReader, RegistryError>)
        ensures
            r is Ok <==> bool_channel(registry@, self.should_delete@) is Some,
            r matches Ok(rd) ==> rd.should_delete@ == self.should_delete@,
    {
        registry.get::<bool>(self.should_delete.as_str())?;
        Ok(InputReader { should_delete: self.should_delete.clone() })
    }
}

impl channel_keys::OutputKeys<Output> for OutputKeys {
    type WriterType = OutputWriter;

    open spec fn writer_fails_with(
        &self,
        channels: Map<Seq<char>, ChannelValue>,
        e: RegistryError,
    ) -> bool {
        false
    }

    open spec fn writer_ok(&self, channels: Map<Seq<char>, ChannelValue>) -> bool {
        true
    }

    open spec fn register_ok(&self, channels: Map<Seq<char>, ChannelValue>) -> bool {
        true
    }

    open spec fn registered(&self, channels: Map<Seq<char>, ChannelValue>) -> Map<
        Seq<char>,
        ChannelValue,
    > {
        channels
    }

    fn writer(&self, registry: &ChannelRegistry) -> (r: Result<OutputWriter, RegistryError>)
        ensures
            r is Ok,
    {
        Ok(OutputWriter)
    }

    fn register(&self, registry: &mut ChannelRegistry) -> (r: Result<(), RegistryError>)
        ensures
            r is Ok,
            final(registry)@ == old(registry)@,
    {
        Ok(())
    }
}

impl BlockInput for Input {
    type Keys = InputKeys;
}

impl BlockOutput for Output {
    type Keys = OutputKeys;
}

impl ContractDeps for InitParams {
    open spec fn contract_deps_spec(&self) -> Seq<Seq<char>> {
        Seq::empty()
    }

    fn contract_deps(&self) -> (r: Vec<Contract>) {
        let r: Vec<Contract> = Vec::new();
        proof {
            assert(crate::execution::contract_names(r@) =~= Seq::<Seq<char>>::empty());
        }
        r
    }
}

/// Schedules the termination of its algorithm when its input says so.
#[derive(Debug, Clone, Copy, PartialEq, Eq, Structural)]
pub struct DeleteBlock {
    pub block_id: u32,
}

impl BlockSpecAssociatedTypes for DeleteBlock {
    type Input = Input;
    type Output = Output;
    type State = State;
    type InitParameters = InitParams;
    type Intents = ZeroIntents;
}

impl ContractDeps for DeleteBlock {
    open spec fn contract_deps_spec(&self) -> Seq<Seq<char>> {
        Seq::empty()
    }

    fn contract_deps(&self) -> (r: Vec<Contract>) {
        let r: Vec<Contract> = Vec::new();
        proof {
            assert(crate::execution::contract_names(r@) =~= Seq::<Seq<char>>::empty());
        }
        r
    }
}

impl BlockSpec for DeleteBlock {
    open spec fn block_id_spec(&self) -> u32 {
        self.block_id
    }

    open spec fn init_state_spec(&self) -> State {
        State
    }

    fn block_id(&self) -> (r: u32) {
        self.block_id
    }

    fn init_state(&self) -> (r: State) {
        State
    }

    /// A block with ID 0.
    fn new_from_init_params(params: &InitParams) -> (r: DeleteBlock)
        ensures
            r == (DeleteBlock { block_id: 0 }),
    {
        DeleteBlock { block_id: 0 }
    }

    open spec fn execute_ok(
        &self,
        context: ExecutionContext,
        input: Input,
        state: State,
        accepts: spec_fn(Effect) -> bool,
    ) -> bool {
        !input.should_delete || accepts(Effect::Terminate)
    }

    open spec fn steps_to(
        &self,
        context: ExecutionContext,
        input: Input,
        state: State,
        accepts: spec_fn(Effect) -> bool,
        out: Option<(Output, State, ZeroIntents)>,
    ) -> bool {
        out == if !input.should_delete || accepts(Effect::Terminate) {
            Some((Output, State, ZeroIntents))
        } else {
            None
        }
    }

    /// A step schedules a termination when `should_delete` is set.
    open spec fn effects_spec(&self, context: ExecutionContext, input: Input, state: State) -> Seq<
        Effect,
    > {
        if input.should_delete {
            seq![Effect::Terminate]
        } else {
            Seq::empty()
        }
    }

    /// Schedules a termination when `should_delete` is set; fails, scheduling
    /// nothing, where the effect consumer refuses it.
    fn execute<E: EffectConsumerTrait>(
        &self,
        context: &ExecutionContext,
        input: Input,
        state: &State,
        effects: &mut E,
    ) -> (r: Option<(Output, State, ZeroIntents)>)
        ensures
            !input.should_delete ==> r == Some((Output, State, ZeroIntents)) && *final(effects)
                == *old(effects),
            input.should_delete && old(effects).accepts(Effect::Terminate) ==> r == Some(
                (Output, State, ZeroIntents),
            ) && final(effects).scheduled() == old(effects).scheduled().push(Effect::Terminate),
            input.should_delete && !old(effects).accepts(Effect::Terminate) ==> {
                &&& r is None
                &&& final(effects).scheduled() == old(effects).scheduled()
            },
    {
        if input.should_delete {
            match effects.schedule_terminate_effect() {
                Ok(_) => {},
                Err(_) => {
                    return None;
                },
            }
        }
        Some((Output, State, ZeroIntents))
    }
}

/// The delete block's channels: its input keys name one channel, its
/// `should_delete` field's; reading the input gives the `bool` that channel holds
/// and nothing where the channel is missing or holds another type; a reader
/// can be made exactly where reading succeeds; the reader reads no other
/// channel; and the output, which has no fields, names and writes no channel.
pub proof fn lemma_delete_channels(
    keys: InputKeys,
    rd: InputReader,
    w: OutputWriter,
    m: Map<Seq<char>, ChannelValue>,
    m2: Map<Seq<char>, ChannelValue>,
    o: Output,
)
    requires
        rd.should_delete@ == keys.should_delete@,
    ensures
        keys.channel_names_spec() == seq![keys.should_delete@],
        OutputKeys.channel_names_spec() == Seq::<Seq<char>>::empty(),
        forall|b: bool|
            m.contains_key(keys.should_delete@) && m[keys.should_delete@] == ChannelValue::Bool(b)
                ==> rd.read_spec(m) == Some(Input { should_delete: b }),
        !(m.contains_key(keys.should_delete@) && m[keys.should_delete@] is Bool) ==> rd.read_spec(m) is None,
        channel_keys::InputKeys::<Input>::reader_ok(&keys, m) <==> rd.read_spec(m) is Some,
        agree_on(m, m2, keys.channel_names_spec()) ==> rd.read_spec(m) == rd.read_spec(m2),
        w.write_spec(m, o) == m,
{
    if agree_on(m, m2, keys.channel_names_spec()) {
        assert(keys.channel_names_spec().contains(keys.should_delete@)) by {
            assert(keys.channel_names_spec()[0] == keys.should_delete@);
        }
    }
}

/// The delete block asks for termination exactly when told to: a step
/// schedules a termination where `should_delete` is set and nothing
/// otherwise, and it fails exactly where it must schedule a termination that
/// the effect consumer refuses.
pub proof fn lemma_delete_step(
    b: DeleteBlock,
    ctx: ExecutionContext,
    input: Input,
    state: State,
    accepts: spec_fn(Effect) -> bool,
    out: Option<(Output, State, ZeroIntents)>,
)
    requires
        b.steps_to(ctx, input, state, accepts, out),
    ensures
        out is None <==> input.should_delete && !accepts(Effect::Terminate),
        b.effects_spec(ctx, input, state).len() <= 1,
        b.effects_spec(ctx, input, state).contains(Effect::Terminate) <==> input.should_delete,
        out matches Some((o, s, i)) ==> s == state && i.intents_spec().len() == 0,
{
    if input.should_delete {
        assert(b.effects_spec(ctx, input, state)[0] == Effect::Terminate);
    }
}

} // verus!
