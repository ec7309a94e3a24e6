//! A block that adds two numbers and an offset, counting its calls.
use vstd::prelude::*;

use crate::block_spec::{BlockInput, BlockOutput, BlockSpec, BlockSpecAssociatedTypes};
use crate::channel_keys;
use crate::channel_keys::{agree_on, i32_channel, same_outside, read_i32, ChannelKeys, Reader, Writer};
use crate::effects::Effect;
use crate::errors::RegistryError;
use crate::execution::{ContractDeps, EffectConsumerTrait, ExecutionContext};
use crate::intents::{BlockIntents, ZeroIntents};
use crate::registry::{is_read_result, ChannelRegistry, ChannelValue};
use crate::trade_types::Contract;

verus! {

/// The two numbers to add.
#[derive(Debug, Clone, Copy, PartialEq, Eq, Structural)]
pub struct Input {
    pub a: i32,
    pub b: i32,
}

/// Their sum plus the offset.
#[derive(Debug, Clone, Copy, PartialEq, Eq, Structural)]
pub struct Output {
    pub sum: i32,
}

/// How many times the block has run.
#[derive(Debug, Clone, Copy, PartialEq, Eq, Structural)]
pub struct State {
    pub call_count: u32,
}

/// The offset added to every sum.
#[derive(Debug, Clone, Copy, PartialEq, Eq, Structural)]
pub struct InitParams {
    pub offset: i32,
}

/// The channels the two numbers are read from.
#[derive(Debug, PartialEq, Eq)]
pub struct InputKeys {
    pub a: String,
    pub b: String,
}

impl Clone for InputKeys {
    fn clone(&self) -> (r: Self)
        ensures
            r == *self,
    {
        InputKeys { a: self.a.clone(), b: self.b.clone() }
    }
}

/// The channel the sum is written to.
#[derive(Debug, PartialEq, Eq)]
pub struct OutputKeys {
    pub sum: String,
}

impl Clone for OutputKeys {
    fn clone(&self) -> (r: Self)
        ensures
            r == *self,
    {
        OutputKeys { sum: self.sum.clone() }
    }
}

/// Reads the two numbers from their channels.
pub struct InputReader {
    pub a: String,
    pub b: String,
}

/// Writes the sum into its channel.
pub struct OutputWriter {
    pub sum: String,
}

impl ChannelKeys for InputKeys {
    open spec fn channel_names_spec(&self) -> Seq<Seq<char>> {
        seq![self.a@, self.b@]
    }

    fn channel_names(&self) -> (r: Vec<String>) {
        let mut r: Vec<String> = Vec::new();
        r.push(self.a.clone());
        r.push(self.b.clone());
        proof {
            assert(crate::weave::names_view(r@) =~= seq![self.a@, self.b@]);
        }
        r
    }
}

impl ChannelKeys for OutputKeys {
    open spec fn channel_names_spec(&self) -> Seq<Seq<char>> {
        seq![self.sum@]
    }

    fn channel_names(&self) -> (r: Vec<String>) {
        let mut r: Vec<String> = Vec::new();
        r.push(self.sum.clone());
        proof {
            assert(crate::weave::names_view(r@) =~= seq![self.sum@]);
        }
        r
    }
}

impl Reader<Input> for InputReader {
    open spec fn read_spec(&self, channels: Map<Seq<char>, ChannelValue>) -> Option<Input> {
        match (i32_channel(channels, self.a@), i32_channel(channels, self.b@)) {
            (Some(a), Some(b)) => Some(Input { a, b }),
            _ => None,
        }
    }

    fn read(&self, registry: &ChannelRegistry) -> (r: Option<Input>) {
        let a = match read_i32(registry, self.a.as_str()) {
            Some(a) => a,
            None => {
                return None;
            },
        };
        let b = match read_i32(registry, self.b.as_str()) {
            Some(b) => b,
            None => {
                return None;
            },
        };
        Some(Input { a, b })
    }
}

impl Writer<Output> for OutputWriter {
    open spec fn write_spec(&self, channels: Map<Seq<char>, ChannelValue>, value: Output) -> Map<
        Seq<char>,
        ChannelValue,
    > {
        channels.insert(self.sum@, ChannelValue::I32(value.sum))
    }

    fn write(&self, registry: &mut ChannelRegistry, value: &Output) {
        registry.put(self.sum.as_str(), value.sum);
    }
}

impl channel_keys::InputKeys<Input> for InputKeys {
    type ReaderType = InputReader;

    open spec fn reader_fails_with(
        &self,
        channels: Map<Seq<char>, ChannelValue>,
        e: RegistryError,
    ) -> bool {
        if i32_channel(channels, self.a@) is None {
            is_read_result::<i32>(channels, self.a@, Err(e))
        } else {
            is_read_result::<i32>(channels, self.b@, Err(e))
        }
    }

    open spec fn reader_ok(&self, channels: Map<Seq<char>, ChannelValue>) -> bool {
        i32_channel(channels, self.a@) is Some && i32_channel(channels, self.b@) is Some
    }

    /// Fails where an input channel is missing or does not hold an `i32`.
    fn reader(&self, registry: &ChannelRegistry) -> (r: Result<InputReader, RegistryError>)
        ensures
            r is Ok <==> i32_channel(registry@, self.a@) is Some && i32_channel(
                registry@,
                self.b@,
            ) is Some,
            r matches Ok(rd) ==> rd.a@ == self.a@ && rd.b@ == self.b@,
    {
        registry.get::<i32>(self.a.as_str())?;
        registry.get::<i32>(self.b.as_str())?;
        Ok(InputReader { a: self.a.clone(), b: self.b.clone() })
    }
}

impl channel_keys::OutputKeys<Output> for OutputKeys {
    type WriterType = OutputWriter;

    open spec fn writer_fails_with(
        &self,
        channels: Map<Seq<char>, ChannelValue>,
        e: RegistryError,
    ) -> bool {
        is_read_result::<i32>(channels, self.sum@, Err(e))
    }

    open spec fn writer_ok(&self, channels: Map<Seq<char>, ChannelValue>) -> bool {
        i32_channel(channels, self.sum@) is Some
    }

    open spec fn register_ok(&self, channels: Map<Seq<char>, ChannelValue>) -> bool {
        !channels.contains_key(self.sum@) || channels[self.sum@] is I32
    }

    open spec fn registered(&self, channels: Map<Seq<char>, ChannelValue>) -> Map<
        Seq<char>,
        ChannelValue,
    > {
        if channels.contains_key(self.sum@) {
            channels
        } else {
            channels.insert(self.sum@, ChannelValue::I32(0))
        }
    }

    /// Fails where the output channel is missing or does not hold an `i32`.
    fn writer(&self, registry: &ChannelRegistry) -> (r: Result<OutputWriter, RegistryError>)
        ensures
            r is Ok <==> i32_channel(registry@, self.sum@) is Some,
            r matches Ok(w) ==> w.sum@ == self.sum@,
    {
        registry.get::<i32>(self.sum.as_str())?;
        Ok(OutputWriter { sum: self.sum.clone() })
    }

    /// Creates the output channel with 0 where it does not exist; fails where
    /// it exists but does not hold an `i32`.
    fn register(&self, registry: &mut ChannelRegistry) -> (r: Result<(), RegistryError>)
        ensures
            old(registry)@.contains_key(self.sum@) ==> final(registry)@ == old(registry)@,
            !old(registry)@.contains_key(self.sum@) ==> r is Ok && final(registry)@ == old(
                registry)@.insert(self.sum@, ChannelValue::I32(0)),
            r is Ok <==> !old(registry)@.contains_key(self.sum@) || old(registry)@[self.sum@] is I32,
    {
        if registry.has(self.sum.as_str()) {
            registry.get::<i32>(self.sum.as_str())?;
        } else {
            registry.put(self.sum.as_str(), 0i32);
        }
        Ok(())
    }
}

impl BlockInput for Input {
    type Keys = InputKeys;
}

impl BlockOutput for Output {
    type Keys = OutputKeys;
}

impl ContractDeps for InitParams {
    open spec fn contract_deps_spec(&self) -> Seq<Seq<char>> {
        Seq::empty()
    }

    fn contract_deps(&self) -> (r: Vec<Contract>) {
        let r: Vec<Contract> = Vec::new();
        proof {
            assert(crate::execution::contract_names(r@) =~= Seq::<Seq<char>>::empty());
        }
        r
    }
}

/// Adds its two inputs and its offset.
#[derive(Debug, Clone, Copy, PartialEq, Eq, Structural)]
pub struct AdderBlock {
    pub offset: i32,
}

impl BlockSpecAssociatedTypes for AdderBlock {
    type Input = Input;
    type Output = Output;
    type State = State;
    type InitParameters = InitParams;
    type Intents = ZeroIntents;
}

impl ContractDeps for AdderBlock {
    open spec fn contract_deps_spec(&self) -> Seq<Seq<char>> {
        Seq::empty()
    }

    fn contract_deps(&self) -> (r: Vec<Contract>) {
        let r: Vec<Contract> = Vec::new();
        proof {
            assert(crate::execution::contract_names(r@) =~= Seq::<Seq<char>>::empty());
        }
        r
    }
}

impl BlockSpec for AdderBlock {
    open spec fn block_id_spec(&self) -> u32 {
        0
    }

    open spec fn init_state_spec(&self) -> State {
        State { call_count: 0 }
    }

    /// The block has no ID of its own: 0.
    fn block_id(&self) -> (r: u32) {
        0
    }

    /// No calls yet.
    fn init_state(&self) -> (r: State) {
        State { call_count: 0 }
    }

    /// A block with the given offset.
    fn new_from_init_params(params: &InitParams) -> (r: AdderBlock)
        ensures
            r == (AdderBlock { offset: params.offset }),
    {
        AdderBlock { offset: params.offset }
    }

    open spec fn execute_ok(
        &self,
        context: ExecutionContext,
        input: Input,
        state: State,
        accepts: spec_fn(Effect) -> bool,
    ) -> bool {
        i32::MIN <= input.a + input.b <= i32::MAX && i32::MIN <= input.a + input.b
            + self.offset <= i32::MAX && state.call_count < u32::MAX
    }

    open spec fn steps_to(
        &self,
        context: ExecutionContext,
        input: Input,
        state: State,
        accepts: spec_fn(Effect) -> bool,
        out: Option<(Output, State, ZeroIntents)>,
    ) -> bool {
        out == if i32::MIN <= input.a + input.b <= i32::MAX && i32::MIN <= input.a + input.b
            + self.offset <= i32::MAX && state.call_count < u32::MAX {
            Some(
                (
                    Output { sum: (input.a + input.b + self.offset) as i32 },
                    State { call_count: (state.call_count + 1) as u32 },
                    ZeroIntents,
                ),
            )
        } else {
            None
        }
    }

    /// Outputs `a + b + offset` and counts the call; fails where `a + b`, the
    /// sum with the offset or the count does not fit its type.
    fn execute<E: EffectConsumerTrait>(
        &self,
        context: &ExecutionContext,
        input: Input,
        state: &State,
        effects: &mut E,
    ) -> (r: Option<(Output, State, ZeroIntents)>)
        ensures
            r == if i32::MIN <= input.a + input.b <= i32::MAX && i32::MIN <= input.a + input.b
                + self.offset <= i32::MAX && state.call_count < u32::MAX {
                Some(
                    (
                        Output { sum: (input.a + input.b + self.offset) as i32 },
                        State { call_count: (state.call_count + 1) as u32 },
                        ZeroIntents,
                    ),
                )
            } else {
                None
            },
            *final(effects) == *old(effects),
    {
        let partial = match input.a.checked_add(input.b) {
            Some(x) => x,
            None => {
                return None;
            },
        };
        let result = match partial.checked_add(self.offset) {
            Some(x) => x,
            None => {
                return None;
            },
        };
        let call_count = match state.call_count.checked_add(1) {
            Some(c) => c,
            None => {
                return None;
            },
        };
        Some((Output { sum: result }, State { call_count }, ZeroIntents))
    }
}

/// The adder's channels: its input keys name one channel per input field,
/// `a` then `b`; reading the input gives the `i32`s those channels hold, and
/// nothing where either is missing or holds another type; a reader can be
/// made exactly where reading succeeds; the reader reads no channel but
/// those; the output keys name the `sum` channel, and writing puts the sum
/// there as an `i32` and leaves every other channel as it was; registering
/// creates that channel holding 0 where it is missing and keeps it otherwise,
/// after which a writer can be made wherever registering succeeds.
pub proof fn lemma_adder_channels(
    keys: InputKeys,
    rd: InputReader,
    out_keys: OutputKeys,
    w: OutputWriter,
    m: Map<Seq<char>, ChannelValue>,
    m2: Map<Seq<char>, ChannelValue>,
    o: Output,
)
    requires
        rd.a@ == keys.a@,
        rd.b@ == keys.b@,
        w.sum@ == out_keys.sum@,
    ensures
        keys.channel_names_spec() == seq![keys.a@, keys.b@],
        out_keys.channel_names_spec() == seq![out_keys.sum@],
        forall|x: i32, y: i32|
            m.contains_key(keys.a@) && m[keys.a@] == ChannelValue::I32(x) && m.contains_key(keys.b@)
                && m[keys.b@] == ChannelValue::I32(y) ==> rd.read_spec(m) == Some(Input { a: x, b: y }),
        !(m.contains_key(keys.a@) && m[keys.a@] is I32 && m.contains_key(keys.b@)
            && m[keys.b@] is I32) ==> rd.read_spec(m) is None,
        channel_keys::InputKeys::<Input>::reader_ok(&keys, m) <==> rd.read_spec(m) is Some,
        agree_on(m, m2, keys.channel_names_spec()) ==> rd.read_spec(m) == rd.read_spec(m2),
        w.write_spec(m, o).contains_key(out_keys.sum@),
        w.write_spec(m, o)[out_keys.sum@] == ChannelValue::I32(o.sum),
        same_outside(m, w.write_spec(m, o), out_keys.channel_names_spec()),
        !m.contains_key(out_keys.sum@) ==> channel_keys::OutputKeys::<Output>::registered(
            &out_keys,
            m,
        ) == m.insert(out_keys.sum@, ChannelValue::I32(0)),
        m.contains_key(out_keys.sum@) ==> channel_keys::OutputKeys::<Output>::registered(
            &out_keys,
            m,
        ) == m,
        channel_keys::OutputKeys::<Output>::register_ok(&out_keys, m)
            ==> channel_keys::OutputKeys::<Output>::writer_ok(
            &out_keys,
            channel_keys::OutputKeys::<Output>::registered(&out_keys, m),
        ),
{
    let names = keys.channel_names_spec();
    assert(names[0] == keys.a@ && names[1] == keys.b@);
    assert(names.contains(keys.a@) && names.contains(keys.b@));
    let out_names = out_keys.channel_names_spec();
    assert(out_names[0] == out_keys.sum@);
    assert(out_names.contains(out_keys.sum@));
}

/// The adder adds: where neither `a + b`, nor that sum with the offset, nor
/// the call count overflows, a step outputs `a + b + offset`, counts one more
/// call and asks for nothing; where one of them would overflow, it fails.
pub proof fn lemma_adder_step(
    b: AdderBlock,
    ctx: ExecutionContext,
    input: Input,
    state: State,
    accepts: spec_fn(Effect) -> bool,
    out: Option<(Output, State, ZeroIntents)>,
)
    requires
        b.steps_to(ctx, input, state, accepts, out),
    ensures
        out matches Some((o, s, i)) ==> o.sum == input.a + input.b + b.offset && s.call_count
            == state.call_count + 1 && i.intents_spec().len() == 0,
        out is None <==> (input.a + input.b > i32::MAX || input.a + input.b < i32::MIN || input.a
            + input.b + b.offset > i32::MAX || input.a + input.b + b.offset < i32::MIN
            || state.call_count == u32::MAX),
{
}

} // verus!
