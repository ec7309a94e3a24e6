//! What a block is: its input, output, state and parameters, how it executes,
//! and the wrapper that runs it against the channels of a registry.
use vstd::prelude::*;

use crate::channel_keys::{ChannelKeys, InputKeys, OutputKeys, Reader, Writer};
use crate::effects::Effect;
use crate::errors::RegistryError;
use crate::execution::{ContractDeps, EffectConsumerTrait, ExecutionContext};
use crate::intents::{slot_intents_of, BlockIntents, SlotIntent};
use crate::registry::{ChannelRegistry, ChannelValue};
use crate::trade_types::Contract;
use crate::weave::WeaveNode;

verus! {

/// A block's input, read from channels through its keys.
pub trait BlockInput: Sized {
    type Keys: InputKeys<Self> + Clone;
}

/// A block's output, written to channels through its keys.
pub trait BlockOutput: Sized {
    type Keys: OutputKeys<Self> + Clone;
}

/// The types a block works with.
pub trait BlockSpecAssociatedTypes {
    type Input: BlockInput;
    type Output: BlockOutput;
    type State: Clone;
    type InitParameters: ContractDeps + Clone;
    type Intents: BlockIntents;
}

/// A block: an identifier, an initial state, and a step from an input and a
/// state to an output, a new state and intents.
///
/// The spec functions describe an implementation; each implementation in this
/// library defines them, and where one does not they stay unspecified.
pub trait BlockSpec: BlockSpecAssociatedTypes + ContractDeps + Sized {
    /// The block's identifier.
    open spec fn block_id_spec(&self) -> u32 {
        arbitrary()
    }

    /// The state the block starts in.
    open spec fn init_state_spec(&self) -> Self::State {
        arbitrary()
    }

    /// The ID of the block, unique within an algorithm.
    fn block_id(&self) -> (r: u32)
        ensures
            r == self.block_id_spec(),
    ;

    /// The block's initial state.
    fn init_state(&self) -> (r: Self::State)
        ensures
            r == self.init_state_spec(),
    ;

    /// A block made from its initialization parameters.
    fn new_from_init_params(params: &Self::InitParameters) -> Self;

    /// Whether one step from `input` and `state` succeeds, where `accepts`
    /// says which effects the effect consumer takes.
    open spec fn execute_ok(
        &self,
        context: ExecutionContext,
        input: Self::Input,
        state: Self::State,
        accepts: spec_fn(Effect) -> bool,
    ) -> bool {
        arbitrary()
    }

    /// Whether `out` is a result one step from `input` and `state` can give,
    /// where `accepts` says which effects the effect consumer takes.
    open spec fn steps_to(
        &self,
        context: ExecutionContext,
        input: Self::Input,
        state: Self::State,
        accepts: spec_fn(Effect) -> bool,
        out: Option<(Self::Output, Self::State, Self::Intents)>,
    ) -> bool {
        arbitrary()
    }

    /// The effects that one step from `input` and `state` schedules where it
    /// succeeds; none unless an implementation says otherwise.
    open spec fn effects_spec(
        &self,
        context: ExecutionContext,
        input: Self::Input,
        state: Self::State,
    ) -> Seq<Effect> {
        Seq::empty()
    }

    /// One step of the block: `None` where it fails. A step that succeeds
    /// schedules its effects (see `effects_spec`); one that fails schedules
    /// none.
    fn execute<E: EffectConsumerTrait>(
        &self,
        context: &ExecutionContext,
        input: Self::Input,
        state: &Self::State,
        effects: &mut E,
    ) -> (r: Option<(Self::Output, Self::State, Self::Intents)>)
        ensures
            r is Some <==> self.execute_ok(*context, input, *state, |e: Effect| old(effects).accepts(e)),
            self.steps_to(*context, input, *state, |e: Effect| old(effects).accepts(e), r),
            r is Some ==> final(effects).scheduled() == old(effects).scheduled() + self.effects_spec(
                *context,
                input,
                *state,
            ),
            r is None ==> final(effects).scheduled() == old(effects).scheduled(),
    ;
}

/// Marks a block that depends on no contract: such a block gets its
/// `ContractDeps` from here.
pub trait EmptyContractDepsTag {

}

impl<T: BlockSpec + EmptyContractDepsTag> ContractDeps for T {
    fn contract_deps(&self) -> (r: Vec<Contract>) {
        let r: Vec<Contract> = Vec::new();
        proof {
            assert(crate::execution::contract_names(r@) =~= Seq::<Seq<char>>::empty());
        }
        r
    }
}

/// A block with the reader of its input, the writer of its output and its
/// current state.
pub struct EncapsulatedBlock<B: BlockSpec, R, W> {
    pub block: B,
    pub input_reader: R,
    pub output_writer: W,
    pub state: B::State,
}

impl<B: BlockSpec, R: Reader<B::Input>, W: Writer<B::Output>> EncapsulatedBlock<B, R, W> {
    /// Wraps a block, starting from its initial state.
    pub fn new(block: B, input_reader: R, output_writer: W) -> (r: Self)
        ensures
            r.block == block,
            r.input_reader == input_reader,
            r.output_writer == output_writer,
            r.state == block.init_state_spec(),
    {
        let state = block.init_state();
        EncapsulatedBlock { block, input_reader, output_writer, state }
    }

    /// Whether executing once succeeds against channels `channels`, where
    /// `accepts` says which effects the effect consumer takes: the input can
    /// be read and the block's step from it and the current state succeeds.
    pub open spec fn executes(
        &self,
        context: ExecutionContext,
        channels: Map<Seq<char>, ChannelValue>,
        accepts: spec_fn(Effect) -> bool,
    ) -> bool {
        match self.input_reader.read_spec(channels) {
            Some(i) => self.block.execute_ok(context, i, self.state, accepts),
            None => false,
        }
    }

    /// Whether executing once against channels `channels`, where `accepts`
    /// says which effects the effect consumer takes, can succeed turning this
    /// value into `after`, the channels into `channels2`, with slot intents
    /// `v`: the input is read, the block steps from it and the current state
    /// to an output, a new state and intents; the output is written, the new
    /// state kept, and the intents come back tagged with the block's slots.
    pub open spec fn executes_to(
        &self,
        context: ExecutionContext,
        channels: Map<Seq<char>, ChannelValue>,
        accepts: spec_fn(Effect) -> bool,
        after: Self,
        channels2: Map<Seq<char>, ChannelValue>,
        v: Seq<SlotIntent>,
    ) -> bool {
        exists|o: B::Output, s: B::State, i: B::Intents|
            {
                &&& self.input_reader.read_spec(channels) is Some
                &&& #[trigger] self.block.steps_to(
                    context,
                    self.input_reader.read_spec(channels)->0,
                    self.state,
                    accepts,
                    Some((o, s, i)),
                )
                &&& after.block == self.block
                &&& after.input_reader == self.input_reader
                &&& after.output_writer == self.output_writer
                &&& after.state == s
                &&& channels2 == self.output_writer.write_spec(channels, o)
                &&& v == slot_intents_of(i.intents_spec(), self.block.block_id_spec())
            }
    }

    /// The effects that executing once against channels `channels` schedules
    /// where it succeeds: those of the block's step from the input read and
    /// the current state.
    pub open spec fn effects_of(
        &self,
        context: ExecutionContext,
        channels: Map<Seq<char>, ChannelValue>,
    ) -> Seq<Effect> {
        match self.input_reader.read_spec(channels) {
            Some(i) => self.block.effects_spec(context, i, self.state),
            None => Seq::empty(),
        }
    }

    /// The block's identifier.
    pub fn block_id(&self) -> (r: u32)
        ensures
            r == self.block.block_id_spec(),
    {
        self.block.block_id()
    }

    /// The contracts the block depends on.
    pub fn contract_deps(&self) -> (r: Vec<Contract>)
        ensures
            crate::execution::contract_names(r@) == self.block.contract_deps_spec(),
    {
        self.block.contract_deps()
    }

    /// The current state.
    pub fn state(&self) -> (r: &B::State)
        ensures
            *r == self.state,
    {
        &self.state
    }

    /// Takes in the result of one step of the block: on success writes the
    /// output, keeps the new state and returns the intents tagged with their
    /// slots; on failure changes nothing and returns `None`.
    pub fn apply(
        &mut self,
        registry: &mut ChannelRegistry,
        result: Option<(B::Output, B::State, B::Intents)>,
    ) -> (r: Option<Vec<SlotIntent>>)
        ensures
            final(self).block == old(self).block,
            final(self).input_reader == old(self).input_reader,
            final(self).output_writer == old(self).output_writer,
            result is None ==> {
                &&& r is None
                &&& final(self).state == old(self).state
                &&& final(registry)@ == old(registry)@
            },
            result matches Some((o, s, i)) ==> {
                &&& final(self).state == s
                &&& final(registry)@ == old(self).output_writer.write_spec(old(registry)@, o)
                &&& r matches Some(v) && v@ == slot_intents_of(
                    i.intents_spec(),
                    old(self).block.block_id_spec(),
                )
            },
    {
        match result {
            None => None,
            Some((output, new_state, intents)) => {
                self.output_writer.write(registry, &output);
                self.state = new_state;
                let id = self.block.block_id();
                Some(intents.as_slot_intents(id))
            },
        }
    }

    /// Executes the block once: reads its input from the registry, steps the
    /// block from the current state and takes in the result (see `apply`).
    /// Where the input cannot be read, nothing changes and the result is `None`.
    pub fn execute<E: EffectConsumerTrait>(
        &mut self,
        context: &ExecutionContext,
        registry: &mut ChannelRegistry,
        effects: &mut E,
    ) -> (r: Option<Vec<SlotIntent>>)
        ensures
            final(self).block == old(self).block,
            final(self).input_reader == old(self).input_reader,
            final(self).output_writer == old(self).output_writer,
            r is Some <==> old(self).executes(
                *context,
                old(registry)@,
                |e: Effect| old(effects).accepts(e),
            ),
            r is None ==> {
                &&& final(self).state == old(self).state
                &&& final(registry)@ == old(registry)@
            },
            r matches Some(v) ==> old(self).executes_to(
                *context,
                old(registry)@,
                |e: Effect| old(effects).accepts(e),
                *final(self),
                final(registry)@,
                v@,
            ),
            r is Some ==> final(effects).scheduled() == old(effects).scheduled() + old(
                self,
            ).effects_of(*context, old(registry)@),
            r is None ==> final(effects).scheduled() == old(effects).scheduled(),
    {
        let input = match self.input_reader.read(registry) {
            Some(x) => x,
            None => {
                return None;
            },
        };
        let result = self.block.execute(context, input, &self.state, effects);
        self.apply(registry, result)
    }
}

/// A block as it is stored before weaving: the keys of its input and output
/// channels, its initialization parameters, and the state it was stored in,
/// if any.
pub struct BlockSerializationPackage<B: BlockSpec> {
    pub input_keys: <B::Input as BlockInput>::Keys,
    pub output_keys: <B::Output as BlockOutput>::Keys,
    pub init_params: B::InitParameters,
    pub state: Option<B::State>,
}

impl<B: BlockSpec> BlockSerializationPackage<B> {
    /// Whether building the block against channels `channels` succeeds: the
    /// output channels register, and after that the input can be read and
    /// the output written.
    pub open spec fn weave_ok(&self, channels: Map<Seq<char>, ChannelValue>) -> bool {
        let after = self.output_keys.registered(channels);
        &&& self.output_keys.register_ok(channels)
        &&& self.input_keys.reader_ok(after)
        &&& self.output_keys.writer_ok(after)
    }

    /// A package of the given keys and parameters, with no stored state.
    pub fn new(
        input_keys: <B::Input as BlockInput>::Keys,
        output_keys: <B::Output as BlockOutput>::Keys,
        init_params: B::InitParameters,
    ) -> (r: Self)
        ensures
            r.input_keys == input_keys,
            r.output_keys == output_keys,
            r.init_params == init_params,
            r.state is None,
    {
        BlockSerializationPackage { input_keys, output_keys, init_params, state: None }
    }

    /// Whether `s` is the state a block woven from this package starts in,
    /// for a block `block` made from its parameters: a copy of the stored
    /// state, or the block's initial state where none is stored.
    pub open spec fn starts_in(&self, block: B, s: B::State) -> bool {
        match self.state {
            Some(stored) => cloned(stored, s),
            None => s == block.init_state_spec(),
        }
    }

    /// Builds the block against the registry: registers the output channels,
    /// makes the block from its parameters, then the reader of its input and
    /// the writer of its output; the first failure is returned. The block
    /// starts in the stored state, or its initial state where none is stored.
    pub fn weave_block(&self, registry: &mut ChannelRegistry) -> (r: Result<
        EncapsulatedBlock<
            B,
            <<B::Input as BlockInput>::Keys as InputKeys<B::Input>>::ReaderType,
            <<B::Output as BlockOutput>::Keys as OutputKeys<B::Output>>::WriterType,
        >,
        RegistryError,
    >)
        ensures
            final(registry)@ == self.output_keys.registered(old(registry)@),
            r is Ok <==> self.weave_ok(old(registry)@),
            r matches Ok(b) ==> self.starts_in(b.block, b.state),
    {
        self.output_keys.register(registry)?;
        let block = B::new_from_init_params(&self.init_params);
        let input_reader = self.input_keys.reader(registry)?;
        let output_writer = self.output_keys.writer(registry)?;
        let mut woven = EncapsulatedBlock::new(block, input_reader, output_writer);
        match &self.state {
            Some(s) => {
                woven.state = s.clone();
            },
            None => {},
        }
        Ok(woven)
    }
}

/// The name the block kinds use for a stored block.
pub type BlockPackage<B> = BlockSerializationPackage<B>;

/// The name older code uses for a stored block.
pub type BlockSerializationSummary<B> = BlockSerializationPackage<B>;

/// Makes stored blocks.
pub struct BlockSerialisation;

impl BlockSerialisation {
    /// A stored block of the given keys and parameters.
    pub fn new_node<B: BlockSpec>(
        input_keys: <B::Input as BlockInput>::Keys,
        output_keys: <B::Output as BlockOutput>::Keys,
        init_params: B::InitParameters,
    ) -> (r: BlockSerializationPackage<B>)
        ensures
            r.input_keys == input_keys,
            r.output_keys == output_keys,
            r.init_params == init_params,
    {
        BlockSerializationPackage::new(input_keys, output_keys, init_params)
    }
}

/// A woven node that can give back the package it was woven from.
pub trait EmbeddedNode<P>: Sized {
    /// The package of the node, for storing it again.
    fn extract_package(&self) -> P;
}

/// A package whose woven nodes can give it back.
pub trait NodePackage<E: EmbeddedNode<Self>>: WeaveNode<E> + Sized {
}

/// A block woven from a package, which it keeps so that it can be stored
/// again.
pub struct BlockEmbedding<B: BlockSpec> {
    package: BlockSerializationPackage<B>,
    embedded: EncapsulatedBlock<
        B,
        <<B::Input as BlockInput>::Keys as InputKeys<B::Input>>::ReaderType,
        <<B::Output as BlockOutput>::Keys as OutputKeys<B::Output>>::WriterType,
    >,
}

impl<B: BlockSpec> BlockEmbedding<B> {
    /// The package the block was woven from.
    pub closed spec fn package_spec(&self) -> BlockSerializationPackage<B> {
        self.package
    }

    /// The woven block.
    pub closed spec fn embedded_spec(&self) -> EncapsulatedBlock<
        B,
        <<B::Input as BlockInput>::Keys as InputKeys<B::Input>>::ReaderType,
        <<B::Output as BlockOutput>::Keys as OutputKeys<B::Output>>::WriterType,
    > {
        self.embedded
    }

    /// Weaves a copy of `package` against the registry: makes the reader of
    /// the block's input and the writer of its output, then the block from
    /// its parameters, in the stored state or its initial state; the first
    /// failure is returned: the reader's, else the writer's.
    pub fn new_from_package(
        package: &BlockSerializationPackage<B>,
        registry: &mut ChannelRegistry,
    ) -> (r: Result<Self, RegistryError>)
        ensures
            final(registry)@ == old(registry)@,
            r is Ok <==> package.input_keys.reader_ok(old(registry)@)
                && package.output_keys.writer_ok(old(registry)@),
            r matches Err(e) ==> if !package.input_keys.reader_ok(old(registry)@) {
                package.input_keys.reader_fails_with(old(registry)@, e)
            } else {
                package.output_keys.writer_fails_with(old(registry)@, e)
            },
            r matches Ok(e) ==> {
                &&& cloned(package.input_keys, e.package_spec().input_keys)
                &&& cloned(package.output_keys, e.package_spec().output_keys)
                &&& cloned(package.init_params, e.package_spec().init_params)
                &&& package.starts_in(e.embedded_spec().block, e.embedded_spec().state)
            },
    {
        let in_reader = package.input_keys.reader(registry)?;
        let out_writer = package.output_keys.writer(registry)?;
        let stored = match &package.state {
            Some(s) => Some(s.clone()),
            None => None,
        };
        let copy: BlockSerializationPackage<B> = BlockSerializationPackage {
            input_keys: package.input_keys.clone(),
            output_keys: package.output_keys.clone(),
            init_params: package.init_params.clone(),
            state: None,
        };
        let block = B::new_from_init_params(&copy.init_params);
        let mut embedded = EncapsulatedBlock::new(block, in_reader, out_writer);
        match stored {
            Some(s) => {
                embedded.state = s;
            },
            None => {},
        }
        Ok(BlockEmbedding { package: copy, embedded })
    }

    /// The package to store the block again: a copy of the keys and
    /// parameters it was woven from, with a copy of its current state.
    pub fn extract_package(&self) -> (r: BlockSerializationPackage<B>)
        ensures
            cloned(self.package_spec().input_keys, r.input_keys),
            cloned(self.package_spec().output_keys, r.output_keys),
            cloned(self.package_spec().init_params, r.init_params),
            r.state matches Some(s) && cloned(self.embedded_spec().state, s),
    {
        BlockSerializationPackage {
            input_keys: self.package.input_keys.clone(),
            output_keys: self.package.output_keys.clone(),
            init_params: self.package.init_params.clone(),
            state: Some(self.embedded.state.clone()),
        }
    }

    /// The block's identifier.
    pub fn block_id(&self) -> (r: u32)
        ensures
            r == self.embedded_spec().block.block_id_spec(),
    {
        self.embedded.block_id()
    }

    /// The contracts the block depends on.
    pub fn contract_deps(&self) -> (r: Vec<Contract>)
        ensures
            crate::execution::contract_names(r@)
                == self.embedded_spec().block.contract_deps_spec(),
    {
        self.embedded.contract_deps()
    }

    /// Executes the woven block once (see `EncapsulatedBlock::execute`); the
    /// package stays as it was.
    pub fn execute<E: EffectConsumerTrait>(
        &mut self,
        context: &ExecutionContext,
        registry: &mut ChannelRegistry,
        effects: &mut E,
    ) -> (r: Option<Vec<SlotIntent>>)
        ensures
            final(self).package_spec() == old(self).package_spec(),
            final(self).embedded_spec().block == old(self).embedded_spec().block,
            r is Some <==> old(self).embedded_spec().executes(
                *context,
                old(registry)@,
                |e: Effect| old(effects).accepts(e),
            ),
            r is None ==> {
                &&& final(self).embedded_spec().state == old(self).embedded_spec().state
                &&& final(registry)@ == old(registry)@
            },
            r matches Some(v) ==> old(self).embedded_spec().executes_to(
                *context,
                old(registry)@,
                |e: Effect| old(effects).accepts(e),
                final(self).embedded_spec(),
                final(registry)@,
                v@,
            ),
            r is Some ==> final(effects).scheduled() == old(effects).scheduled() + old(
                self,
            ).embedded_spec().effects_of(*context, old(registry)@),
            r is None ==> final(effects).scheduled() == old(effects).scheduled(),
    {
        self.embedded.execute(context, registry, effects)
    }
}

/// Weaving and extracting are inverses: a package embedded by
/// `new_from_package` and extracted again by `extract_package`, with no
/// execution between, is the package itself with the state the block started
/// in (the stored state, or the initial state where none was stored), for
/// keys, parameters and states whose clones equal them.
pub proof fn lemma_extract_inverts_embed<B: BlockSpec>(
    p: BlockSerializationPackage<B>,
    e: BlockEmbedding<B>,
    r: BlockSerializationPackage<B>,
)
    requires
        cloned(p.input_keys, e.package_spec().input_keys),
        cloned(p.output_keys, e.package_spec().output_keys),
        cloned(p.init_params, e.package_spec().init_params),
        p.starts_in(e.embedded_spec().block, e.embedded_spec().state),
        cloned(e.package_spec().input_keys, r.input_keys),
        cloned(e.package_spec().output_keys, r.output_keys),
        cloned(e.package_spec().init_params, r.init_params),
        r.state matches Some(s) && cloned(e.embedded_spec().state, s),
        forall|a: <B::Input as BlockInput>::Keys, b: <B::Input as BlockInput>::Keys|
            #[trigger] cloned(a, b) ==> a == b,
        forall|a: <B::Output as BlockOutput>::Keys, b: <B::Output as BlockOutput>::Keys|
            #[trigger] cloned(a, b) ==> a == b,
        forall|a: B::InitParameters, b: B::InitParameters| #[trigger] cloned(a, b) ==> a == b,
        forall|a: B::State, b: B::State| #[trigger] cloned(a, b) ==> a == b,
    ensures
        r.input_keys == p.input_keys,
        r.output_keys == p.output_keys,
        r.init_params == p.init_params,
        r.state == Some(
            match p.state {
                Some(x) => x,
                None => e.embedded_spec().block.init_state_spec(),
            },
        ),
{
}

impl<B: BlockSpec> EmbeddedNode<BlockSerializationPackage<B>> for BlockEmbedding<B> {
    fn extract_package(&self) -> BlockSerializationPackage<B> {
        BlockEmbedding::<B>::extract_package(self)
    }
}

impl<B: BlockSpec> WeaveNode<BlockEmbedding<B>> for BlockSerializationPackage<B> {
    open spec fn input_names(&self) -> Seq<Seq<char>> {
        self.input_keys.channel_names_spec()
    }

    open spec fn output_names(&self) -> Seq<Seq<char>> {
        self.output_keys.channel_names_spec()
    }

    fn input_channels(&self) -> (r: Vec<String>) {
        self.input_keys.channel_names()
    }

    fn output_channels(&self) -> (r: Vec<String>) {
        self.output_keys.channel_names()
    }

    open spec fn register_ok(&self, channels: Map<Seq<char>, ChannelValue>) -> bool {
        self.output_keys.register_ok(channels)
    }

    open spec fn registered(&self, channels: Map<Seq<char>, ChannelValue>) -> Map<
        Seq<char>,
        ChannelValue,
    > {
        self.output_keys.registered(channels)
    }

    open spec fn weave_ok(&self, channels: Map<Seq<char>, ChannelValue>) -> bool {
        BlockSerializationPackage::<B>::weave_ok(self, channels)
    }

    open spec fn woven(&self, channels: Map<Seq<char>, ChannelValue>) -> Map<
        Seq<char>,
        ChannelValue,
    > {
        self.output_keys.registered(channels)
    }

    /// A copy of the package with its block in the initial state.
    open spec fn weaves_to(
        &self,
        channels: Map<Seq<char>, ChannelValue>,
        woven: BlockEmbedding<B>,
    ) -> bool {
        &&& cloned(self.input_keys, woven.package_spec().input_keys)
        &&& cloned(self.output_keys, woven.package_spec().output_keys)
        &&& cloned(self.init_params, woven.package_spec().init_params)
        &&& self.starts_in(woven.embedded_spec().block, woven.embedded_spec().state)
    }

    fn register_channels(&self, channels: &mut ChannelRegistry) -> (r: Result<(), RegistryError>) {
        self.output_keys.register(channels)
    }

    /// Registers the output channels, then embeds a copy of the package.
    fn weave(&self, channels: &mut ChannelRegistry) -> (r: Result<BlockEmbedding<B>, RegistryError>)
        ensures
            r matches Ok(e) ==> {
                &&& cloned(self.input_keys, e.package_spec().input_keys)
                &&& cloned(self.output_keys, e.package_spec().output_keys)
                &&& cloned(self.init_params, e.package_spec().init_params)
                &&& self.starts_in(e.embedded_spec().block, e.embedded_spec().state)
            },
    {
        self.output_keys.register(channels)?;
        BlockEmbedding::new_from_package(self, channels)
    }
}

impl<B: BlockSpec> NodePackage<BlockEmbedding<B>> for BlockSerializationPackage<B> {
}

impl<B: BlockSpec> ContractDeps for BlockEmbedding<B> {
    closed spec fn contract_deps_spec(&self) -> Seq<Seq<char>> {
        self.embedded.block.contract_deps_spec()
    }

    fn contract_deps(&self) -> (r: Vec<Contract>) {
        self.embedded.contract_deps()
    }
}

} // verus!
