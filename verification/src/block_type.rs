//! The kinds of blocks an algorithm can be built from, before and after
//! weaving.
use vstd::prelude::*;

use crate::after_block;
use crate::after_block::AfterBlock;
use crate::block_spec::{BlockPackage, BlockSpec, EncapsulatedBlock};
use crate::channel_keys::{ChannelKeys, OutputKeys, Reader, Writer};
use crate::delete_block;
use crate::delete_block::DeleteBlock;
use crate::errors::RegistryError;
use crate::execution::{contract_names, ContractDeps, EffectConsumerTrait, ExecutionContext};
use crate::intents::{BlockIntents, SlotId, SlotIntent};
use crate::effects::Effect;
use crate::registry::{ChannelRegistry, ChannelValue};
use crate::simple_order_block;
use crate::simple_order_block::SimpleOrderBlock;
use crate::trade_types::Contract;
use crate::weave::WeaveNode;

verus! {

/// A block of one of the known kinds, as stored before weaving.
pub enum BlockType {
    After(BlockPackage<AfterBlock>),
    Delete(BlockPackage<DeleteBlock>),
    SimpleOrder(BlockPackage<SimpleOrderBlock>),
}

/// A woven block of one of the known kinds.
pub enum Block {
    After(EncapsulatedBlock<AfterBlock, after_block::InputReader, after_block::OutputWriter>),
    Delete(EncapsulatedBlock<DeleteBlock, delete_block::InputReader, delete_block::OutputWriter>),
    SimpleOrder(
        EncapsulatedBlock<
            SimpleOrderBlock,
            simple_order_block::InputReader,
            simple_order_block::OutputWriter,
        >,
    ),
}

/// Every slot intent of `v` is in slot `k` of block `block_id`, where `k` is
/// its position.
pub open spec fn slotted(v: Seq<SlotIntent>, block_id: u32) -> bool {
    forall|k: int|
        0 <= k < v.len() ==> (#[trigger] v[k]).slot_id == (SlotId {
            block_id,
            slot_index: k as usize,
        })
}

impl Block {
    /// The block's identifier.
    pub open spec fn block_id_spec(&self) -> u32 {
        match self {
            Block::After(b) => b.block.block_id_spec(),
            Block::Delete(b) => b.block.block_id_spec(),
            Block::SimpleOrder(b) => b.block.block_id_spec(),
        }
    }

    /// The block's identifier.
    pub fn block_id(&self) -> (r: u32)
        ensures
            r == self.block_id_spec(),
    {
        match self {
            Block::After(b) => b.block_id(),
            Block::Delete(b) => b.block_id(),
            Block::SimpleOrder(b) => b.block_id(),
        }
    }

    /// The number of intents one execution of the block produces.
    pub open spec fn num_intents_spec(&self) -> nat {
        match self {
            Block::After(_) => 0,
            Block::Delete(_) => 0,
            Block::SimpleOrder(_) => 1,
        }
    }

    /// The number of intents one execution of the block produces.
    pub fn num_intents(&self) -> (r: usize)
        ensures
            r == self.num_intents_spec(),
    {
        match self {
            Block::After(_) => 0,
            Block::Delete(_) => 0,
            Block::SimpleOrder(_) => 1,
        }
    }

    /// Whether executing once succeeds against channels `channels`, where
    /// `accepts` says which effects the effect consumer takes (see
    /// `EncapsulatedBlock::executes`).
    pub open spec fn executes(
        &self,
        context: ExecutionContext,
        channels: Map<Seq<char>, ChannelValue>,
        accepts: spec_fn(Effect) -> bool,
    ) -> bool {
        match self {
            Block::After(b) => b.executes(context, channels, accepts),
            Block::Delete(b) => b.executes(context, channels, accepts),
            Block::SimpleOrder(b) => b.executes(context, channels, accepts),
        }
    }

    /// Whether executing once against channels `channels` can succeed
    /// turning this block into `after` and the channels into `channels2`,
    /// with slot intents `v` (see `EncapsulatedBlock::executes_to`): the block
    /// keeps its kind.
    pub open spec fn executes_to(
        &self,
        context: ExecutionContext,
        channels: Map<Seq<char>, ChannelValue>,
        accepts: spec_fn(Effect) -> bool,
        after: Block,
        channels2: Map<Seq<char>, ChannelValue>,
        v: Seq<SlotIntent>,
    ) -> bool {
        match (self, after) {
            (Block::After(b), Block::After(a)) => b.executes_to(
                context,
                channels,
                accepts,
                a,
                channels2,
                v,
            ),
            (Block::Delete(b), Block::Delete(a)) => b.executes_to(
                context,
                channels,
                accepts,
                a,
                channels2,
                v,
            ),
            (Block::SimpleOrder(b), Block::SimpleOrder(a)) => b.executes_to(
                context,
                channels,
                accepts,
                a,
                channels2,
                v,
            ),
            _ => false,
        }
    }

    /// The effects that executing once against channels `channels` schedules
    /// where it succeeds (see `EncapsulatedBlock::effects_of`).
    pub open spec fn effects_of(
        &self,
        context: ExecutionContext,
        channels: Map<Seq<char>, ChannelValue>,
    ) -> Seq<Effect> {
        match self {
            Block::After(b) => b.effects_of(context, channels),
            Block::Delete(b) => b.effects_of(context, channels),
            Block::SimpleOrder(b) => b.effects_of(context, channels),
        }
    }

    /// Executes the block once against the registry (see
    /// `EncapsulatedBlock::execute`): where it fails nothing changes and no
    /// effect is scheduled; where it succeeds its intents come back in its
    /// slots and its effects are scheduled.
    pub fn execute<E: EffectConsumerTrait>(
        &mut self,
        context: &ExecutionContext,
        registry: &mut ChannelRegistry,
        effects: &mut E,
    ) -> (r: Option<Vec<SlotIntent>>)
        ensures
            final(self).block_id_spec() == old(self).block_id_spec(),
            final(self).contract_deps_spec() == old(self).contract_deps_spec(),
            final(self).num_intents_spec() == old(self).num_intents_spec(),
            r is Some <==> old(self).executes(
                *context,
                old(registry)@,
                |e: Effect| old(effects).accepts(e),
            ),
            r is None ==> *final(self) == *old(self) && final(registry)@ == old(registry)@,
            r matches Some(v) ==> slotted(v@, old(self).block_id_spec()),
            r matches Some(v) ==> old(self).executes_to(
                *context,
                old(registry)@,
                |e: Effect| old(effects).accepts(e),
                *final(self),
                final(registry)@,
                v@,
            ),
            r is Some ==> final(effects).scheduled() == old(effects).scheduled() + old(
                self,
            ).effects_of(*context, old(registry)@),
            r is None ==> final(effects).scheduled() == old(effects).scheduled(),
    {
        match self {
            Block::After(b) => b.execute(context, registry, effects),
            Block::Delete(b) => b.execute(context, registry, effects),
            Block::SimpleOrder(b) => b.execute(context, registry, effects),
        }
    }
}

impl ContractDeps for Block {
    /// The names of the contracts the block depends on.
    open spec fn contract_deps_spec(&self) -> Seq<Seq<char>> {
        match self {
            Block::After(b) => b.block.contract_deps_spec(),
            Block::Delete(b) => b.block.contract_deps_spec(),
            Block::SimpleOrder(b) => b.block.contract_deps_spec(),
        }
    }

    /// The contracts the block depends on.
    fn contract_deps(&self) -> (r: Vec<Contract>) {
        match self {
            Block::After(b) => b.contract_deps(),
            Block::Delete(b) => b.contract_deps(),
            Block::SimpleOrder(b) => b.contract_deps(),
        }
    }
}

/// What a woven block offers to the code that runs it.
pub trait BlockExecuteTrait: ContractDeps {
    /// Executes the block once against the registry.
    fn execute<E: EffectConsumerTrait>(
        &mut self,
        context: &ExecutionContext,
        registry: &mut ChannelRegistry,
        effects: &mut E,
    ) -> Option<Vec<SlotIntent>>;
}

/// A woven block that can also be identified by its ID.
pub trait BlockTrait: BlockExecuteTrait {
    fn block_id(&self) -> u32;
}

impl BlockExecuteTrait for Block {
    fn execute<E: EffectConsumerTrait>(
        &mut self,
        context: &ExecutionContext,
        registry: &mut ChannelRegistry,
        effects: &mut E,
    ) -> (r: Option<Vec<SlotIntent>>)
        ensures
            final(self).block_id_spec() == old(self).block_id_spec(),
            r is Some <==> old(self).executes(
                *context,
                old(registry)@,
                |e: Effect| old(effects).accepts(e),
            ),
            r is None ==> *final(self) == *old(self) && final(registry)@ == old(registry)@,
            r matches Some(v) ==> slotted(v@, old(self).block_id_spec()),
            r matches Some(v) ==> old(self).executes_to(
                *context,
                old(registry)@,
                |e: Effect| old(effects).accepts(e),
                *final(self),
                final(registry)@,
                v@,
            ),
            r is Some ==> final(effects).scheduled() == old(effects).scheduled() + old(
                self,
            ).effects_of(*context, old(registry)@),
            r is None ==> final(effects).scheduled() == old(effects).scheduled(),
    {
        Block::execute(self, context, registry, effects)
    }
}

impl BlockTrait for Block {
    fn block_id(&self) -> (r: u32)
        ensures
            r == self.block_id_spec(),
    {
        Block::block_id(self)
    }
}

/// A woven block as an algorithm runs it.
pub struct ExecuteBlock(pub Block);

impl ExecuteBlock {
    /// Wraps a woven block.
    pub fn new(block: Block) -> (r: ExecuteBlock)
        ensures
            r.0 == block,
    {
        ExecuteBlock(block)
    }
}

impl ContractDeps for ExecuteBlock {
    open spec fn contract_deps_spec(&self) -> Seq<Seq<char>> {
        self.0.contract_deps_spec()
    }

    fn contract_deps(&self) -> (r: Vec<Contract>) {
        self.0.contract_deps()
    }
}

impl BlockExecuteTrait for ExecuteBlock {
    fn execute<E: EffectConsumerTrait>(
        &mut self,
        context: &ExecutionContext,
        registry: &mut ChannelRegistry,
        effects: &mut E,
    ) -> (r: Option<Vec<SlotIntent>>)
        ensures
            final(self).0.block_id_spec() == old(self).0.block_id_spec(),
            r is Some <==> old(self).0.executes(
                *context,
                old(registry)@,
                |e: Effect| old(effects).accepts(e),
            ),
            r is None ==> *final(self) == *old(self) && final(registry)@ == old(registry)@,
            r matches Some(v) ==> slotted(v@, old(self).0.block_id_spec()),
            r matches Some(v) ==> old(self).0.executes_to(
                *context,
                old(registry)@,
                |e: Effect| old(effects).accepts(e),
                final(self).0,
                final(registry)@,
                v@,
            ),
            r is Some ==> final(effects).scheduled() == old(effects).scheduled() + old(
                self,
            ).0.effects_of(*context, old(registry)@),
            r is None ==> final(effects).scheduled() == old(effects).scheduled(),
    {
        self.0.execute(context, registry, effects)
    }
}

impl WeaveNode<Block> for BlockType {
    open spec fn input_names(&self) -> Seq<Seq<char>> {
        match self {
            BlockType::After(p) => p.input_keys.channel_names_spec(),
            BlockType::Delete(p) => p.input_keys.channel_names_spec(),
            BlockType::SimpleOrder(p) => p.input_keys.channel_names_spec(),
        }
    }

    open spec fn output_names(&self) -> Seq<Seq<char>> {
        match self {
            BlockType::After(p) => p.output_keys.channel_names_spec(),
            BlockType::Delete(p) => p.output_keys.channel_names_spec(),
            BlockType::SimpleOrder(p) => p.output_keys.channel_names_spec(),
        }
    }

    fn input_channels(&self) -> (r: Vec<String>) {
        match self {
            BlockType::After(p) => p.input_keys.channel_names(),
            BlockType::Delete(p) => p.input_keys.channel_names(),
            BlockType::SimpleOrder(p) => p.input_keys.channel_names(),
        }
    }

    fn output_channels(&self) -> (r: Vec<String>) {
        match self {
            BlockType::After(p) => p.output_keys.channel_names(),
            BlockType::Delete(p) => p.output_keys.channel_names(),
            BlockType::SimpleOrder(p) => p.output_keys.channel_names(),
        }
    }

    open spec fn register_ok(&self, channels: Map<Seq<char>, ChannelValue>) -> bool {
        match self {
            BlockType::After(p) => p.output_keys.register_ok(channels),
            BlockType::Delete(p) => p.output_keys.register_ok(channels),
            BlockType::SimpleOrder(p) => p.output_keys.register_ok(channels),
        }
    }

    open spec fn registered(&self, channels: Map<Seq<char>, ChannelValue>) -> Map<
        Seq<char>,
        ChannelValue,
    > {
        match self {
            BlockType::After(p) => p.output_keys.registered(channels),
            BlockType::Delete(p) => p.output_keys.registered(channels),
            BlockType::SimpleOrder(p) => p.output_keys.registered(channels),
        }
    }

    open spec fn weave_ok(&self, channels: Map<Seq<char>, ChannelValue>) -> bool {
        match self {
            BlockType::After(p) => p.weave_ok(channels),
            BlockType::Delete(p) => p.weave_ok(channels),
            BlockType::SimpleOrder(p) => p.weave_ok(channels),
        }
    }

    open spec fn woven(&self, channels: Map<Seq<char>, ChannelValue>) -> Map<
        Seq<char>,
        ChannelValue,
    > {
        match self {
            BlockType::After(p) => p.output_keys.registered(channels),
            BlockType::Delete(p) => p.output_keys.registered(channels),
            BlockType::SimpleOrder(p) => p.output_keys.registered(channels),
        }
    }

    /// A block of the package's kind, in the state the package stores or its
    /// initial state.
    open spec fn weaves_to(&self, channels: Map<Seq<char>, ChannelValue>, woven: Block) -> bool {
        match (self, woven) {
            (BlockType::After(p), Block::After(e)) => p.starts_in(e.block, e.state),
            (BlockType::Delete(p), Block::Delete(e)) => p.starts_in(e.block, e.state),
            (BlockType::SimpleOrder(p), Block::SimpleOrder(e)) => p.starts_in(e.block, e.state),
            _ => false,
        }
    }

    fn register_channels(&self, channels: &mut ChannelRegistry) -> (r: Result<(), RegistryError>) {
        match self {
            BlockType::After(p) => p.output_keys.register(channels),
            BlockType::Delete(p) => p.output_keys.register(channels),
            BlockType::SimpleOrder(p) => p.output_keys.register(channels),
        }
    }

    /// Builds the block of the package's kind (see `weave_block`).
    fn weave(&self, channels: &mut ChannelRegistry) -> (r: Result<Block, RegistryError>)
        ensures
            r matches Ok(b) ==> match (self, b) {
                (BlockType::After(p), Block::After(e)) => p.starts_in(e.block, e.state),
                (BlockType::Delete(p), Block::Delete(e)) => p.starts_in(e.block, e.state),
                (BlockType::SimpleOrder(p), Block::SimpleOrder(e)) => p.starts_in(
                    e.block,
                    e.state,
                ),
                _ => false,
            },
    {
        match self {
            BlockType::After(p) => Ok(Block::After(p.weave_block(channels)?)),
            BlockType::Delete(p) => Ok(Block::Delete(p.weave_block(channels)?)),
            BlockType::SimpleOrder(p) => Ok(Block::SimpleOrder(p.weave_block(channels)?)),
        }
    }
}

/// A block's execution hands back exactly as many slot intents as the block
/// has intents, one per slot, in slot order.
pub proof fn lemma_block_intents_count(
    b: Block,
    context: ExecutionContext,
    channels: Map<Seq<char>, ChannelValue>,
    accepts: spec_fn(Effect) -> bool,
    after: Block,
    channels2: Map<Seq<char>, ChannelValue>,
    v: Seq<SlotIntent>,
)
    requires
        b.executes_to(context, channels, accepts, after, channels2, v),
    ensures
        v.len() == b.num_intents_spec(),
        slotted(v, b.block_id_spec()),
{
    match (b, after) {
        (Block::After(x), Block::After(a)) => {
            let (o, s, i) = choose|o: after_block::Output, s: after_block::State, i: crate::intents::ZeroIntents|
                {
                    &&& x.input_reader.read_spec(channels) is Some
                    &&& #[trigger] x.block.steps_to(
                        context,
                        x.input_reader.read_spec(channels)->0,
                        x.state,
                        accepts,
                        Some((o, s, i)),
                    )
                    &&& a.block == x.block
                    &&& a.input_reader == x.input_reader
                    &&& a.output_writer == x.output_writer
                    &&& a.state == s
                    &&& channels2 == x.output_writer.write_spec(channels, o)
                    &&& v == crate::intents::slot_intents_of(i.intents_spec(), x.block.block_id_spec())
                };
        },
        (Block::Delete(x), Block::Delete(a)) => {
            let (o, s, i) = choose|o: delete_block::Output, s: delete_block::State, i: crate::intents::ZeroIntents|
                {
                    &&& x.input_reader.read_spec(channels) is Some
                    &&& #[trigger] x.block.steps_to(
                        context,
                        x.input_reader.read_spec(channels)->0,
                        x.state,
                        accepts,
                        Some((o, s, i)),
                    )
                    &&& a.block == x.block
                    &&& a.input_reader == x.input_reader
                    &&& a.output_writer == x.output_writer
                    &&& a.state == s
                    &&& channels2 == x.output_writer.write_spec(channels, o)
                    &&& v == crate::intents::slot_intents_of(i.intents_spec(), x.block.block_id_spec())
                };
        },
        (Block::SimpleOrder(x), Block::SimpleOrder(a)) => {
            let (o, s, i) = choose|o: simple_order_block::Output, s: simple_order_block::State, i: crate::intents::OneIntent|
                {
                    &&& x.input_reader.read_spec(channels) is Some
                    &&& #[trigger] x.block.steps_to(
                        context,
                        x.input_reader.read_spec(channels)->0,
                        x.state,
                        accepts,
                        Some((o, s, i)),
                    )
                    &&& a.block == x.block
                    &&& a.input_reader == x.input_reader
                    &&& a.output_writer == x.output_writer
                    &&& a.state == s
                    &&& channels2 == x.output_writer.write_spec(channels, o)
                    &&& v == crate::intents::slot_intents_of(i.intents_spec(), x.block.block_id_spec())
                };
        },
        _ => {},
    }
}

} // verus!
