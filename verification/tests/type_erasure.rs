use block_weave::actor::EffectConsumer;
use block_weave::block_spec::{
    BlockEmbedding, BlockInput, BlockOutput, BlockSerialisation, BlockSerializationPackage,
    BlockSpec, BlockSpecAssociatedTypes, EmbeddedNode, EncapsulatedBlock,
};
use block_weave::channel_keys::{ChannelKeys, InputKeys, OutputKeys, Reader, Writer};
use block_weave::errors::RegistryError;
use block_weave::execution::{ContractDeps, EffectConsumerTrait, ExecutionContext};
use block_weave::intents::ZeroIntents;
use block_weave::registry::ChannelRegistry;
use block_weave::trade_types::Contract;
use block_weave::weave::WeaveNode;

#[derive(Clone, Debug, PartialEq)]
pub struct Input {
    pub x: i32,
}

#[derive(Clone, Debug, PartialEq)]
pub struct Output {
    pub y: i32,
}

#[derive(Clone, Debug, PartialEq)]
pub struct State;

#[derive(Clone, Debug, PartialEq)]
pub struct InitParams {
    pub multiplier: i32,
}

impl ContractDeps for InitParams {
    fn contract_deps(&self) -> Vec<Contract> {
        Vec::new()
    }
}

#[derive(Clone, Debug, PartialEq)]
pub struct TestInputKeys {
    pub x: String,
}

#[derive(Clone, Debug, PartialEq)]
pub struct TestOutputKeys {
    pub y: String,
}

pub struct TestReader {
    x: String,
}

pub struct TestWriter {
    y: String,
}

impl ChannelKeys for TestInputKeys {
    fn channel_names(&self) -> Vec<String> {
        vec![self.x.clone()]
    }
}

impl ChannelKeys for TestOutputKeys {
    fn channel_names(&self) -> Vec<String> {
        vec![self.y.clone()]
    }
}

impl Reader<Input> for TestReader {
    fn read(&self, registry: &ChannelRegistry) -> Option<Input> {
        registry.get::<i32>(&self.x).ok().map(|x| Input { x })
    }
}

impl Writer<Output> for TestWriter {
    fn write(&self, registry: &mut ChannelRegistry, value: &Output) {
        registry.put(&self.y, value.y);
    }
}

impl InputKeys<Input> for TestInputKeys {
    type ReaderType = TestReader;

    fn reader(&self, registry: &ChannelRegistry) -> Result<TestReader, RegistryError> {
        registry.get::<i32>(&self.x)?;
        Ok(TestReader { x: self.x.clone() })
    }
}

impl OutputKeys<Output> for TestOutputKeys {
    type WriterType = TestWriter;

    fn writer(&self, registry: &ChannelRegistry) -> Result<TestWriter, RegistryError> {
        registry.get::<i32>(&self.y)?;
        Ok(TestWriter { y: self.y.clone() })
    }

    fn register(&self, registry: &mut ChannelRegistry) -> Result<(), RegistryError> {
        registry.ensure::<i32>(&self.y).map(|_| ())
    }
}

impl BlockInput for Input {
    type Keys = TestInputKeys;
}

impl BlockOutput for Output {
    type Keys = TestOutputKeys;
}

/// Multiplies its input by its multiplier.
pub struct TestBlock {
    pub block_id: u32,
    pub multiplier: i32,
}

impl BlockSpecAssociatedTypes for TestBlock {
    type Input = Input;
    type Output = Output;
    type State = State;
    type InitParameters = InitParams;
    type Intents = ZeroIntents;
}

impl ContractDeps for TestBlock {
    fn contract_deps(&self) -> Vec<Contract> {
        Vec::new()
    }
}

impl BlockSpec for TestBlock {
    fn block_id(&self) -> u32 {
        self.block_id
    }

    fn init_state(&self) -> State {
        State
    }

    fn new_from_init_params(params: &InitParams) -> Self {
        TestBlock {
            block_id: 77,
            multiplier: params.multiplier,
        }
    }

    fn execute<E: EffectConsumerTrait>(
        &self,
        _context: &ExecutionContext,
        input: Input,
        _state: &State,
        _effects: &mut E,
    ) -> Option<(Output, State, ZeroIntents)> {
        Some((
            Output {
                y: input.x * self.multiplier,
            },
            State,
            ZeroIntents::new(),
        ))
    }
}

fn input_keys(name: &str) -> TestInputKeys {
    TestInputKeys {
        x: name.to_string(),
    }
}

fn output_keys(name: &str) -> TestOutputKeys {
    TestOutputKeys {
        y: name.to_string(),
    }
}

fn effects() -> EffectConsumer {
    EffectConsumer::new(Vec::new())
}

fn doubler(block_id: u32) -> TestBlock {
    TestBlock {
        block_id,
        multiplier: 2,
    }
}

#[test]
fn type_erasure_encapsulated_block_new_initializes_state() {
    let block = doubler(1);
    let mut registry = ChannelRegistry::new();

    let in_keys = input_keys("in");
    let out_keys = output_keys("out");

    assert!(out_keys.register(&mut registry).is_ok());

    registry.put("in", 0i32);

    let reader = in_keys.reader(&registry).unwrap();
    let writer = out_keys.writer(&registry).unwrap();

    let enc = EncapsulatedBlock::new(block, reader, writer);
    assert_eq!(enc.state, State);
}

#[test]
fn type_erasure_type_erased_block_execute_writes_output_and_returns_intents() {
    let block = doubler(42);
    let mut registry = ChannelRegistry::new();

    registry.put("in", 10i32);

    let in_keys = input_keys("in");
    let out_keys = output_keys("out");

    assert!(out_keys.register(&mut registry).is_ok());

    let reader = in_keys.reader(&registry).unwrap();
    let writer = out_keys.writer(&registry).unwrap();

    let mut enc = EncapsulatedBlock::new(block, reader, writer);
    let ctx = ExecutionContext { time: 0 };

    let intents = enc.execute(&ctx, &mut registry, &mut effects()).unwrap();
    assert_eq!(enc.block_id(), 42);
    assert!(intents.is_empty());

    assert_eq!(registry.get::<i32>("out").unwrap(), 20);
}

#[test]
fn type_erasure_block_wrapper_delegates_correctly() {
    let block = doubler(99);
    let mut registry = ChannelRegistry::new();

    registry.put("in", 3i32);

    let in_keys = input_keys("in");
    let out_keys = output_keys("out");

    assert!(out_keys.register(&mut registry).is_ok());

    let reader = in_keys.reader(&registry).unwrap();
    let writer = out_keys.writer(&registry).unwrap();

    let mut block = EncapsulatedBlock::new(block, reader, writer);

    let ctx = ExecutionContext { time: 1 };

    assert_eq!(block.block_id(), 99);

    block.execute(&ctx, &mut registry, &mut effects());

    assert_eq!(registry.get::<i32>("out").unwrap(), 6);
}

#[test]
fn state_is_updated_across_multiple_executes() {
    let block = doubler(5);
    let mut registry = ChannelRegistry::new();

    registry.put("in", 4i32);

    let in_keys = input_keys("in");
    let out_keys = output_keys("out");

    assert!(out_keys.register(&mut registry).is_ok());

    let reader = in_keys.reader(&registry).unwrap();
    let writer = out_keys.writer(&registry).unwrap();

    let mut enc = EncapsulatedBlock::new(block, reader, writer);
    let ctx = ExecutionContext { time: 0 };

    enc.execute(&ctx, &mut registry, &mut effects());
    enc.execute(&ctx, &mut registry, &mut effects());

    assert_eq!(registry.get::<i32>("out").unwrap(), 8);
}

fn package(input: &str, output: &str, multiplier: i32) -> BlockSerializationPackage<TestBlock> {
    BlockSerializationPackage::<TestBlock>::new(
        input_keys(input),
        output_keys(output),
        InitParams { multiplier },
    )
}

#[test]
fn embed_encapsulated_block_new_initializes_state() {
    let mut registry = ChannelRegistry::new();

    let out_keys = output_keys("out");
    assert!(out_keys.register(&mut registry).is_ok());
    registry.put("in", 0i32);

    let pkg = package("in", "out", 2);
    let enc: BlockEmbedding<TestBlock> = pkg.weave(&mut registry).unwrap();
    assert_eq!(enc.block_id(), 77);
}

#[test]
fn embed_type_erased_block_execute_writes_output_and_returns_intents() {
    let mut registry = ChannelRegistry::new();
    registry.put("in", 10i32);

    let pkg = package("in", "out", 2);
    let mut enc: BlockEmbedding<TestBlock> = pkg.weave(&mut registry).unwrap();
    let ctx = ExecutionContext { time: 0 };

    let intents = enc.execute(&ctx, &mut registry, &mut effects()).unwrap();
    assert!(intents.is_empty());

    assert_eq!(registry.get::<i32>("out").unwrap(), 20);
}

#[test]
fn embed_block_wrapper_delegates_correctly() {
    let mut registry = ChannelRegistry::new();
    registry.put("in", 3i32);

    let pkg = package("in", "out", 2);
    let mut enc: BlockEmbedding<TestBlock> = pkg.weave(&mut registry).unwrap();
    let ctx = ExecutionContext { time: 1 };

    enc.execute(&ctx, &mut registry, &mut effects());

    assert_eq!(registry.get::<i32>("out").unwrap(), 6);
}

#[test]
fn package_new_smoke_and_channel_lists() {
    let pkg = package("in", "out", 3);

    assert_eq!(pkg.init_params.multiplier, 3);
    assert_eq!(pkg.input_channels(), vec!["in".to_string()]);
    assert_eq!(pkg.output_channels(), vec!["out".to_string()]);
}

#[test]
fn weave_node_channel_lists_are_correct_for_arbitrary_names() {
    let pkg = package("input_chan", "output_chan", 2);

    assert_eq!(pkg.input_channels(), vec!["input_chan".to_string()]);
    assert_eq!(pkg.output_channels(), vec!["output_chan".to_string()]);
}

#[test]
fn weave_returns_error_when_input_channel_is_missing() {
    let pkg = package("missing_input", "out", 10);

    let mut registry = ChannelRegistry::new();
    let res = pkg.weave(&mut registry);

    assert!(res.is_err());
}

#[test]
fn extract_package_gives_back_the_woven_package() {
    let mut registry = ChannelRegistry::new();
    registry.put("in", 1i32);

    let pkg = package("in", "out", 5);
    let enc: BlockEmbedding<TestBlock> = pkg.weave(&mut registry).unwrap();
    let back = enc.extract_package();
    assert_eq!(back.input_keys, pkg.input_keys);
    assert_eq!(back.output_keys, pkg.output_keys);
    assert_eq!(back.init_params, pkg.init_params);

    let through_trait: BlockSerializationPackage<TestBlock> = EmbeddedNode::extract_package(&enc);
    assert_eq!(through_trait.init_params, InitParams { multiplier: 5 });
}

#[test]
fn new_node_builds_the_package() {
    let pkg = BlockSerialisation::new_node::<TestBlock>(
        input_keys("a"),
        output_keys("b"),
        InitParams { multiplier: 4 },
    );
    assert_eq!(pkg.input_keys, input_keys("a"));
    assert_eq!(pkg.output_keys, output_keys("b"));
    assert_eq!(pkg.init_params, InitParams { multiplier: 4 });
}

#[test]
fn weave_block_registers_outputs_and_starts_in_initial_state() {
    let mut registry = ChannelRegistry::new();
    registry.put("in", 7i32);

    let pkg = package("in", "out", 3);
    assert!(!registry.has("out"));
    let mut enc = pkg.weave_block(&mut registry).unwrap();
    assert!(registry.has("out"));
    assert_eq!(enc.state, State);
    enc.execute(&ExecutionContext::new(0), &mut registry, &mut effects());
    assert_eq!(registry.get::<i32>("out").unwrap(), 21);
}
