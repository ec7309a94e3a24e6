use std::cell::RefCell;

use block_weave::actor::EffectConsumer;
use block_weave::block_spec::{
    BlockInput, BlockOutput, BlockSpec, BlockSpecAssociatedTypes, EmptyContractDepsTag,
    EncapsulatedBlock,
};
use block_weave::channel_keys::{ChannelKeys, InputKeys, OutputKeys, Reader, Writer};
use block_weave::errors::RegistryError;
use block_weave::execution::{ContractDeps, EffectConsumerTrait, ExecutionContext};
use block_weave::intents::ZeroIntents;
use block_weave::registry::ChannelRegistry;
use block_weave::trade_types::Contract;

#[derive(Clone)]
pub struct DoublerInitParams;
impl ContractDeps for DoublerInitParams {
    fn contract_deps(&self) -> Vec<Contract> {
        Vec::new()
    }
}

#[derive(Clone)]
pub struct AccumulatorInitParams;
impl ContractDeps for AccumulatorInitParams {
    fn contract_deps(&self) -> Vec<Contract> {
        Vec::new()
    }
}

#[derive(Clone, Debug, PartialEq)]
pub struct TestInput {
    pub value: i32,
}

#[derive(Clone, Debug, PartialEq)]
pub struct TestOutput {
    pub result: i32,
}

#[derive(Clone, Debug, PartialEq)]
pub struct TestState {
    pub acc: i32,
}

#[derive(Debug, Clone)]
pub struct TestInputKeys {
    pub value: String,
}

#[derive(Debug, Clone)]
pub struct TestOutputKeys;

pub struct MockReader<T> {
    pub data: T,
}

impl<T: Clone> Reader<T> for MockReader<T> {
    fn read(&self, _registry: &ChannelRegistry) -> Option<T> {
        Some(self.data.clone())
    }
}

pub struct MockWriter<T> {
    pub written: RefCell<Option<T>>,
}

impl<T: Clone> Writer<T> for MockWriter<T> {
    fn write(&self, _registry: &mut ChannelRegistry, data: &T) {
        *self.written.borrow_mut() = Some(data.clone());
    }
}

impl ChannelKeys for TestInputKeys {
    fn channel_names(&self) -> Vec<String> {
        vec![self.value.clone()]
    }
}

impl InputKeys<TestInput> for TestInputKeys {
    type ReaderType = MockReader<TestInput>;

    fn reader(&self, _registry: &ChannelRegistry) -> Result<Self::ReaderType, RegistryError> {
        Ok(MockReader {
            data: TestInput { value: 0 },
        })
    }
}

impl ChannelKeys for TestOutputKeys {
    fn channel_names(&self) -> Vec<String> {
        vec![]
    }
}

impl OutputKeys<TestOutput> for TestOutputKeys {
    type WriterType = MockWriter<TestOutput>;

    fn writer(&self, _registry: &ChannelRegistry) -> Result<Self::WriterType, RegistryError> {
        Ok(MockWriter {
            written: RefCell::new(None),
        })
    }

    fn register(&self, _registry: &mut ChannelRegistry) -> Result<(), RegistryError> {
        Ok(())
    }
}

impl BlockInput for TestInput {
    type Keys = TestInputKeys;
}

impl BlockOutput for TestOutput {
    type Keys = TestOutputKeys;
}

/// Doubles its input and counts its executions.
pub struct DoublerBlock;

impl BlockSpecAssociatedTypes for DoublerBlock {
    type Input = TestInput;
    type Output = TestOutput;
    type State = TestState;
    type InitParameters = DoublerInitParams;
    type Intents = ZeroIntents;
}

impl EmptyContractDepsTag for DoublerBlock {}

impl BlockSpec for DoublerBlock {
    fn block_id(&self) -> u32 {
        8765
    }

    fn init_state(&self) -> TestState {
        TestState { acc: 0 }
    }

    fn new_from_init_params(_params: &DoublerInitParams) -> Self {
        DoublerBlock
    }

    fn execute<E: EffectConsumerTrait>(
        &self,
        _context: &ExecutionContext,
        input: TestInput,
        state: &TestState,
        _effects: &mut E,
    ) -> Option<(TestOutput, TestState, ZeroIntents)> {
        let output = TestOutput {
            result: input.value * 2,
        };
        Some((output, TestState { acc: state.acc + 1 }, ZeroIntents::new()))
    }
}

/// Adds its inputs up.
pub struct AccumulatorBlock;

impl BlockSpecAssociatedTypes for AccumulatorBlock {
    type Input = TestInput;
    type Output = TestOutput;
    type State = TestState;
    type InitParameters = AccumulatorInitParams;
    type Intents = ZeroIntents;
}

impl EmptyContractDepsTag for AccumulatorBlock {}

impl BlockSpec for AccumulatorBlock {
    fn block_id(&self) -> u32 {
        42
    }

    fn init_state(&self) -> TestState {
        TestState { acc: 0 }
    }

    fn new_from_init_params(_params: &AccumulatorInitParams) -> Self {
        AccumulatorBlock
    }

    fn execute<E: EffectConsumerTrait>(
        &self,
        _context: &ExecutionContext,
        input: TestInput,
        state: &TestState,
        _effects: &mut E,
    ) -> Option<(TestOutput, TestState, ZeroIntents)> {
        let new_state = TestState {
            acc: state.acc + input.value,
        };
        let output = TestOutput {
            result: new_state.acc,
        };
        Some((output, new_state, ZeroIntents::new()))
    }
}

fn effects() -> EffectConsumer {
    EffectConsumer::new(Vec::new())
}

#[test]
fn lib_test_execution_context() {
    let context = ExecutionContext { time: 12345 };
    assert_eq!(context.time, 12345);
    let context = ExecutionContext::new(12345);
    assert_eq!(context.time, 12345);
}

#[test]
fn test_block_spec_block_id() {
    let block = DoublerBlock;
    assert_eq!(block.block_id(), 8765);
}

#[test]
fn lib_test_block_spec_init_state() {
    let block = DoublerBlock;
    let state = block.init_state();
    assert_eq!(state, TestState { acc: 0 });
}

#[test]
fn lib_test_block_spec_execute() {
    let block = DoublerBlock;
    let context = ExecutionContext { time: 100 };
    let input = TestInput { value: 21 };
    let state = TestState { acc: 0 };

    let (output, new_state, _intents) = block
        .execute(&context, input, &state, &mut effects())
        .unwrap();

    assert_eq!(output.result, 42);
    assert_eq!(new_state, TestState { acc: 1 });
}

#[test]
fn lib_test_block_spec_execute_multiple_times() {
    let block = DoublerBlock;
    let context = ExecutionContext { time: 100 };
    let input = TestInput { value: 5 };
    let mut state = block.init_state();

    for expected_count in 1..=3 {
        let (output, new_state, _intents) = block
            .execute(&context, input.clone(), &state, &mut effects())
            .unwrap();
        assert_eq!(output.result, 10);
        assert_eq!(
            new_state,
            TestState {
                acc: expected_count
            }
        );
        state = new_state;
    }
}

#[test]
fn test_channel_keys_and_reader_writer_traits_are_invoked() {
    let keys_in = TestInputKeys {
        value: "input_channel".to_string(),
    };
    let keys_out = TestOutputKeys;

    let mut registry: ChannelRegistry = Default::default();

    let names = keys_in.channel_names();
    assert_eq!(names, vec!["input_channel".to_string()]);
    let out_names = keys_out.channel_names();
    assert!(out_names.is_empty());

    keys_out.register(&mut registry).unwrap();

    let reader = keys_in.reader(&registry).unwrap();
    let read_value = reader.read(&registry).unwrap();
    assert_eq!(read_value, TestInput { value: 0 });

    let writer = keys_out.writer(&registry).unwrap();
    writer.write(&mut registry, &TestOutput { result: 123 });
    assert_eq!(writer.written.borrow().as_ref().unwrap().result, 123);
}

#[test]
fn lib_test_wrapped_block_new() {
    let block = DoublerBlock;
    let reader = MockReader {
        data: TestInput { value: 7 },
    };
    let writer = MockWriter {
        written: RefCell::new(None),
    };

    let wrapped = EncapsulatedBlock::new(block, reader, writer);
    assert_eq!(wrapped.state, TestState { acc: 0 });
    assert_eq!(*wrapped.state(), TestState { acc: 0 });
}

#[test]
fn lib_test_wrapped_block_execute() {
    let block = DoublerBlock;
    let reader = MockReader {
        data: TestInput { value: 15 },
    };
    let writer = MockWriter {
        written: RefCell::new(None),
    };

    let mut wrapped = EncapsulatedBlock::new(block, reader, writer);
    let context = ExecutionContext { time: 200 };
    let mut registry = ChannelRegistry::new();

    let intents = wrapped.execute(&context, &mut registry, &mut effects());
    assert_eq!(intents.unwrap().len(), 0);

    let written_data = wrapped.output_writer.written.borrow();
    assert!(written_data.is_some());
    assert_eq!(written_data.as_ref().unwrap().result, 30);

    assert_eq!(wrapped.state, TestState { acc: 1 });
}

#[test]
fn lib_test_multiple_wrapped_block_executions() {
    let block = DoublerBlock;
    let reader = MockReader {
        data: TestInput { value: 3 },
    };
    let writer = MockWriter {
        written: RefCell::new(None),
    };

    let mut wrapped = EncapsulatedBlock::new(block, reader, writer);
    let context = ExecutionContext { time: 300 };
    let mut registry = ChannelRegistry::new();

    for expected_state in 1..=5 {
        wrapped.execute(&context, &mut registry, &mut effects());
        assert_eq!(wrapped.state, TestState { acc: expected_state });

        let written_data = wrapped.output_writer.written.borrow();
        assert_eq!(written_data.as_ref().unwrap().result, 6);
    }
}

#[test]
fn lib_test_accumulator_block() {
    let block = AccumulatorBlock;
    let context = ExecutionContext { time: 400 };
    let mut state = block.init_state();

    let inputs = vec![
        TestInput { value: 5 },
        TestInput { value: 10 },
        TestInput { value: 3 },
    ];

    let expected_results = vec![5, 15, 18];

    for (input, expected) in inputs.into_iter().zip(expected_results) {
        let (output, new_state, _intents) = block
            .execute(&context, input, &state, &mut effects())
            .unwrap();
        assert_eq!(output.result, expected);
        assert_eq!(new_state, TestState { acc: expected });
        state = new_state;
    }
}

#[test]
fn test_accumulator_block_block_id_and_new_from_init_params() {
    let block = AccumulatorBlock;
    assert_eq!(block.block_id(), 42);

    let _block2 = AccumulatorBlock::new_from_init_params(&AccumulatorInitParams);
}

#[test]
fn tagged_blocks_depend_on_no_contract() {
    assert!(DoublerBlock.contract_deps().is_empty());
    assert!(AccumulatorBlock.contract_deps().is_empty());
}

#[test]
fn test_block_spec_new_from_init_params() {
    let _block = DoublerBlock::new_from_init_params(&DoublerInitParams);
}

/// Reads nothing: its input can never be read.
pub struct FailingReader;

impl Reader<TestInput> for FailingReader {
    fn read(&self, _registry: &ChannelRegistry) -> Option<TestInput> {
        None
    }
}

#[test]
fn wrapped_block_with_unreadable_input_changes_nothing() {
    let writer = MockWriter {
        written: RefCell::new(None),
    };
    let mut wrapped = EncapsulatedBlock::new(DoublerBlock, FailingReader, writer);
    let mut registry = ChannelRegistry::new();
    let r = wrapped.execute(&ExecutionContext::new(1), &mut registry, &mut effects());
    assert!(r.is_none());
    assert_eq!(wrapped.state, TestState { acc: 0 });
    assert!(wrapped.output_writer.written.borrow().is_none());
}

#[test]
fn type_erasure_test_wrapped_block_execute() {
    let block = DoublerBlock;
    let reader = MockReader {
        data: TestInput { value: 15 },
    };
    let writer = MockWriter {
        written: RefCell::new(None),
    };

    let mut wrapped = EncapsulatedBlock::new(block, reader, writer);
    let context = ExecutionContext { time: 200 };
    let mut registry = ChannelRegistry::new();

    wrapped.execute(&context, &mut registry, &mut effects());

    let written_data = wrapped.output_writer.written.borrow();
    assert!(written_data.is_some());
    assert_eq!(written_data.as_ref().unwrap().result, 30); // 15 * 2

    assert_eq!(wrapped.state, TestState { acc: 1 });
}

#[test]
fn type_erasure_test_multiple_wrapped_block_executions() {
    let block = DoublerBlock;
    let reader = MockReader {
        data: TestInput { value: 3 },
    };
    let writer = MockWriter {
        written: RefCell::new(None),
    };

    let mut wrapped = EncapsulatedBlock::new(block, reader, writer);
    let context = ExecutionContext { time: 300 };
    let mut registry = ChannelRegistry::new();

    for expected_state in 1..=5 {
        wrapped.execute(&context, &mut registry, &mut effects());
        assert_eq!(wrapped.state, TestState { acc: expected_state });

        let written_data = wrapped.output_writer.written.borrow();
        assert_eq!(written_data.as_ref().unwrap().result, 6); // 3 * 2
    }
}
