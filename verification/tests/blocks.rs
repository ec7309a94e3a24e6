use block_weave::actor::EffectConsumer;
use block_weave::adder_block;
use block_weave::adder_block::AdderBlock;
use block_weave::after_block;
use block_weave::after_block::AfterBlock;
use block_weave::block_spec::{BlockSerialisation, BlockSpec};
use block_weave::channel_keys::{ChannelKeys, InputKeys, OutputKeys, Reader, Writer};
use block_weave::delete_block;
use block_weave::delete_block::DeleteBlock;
use block_weave::effects::Effect;
use block_weave::execution::{ContractDeps, ExecutionContext};
use block_weave::intents::{BlockIntents, Intent};
use block_weave::registry::ChannelRegistry;
use block_weave::simple_order_block;
use block_weave::simple_order_block::SimpleOrderBlock;
use block_weave::sniper_block;
use block_weave::sniper_block::SniperBlock;
use block_weave::trade_types::{Cents, Contract, Kw, Price, Quantity, Side};

fn effects() -> EffectConsumer {
    EffectConsumer::new(Vec::new())
}

fn ctx(time: u64) -> ExecutionContext {
    ExecutionContext { time }
}

// ---------------- after ----------------

#[test]
fn make_defaults_creates_unit_input_and_state() {
    let _input = after_block::Input;
    let _state = after_block::State;

    let _input2: after_block::Input = Default::default();
    let _state2: after_block::State = Default::default();

    assert_eq!(core::mem::size_of::<after_block::Input>(), 0);
    assert_eq!(core::mem::size_of::<after_block::State>(), 0);
}

#[test]
fn new_from_init_params_sets_time_and_block_id_default() {
    let params = after_block::InitParams { time: 10 };
    let block = AfterBlock::new_from_init_params(&params);

    assert_eq!(block.block_id(), 0);
}

#[test]
fn execute_returns_output_and_defaults_for_missing_parts_before_time() {
    let params = after_block::InitParams { time: 10 };
    let block = AfterBlock::new_from_init_params(&params);

    let (out, state_out, _intents) = block
        .execute(&ctx(9), after_block::Input, &after_block::State, &mut effects())
        .unwrap();

    assert!(!out.is_after);
    assert!(matches!(state_out, after_block::State));
}

#[test]
fn execute_returns_output_and_defaults_for_missing_parts_after_time() {
    let params = after_block::InitParams { time: 10 };
    let block = AfterBlock::new_from_init_params(&params);

    let (out, state_out, _intents) = block
        .execute(&ctx(11), after_block::Input, &after_block::State, &mut effects())
        .unwrap();

    assert!(out.is_after);
    assert!(matches!(state_out, after_block::State));
}

#[test]
fn execute_is_false_when_equal() {
    let params = after_block::InitParams { time: 10 };
    let block = AfterBlock::new_from_init_params(&params);

    let (out, _state_out, _intents) = block
        .execute(&ctx(10), after_block::Input, &after_block::State, &mut effects())
        .unwrap();

    assert!(!out.is_after);
}

#[test]
fn after_keys_register_and_write_the_output_channel() {
    let mut registry = ChannelRegistry::new();
    let keys = after_block::OutputKeys {
        is_after: "late".to_string(),
    };
    assert_eq!(keys.channel_names(), vec!["late".to_string()]);
    assert!(keys.writer(&registry).is_err());
    keys.register(&mut registry).unwrap();
    assert_eq!(registry.get::<bool>("late").unwrap(), false);
    let writer = keys.writer(&registry).unwrap();
    writer.write(&mut registry, &after_block::Output { is_after: true });
    assert_eq!(registry.get::<bool>("late").unwrap(), true);

    let mut other = ChannelRegistry::new();
    other.put("late", 3i32);
    assert!(keys.register(&mut other).is_err());
}

// ---------------- delete ----------------

#[test]
fn make_defaults_creates_unit_output_state_and_init_params() {
    let _out = delete_block::Output;
    let _state = delete_block::State;
    let _params = delete_block::InitParams;

    let _out2: delete_block::Output = Default::default();
    let _state2: delete_block::State = Default::default();
    let _params2: delete_block::InitParams = Default::default();

    assert_eq!(core::mem::size_of::<delete_block::Output>(), 0);
    assert_eq!(core::mem::size_of::<delete_block::State>(), 0);
    assert_eq!(core::mem::size_of::<delete_block::InitParams>(), 0);
}

#[test]
fn delete_new_from_init_params_sets_block_id_default() {
    let block = DeleteBlock::new_from_init_params(&delete_block::InitParams);
    assert_eq!(block.block_id(), 0);
}

#[test]
fn delete_init_state_returns_default_state() {
    let block = DeleteBlock { block_id: 123 };
    let state = block.init_state();
    assert!(matches!(state, delete_block::State));
}

#[test]
fn execute_compiles_and_returns_defaults_when_no_output_state_intents_returned() {
    let block = DeleteBlock { block_id: 1 };
    let state = delete_block::State;
    let mut effect_handler = effects();

    let (out, state_out, intents) = block
        .execute(
            &ctx(0),
            delete_block::Input {
                should_delete: false,
            },
            &state,
            &mut effect_handler,
        )
        .unwrap();

    let _ = intents;
    assert!(matches!(out, delete_block::Output));
    assert!(matches!(state_out, delete_block::State));
    assert!(effect_handler.into_effects().is_empty());
}

#[test]
fn execute_handles_should_delete_true() {
    let block = DeleteBlock { block_id: 1 };
    let state = delete_block::State;
    let mut effect_handler = effects();

    let (out, state_out, intents) = block
        .execute(
            &ctx(0),
            delete_block::Input {
                should_delete: true,
            },
            &state,
            &mut effect_handler,
        )
        .unwrap();

    let _ = intents;
    assert!(matches!(out, delete_block::Output));
    assert!(matches!(state_out, delete_block::State));
    assert_eq!(effect_handler.into_effects(), vec![Effect::Terminate]);
}

#[test]
fn delete_reader_needs_a_bool_channel() {
    let keys = delete_block::InputKeys {
        should_delete: "flag".to_string(),
    };
    let mut registry = ChannelRegistry::new();
    assert!(keys.reader(&registry).is_err());
    registry.put("flag", 1i32);
    assert!(keys.reader(&registry).is_err());
    registry.put("flag", true);
    let reader = keys.reader(&registry).unwrap();
    assert_eq!(
        reader.read(&registry),
        Some(delete_block::Input {
            should_delete: true
        })
    );
}

// ---------------- simple order ----------------

fn order_params() -> (Contract, Side, Price, Quantity, simple_order_block::InitParams) {
    let contract = Contract::new("TEST");
    let side = Side::Buy;
    let price = Price::from(Cents(12345));
    let quantity = Quantity::from(Kw(1000));

    let params = simple_order_block::InitParams {
        contract: contract.clone(),
        side,
        price,
        quantity,
    };

    (contract, side, price, quantity, params)
}

fn order_block() -> (Contract, Side, Price, Quantity, SimpleOrderBlock) {
    let (contract, side, price, quantity, params) = order_params();
    let mut block = SimpleOrderBlock::new_from_init_params(&params);
    block.block_id = 1;
    (contract, side, price, quantity, block)
}

#[test]
fn make_defaults_creates_unit_state_and_output() {
    let _state = simple_order_block::State;
    let _out = simple_order_block::Output;

    let _state2: simple_order_block::State = Default::default();
    let _out2: simple_order_block::Output = Default::default();

    assert_eq!(core::mem::size_of::<simple_order_block::State>(), 0);
    assert_eq!(core::mem::size_of::<simple_order_block::Output>(), 0);
}

#[test]
fn simple_order_new_from_init_params_sets_block_id_default() {
    let (_contract, _side, _price, _quantity, params) = order_params();
    let block = SimpleOrderBlock::new_from_init_params(&params);
    assert_eq!(block.block_id(), 0);
}

#[test]
fn simple_order_init_state_returns_default_state() {
    let (_contract, _side, _price, _quantity, block) = order_block();
    let state = block.init_state();
    assert!(matches!(state, simple_order_block::State));
}

#[test]
fn execute_with_should_execute_true_returns_place_intent() {
    let (contract, side, price, quantity, block) = order_block();

    let (_out, _state_out, intents) = block
        .execute(
            &ctx(0),
            simple_order_block::Input {
                should_execute: true,
            },
            &simple_order_block::State,
            &mut effects(),
        )
        .unwrap();

    let intents_arr = intents.as_slice();
    assert_eq!(intents_arr.len(), 1);

    match &intents_arr[0] {
        Intent::Place {
            contract: c,
            side: s,
            price: p,
            quantity: q,
        } => {
            assert_eq!(c, &contract);
            assert_eq!(s, &side);
            assert_eq!(p, &price);
            assert_eq!(q, &quantity);
        }
        Intent::NoIntent => panic!("Expected Place intent, got NoIntent"),
    }
}

#[test]
fn execute_with_should_execute_false_returns_no_intent() {
    let (_contract, _side, _price, _quantity, block) = order_block();

    let (_out, _state_out, intents) = block
        .execute(
            &ctx(0),
            simple_order_block::Input {
                should_execute: false,
            },
            &simple_order_block::State,
            &mut effects(),
        )
        .unwrap();

    let intents_arr = intents.as_slice();
    assert_eq!(intents_arr.len(), 1);
    assert!(matches!(intents_arr[0], Intent::NoIntent));
}

#[test]
fn intents_helper_matches_execute_behavior() {
    let (_contract, _side, _price, _quantity, block) = order_block();

    let t = block.intents(true).as_slice().to_vec();
    let f = block.intents(false).as_slice().to_vec();

    assert_eq!(t.len(), 1);
    assert_eq!(f.len(), 1);

    assert!(matches!(t[0], Intent::Place { .. }));
    assert!(matches!(f[0], Intent::NoIntent));
}

#[test]
fn simple_order_depends_on_its_contract() {
    let (contract, _side, _price, _quantity, params) = order_params();
    assert_eq!(params.contract_deps(), vec![contract.clone()]);
    let block = SimpleOrderBlock::new_from_init_params(&params);
    assert_eq!(block.contract_deps(), vec![contract]);
}

// ---------------- sniper ----------------

fn sniper(side: Side, threshold: i64) -> SniperBlock {
    SniperBlock::new_from_init_params(&sniper_block::InitParams {
        contract: Contract::new("GAS"),
        side,
        quantity: Quantity::from(Kw(5)),
        threshold: Price::from(Cents(threshold)),
    })
}

fn sniper_intent(block: &SniperBlock, should_execute: bool) -> Intent {
    let (_o, _s, intents) = block
        .execute(
            &ctx(0),
            sniper_block::Input { should_execute },
            &sniper_block::State,
            &mut effects(),
        )
        .unwrap();
    intents.as_slice()[0].clone()
}

#[test]
fn sniper_buys_when_best_ask_is_at_most_threshold() {
    // The mock book quotes 100 cents on both sides.
    match sniper_intent(&sniper(Side::Buy, 100), true) {
        Intent::Place {
            contract,
            side,
            price,
            quantity,
        } => {
            assert_eq!(contract, Contract::new("GAS"));
            assert_eq!(side, Side::Buy);
            assert_eq!(price, Price::from(Cents(100)));
            assert_eq!(quantity, Quantity::from(Kw(5)));
        }
        Intent::NoIntent => panic!("expected an order"),
    }
    assert!(matches!(
        sniper_intent(&sniper(Side::Buy, 99), true),
        Intent::NoIntent
    ));
}

#[test]
fn sniper_sells_when_best_bid_is_at_least_threshold() {
    assert!(matches!(
        sniper_intent(&sniper(Side::Sell, 100), true),
        Intent::Place { .. }
    ));
    assert!(matches!(
        sniper_intent(&sniper(Side::Sell, 101), true),
        Intent::NoIntent
    ));
}

#[test]
fn sniper_does_nothing_unless_told_to() {
    assert!(matches!(
        sniper_intent(&sniper(Side::Buy, 1000), false),
        Intent::NoIntent
    ));
    assert_eq!(sniper(Side::Buy, 1).block_id(), 0);
    assert_eq!(sniper(Side::Buy, 1).contract_deps(), vec![Contract::new("GAS")]);
}

// ---------------- adder ----------------

#[test]
fn test_adder_block_pure_execution() {
    let block = AdderBlock::new_from_init_params(&adder_block::InitParams { offset: 10 });

    let input = adder_block::Input { a: 5, b: 3 };
    let state = block.init_state();

    let (output, new_state, _intents) = block
        .execute(&ctx(0), input, &state, &mut effects())
        .unwrap();

    assert_eq!(output.sum, 18);
    assert_eq!(new_state.call_count, 1);
}

#[test]
fn test_adder_block_multiple_calls() {
    let block = AdderBlock::new_from_init_params(&adder_block::InitParams { offset: 0 });
    let state = block.init_state();

    let (output1, new_state1, _) = block
        .execute(&ctx(0), adder_block::Input { a: 1, b: 2 }, &state, &mut effects())
        .unwrap();
    assert_eq!(output1.sum, 3);
    assert_eq!(new_state1.call_count, 1);

    let (output2, new_state2, _) = block
        .execute(
            &ctx(0),
            adder_block::Input { a: 10, b: 20 },
            &new_state1,
            &mut effects(),
        )
        .unwrap();
    assert_eq!(output2.sum, 30);
    assert_eq!(new_state2.call_count, 2);
}

#[test]
fn adder_fails_on_overflow() {
    let block = AdderBlock::new_from_init_params(&adder_block::InitParams { offset: 1 });
    let state = block.init_state();
    assert!(block
        .execute(
            &ctx(0),
            adder_block::Input { a: i32::MAX, b: 0 },
            &state,
            &mut effects()
        )
        .is_none());
    assert!(block
        .execute(
            &ctx(0),
            adder_block::Input { a: 1, b: 1 },
            &adder_block::State {
                call_count: u32::MAX
            },
            &mut effects()
        )
        .is_none());
}

fn adder_keys(a: &str, b: &str, sum: &str) -> (adder_block::InputKeys, adder_block::OutputKeys) {
    (
        adder_block::InputKeys {
            a: a.to_string(),
            b: b.to_string(),
        },
        adder_block::OutputKeys {
            sum: sum.to_string(),
        },
    )
}

#[test]
fn test_input_output_readers() {
    let mut registry = ChannelRegistry::new();
    registry.put("input_a", 7);
    registry.put("input_b", 13);
    registry.put("output_sum", 0);

    let (in_keys, out_keys) = adder_keys("input_a", "input_b", "output_sum");

    let reader = in_keys.reader(&registry).unwrap();
    let input = reader.read(&registry).unwrap();
    assert_eq!(input.a, 7);
    assert_eq!(input.b, 13);

    let writer = out_keys.writer(&registry).unwrap();
    let output = adder_block::Output { sum: 42 };
    writer.write(&mut registry, &output);

    assert_eq!(registry.get::<i32>("output_sum").unwrap(), 42);
}

#[test]
fn test_adder_block_with_registry() {
    let mut registry = ChannelRegistry::new();

    registry.put("input_a", 7);
    registry.put("input_b", 13);

    let (in_keys, out_keys) = adder_keys("input_a", "input_b", "output_sum");

    let mut wired = BlockSerialisation::new_node::<AdderBlock>(
        in_keys.clone(),
        out_keys.clone(),
        adder_block::InitParams { offset: 100 },
    )
    .weave_block(&mut registry)
    .unwrap();

    wired.execute(&ctx(0), &mut registry, &mut effects());

    assert_eq!(registry.get::<i32>("output_sum").unwrap(), 120);
}

#[test]
fn test_adder_block_registry_updates() {
    let mut registry = ChannelRegistry::new();

    registry.put("a", 1);
    registry.put("b", 2);

    let (in_keys, out_keys) = adder_keys("a", "b", "sum");

    let mut wired = BlockSerialisation::new_node::<AdderBlock>(
        in_keys.clone(),
        out_keys.clone(),
        adder_block::InitParams { offset: 0 },
    )
    .weave_block(&mut registry)
    .unwrap();

    wired.execute(&ctx(0), &mut registry, &mut effects());
    assert_eq!(registry.get::<i32>("sum").unwrap(), 3);

    registry.write("a", 10).unwrap();
    registry.write("b", 20).unwrap();

    wired.execute(&ctx(0), &mut registry, &mut effects());
    assert_eq!(registry.get::<i32>("sum").unwrap(), 30);
    assert_eq!(wired.state.call_count, 2);
}

fn adder_package(state: Option<adder_block::State>) -> block_weave::block_spec::BlockPackage<AdderBlock> {
    let mut p = block_weave::block_spec::BlockPackage::<AdderBlock>::new(
        adder_block::InputKeys { a: "a".to_string(), b: "b".to_string() },
        adder_block::OutputKeys { sum: "sum".to_string() },
        adder_block::InitParams { offset: 1 },
    );
    p.state = state;
    p
}

#[test]
fn a_stored_state_is_resumed_and_stored_again() {
    let mut registry = ChannelRegistry::new();
    registry.put("a", 2i32);
    registry.put("b", 3i32);
    registry.put("sum", 0i32);
    let package = adder_package(Some(adder_block::State { call_count: 5 }));
    let mut embedded =
        block_weave::block_spec::BlockEmbedding::new_from_package(&package, &mut registry)
            .ok()
            .unwrap();
    assert_eq!(embedded.extract_package().state, Some(adder_block::State { call_count: 5 }));
    let mut effects = EffectConsumer::new(Vec::new());
    embedded.execute(&ExecutionContext::new(0), &mut registry, &mut effects).unwrap();
    assert_eq!(registry.get::<i32>("sum").ok(), Some(6));
    let again = embedded.extract_package();
    assert_eq!(again.state, Some(adder_block::State { call_count: 6 }));
    assert_eq!(again.init_params, adder_block::InitParams { offset: 1 });
}

#[test]
fn without_a_stored_state_a_block_starts_in_its_initial_state() {
    let mut registry = ChannelRegistry::new();
    registry.put("a", 1i32);
    registry.put("b", 1i32);
    registry.put("sum", 0i32);
    let embedded = block_weave::block_spec::BlockEmbedding::new_from_package(
        &adder_package(None),
        &mut registry,
    )
    .ok()
    .unwrap();
    assert_eq!(embedded.extract_package().state, Some(adder_block::State { call_count: 0 }));
}
