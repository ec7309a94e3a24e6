use block_weave::actor::EffectConsumer;
use block_weave::after_block;
use block_weave::block_spec::BlockPackage;
use block_weave::block_type::{Block, BlockType};
use block_weave::delete_block;
use block_weave::effects::Effect;
use block_weave::errors::RegistryError;
use block_weave::execution::ExecutionContext;
use block_weave::graph::topo_order_or_cycle;
use block_weave::intents::{Intent, SlotId, SlotIntent};
use block_weave::registry::ChannelRegistry;
use block_weave::simple_order_block;
use block_weave::trade_types::{Cents, Contract, Kw, Price, Quantity, Side};
use block_weave::weave::{first_duplicate_output, order_nodes, weave_nodes, WeaveNode};

#[test]
fn test_slot_intents_have_block_id_and_slot_index() {
    let slot_intent = SlotIntent::new(
        SlotId::new(86, 42),
        Intent::place_intent(
            Contract::new("TEST"),
            Side::Buy,
            Cents(100).into(),
            Kw(1).into(),
        ),
    );
    assert_eq!(slot_intent.slot_id.block_id, 86);
    assert_eq!(slot_intent.slot_id.slot_index, 42);
}

#[test]
fn topo_order_puts_producers_first() {
    // 2 -> 0 -> 1
    let edges = vec![vec![1], vec![], vec![0]];
    let order = topo_order_or_cycle(&edges).unwrap();
    assert_eq!(order.len(), 3);
    let pos = |x: usize| order.iter().position(|&y| y == x).unwrap();
    assert!(pos(2) < pos(0));
    assert!(pos(0) < pos(1));
}

#[test]
fn topo_order_reports_the_nodes_on_a_cycle() {
    // 0 -> 1 -> 2 -> 1, and 2 -> 3; node 3 only follows the cycle, node 4 is free.
    let edges = vec![vec![1], vec![2], vec![1, 3], vec![], vec![]];
    assert_eq!(
        topo_order_or_cycle(&edges),
        Err(RegistryError::CycleDetected("[1, 2]".to_string()))
    );
}

#[test]
fn topo_order_leaves_out_a_node_downstream_of_a_cycle() {
    // 0 -> 1 -> 0 is a cycle; node 2 depends on node 1 only.
    let edges = vec![vec![1], vec![0, 2], vec![]];
    assert_eq!(
        topo_order_or_cycle(&edges),
        Err(RegistryError::CycleDetected("[0, 1]".to_string()))
    );
}

#[test]
fn topo_order_reports_nodes_between_two_cycles_only_if_on_one() {
    // 0 <-> 1, 1 -> 2, 2 -> 3, 3 <-> 4: node 2 lies on no cycle.
    let edges = vec![vec![1], vec![0, 2], vec![3], vec![4], vec![3]];
    assert_eq!(
        topo_order_or_cycle(&edges),
        Err(RegistryError::CycleDetected("[0, 1, 3, 4]".to_string()))
    );
}

#[test]
fn topo_order_of_nothing_is_empty() {
    let edges: Vec<Vec<usize>> = vec![];
    assert_eq!(topo_order_or_cycle(&edges).unwrap(), Vec::<usize>::new());
}

fn after(time: u64, out: &str) -> BlockType {
    BlockType::After(BlockPackage::<after_block::AfterBlock>::new(
        after_block::InputKeys,
        after_block::OutputKeys {
            is_after: out.to_string(),
        },
        after_block::InitParams { time },
    ))
}

fn delete(input: &str) -> BlockType {
    BlockType::Delete(BlockPackage::<delete_block::DeleteBlock>::new(
        delete_block::InputKeys {
            should_delete: input.to_string(),
        },
        delete_block::OutputKeys,
        delete_block::InitParams,
    ))
}

fn order(input: &str) -> BlockType {
    BlockType::SimpleOrder(BlockPackage::<simple_order_block::SimpleOrderBlock>::new(
        simple_order_block::InputKeys {
            should_execute: input.to_string(),
        },
        simple_order_block::OutputKeys,
        simple_order_block::InitParams {
            contract: Contract::new("TEST"),
            side: Side::Buy,
            price: Price::from(Cents(100)),
            quantity: Quantity::from(Kw(10)),
        },
    ))
}

#[test]
fn read_blocks_produces_weave_nodes_for_all_variants() {
    let nodes = vec![after(5, "is_after"), delete("is_after"), order("is_after")];
    assert_eq!(nodes[0].output_channels(), vec!["is_after".to_string()]);
    assert_eq!(nodes[1].input_channels(), vec!["is_after".to_string()]);
    assert_eq!(nodes[2].input_channels(), vec!["is_after".to_string()]);
    let mut registry = ChannelRegistry::new();
    let plan = weave_nodes(&nodes, &mut registry).unwrap();
    assert_eq!(plan.len(), 3);
}

#[test]
fn weave_and_execute_end_to_end_after_then_delete() {
    let nodes = vec![after(10, "is_after"), delete("is_after")];
    let mut registry = ChannelRegistry::new();

    let mut after_block = nodes[0].weave(&mut registry).unwrap();
    let ctx = ExecutionContext { time: 11 };
    let mut effects = EffectConsumer::new(Vec::new());
    after_block.execute(&ctx, &mut registry, &mut effects);

    let mut delete_block = nodes[1].weave(&mut registry).unwrap();
    delete_block.execute(&ctx, &mut registry, &mut effects);

    assert!(registry.get::<bool>("is_after").unwrap());
    assert_eq!(effects.into_effects(), vec![Effect::Terminate]);
}

#[test]
fn weave_nodes_orders_consumers_after_producers() {
    // The consumer comes first in the list; weaving puts the producer first.
    let nodes = vec![delete("is_after"), after(1, "is_after")];
    let mut registry = ChannelRegistry::new();
    let mut plan = weave_nodes(&nodes, &mut registry).unwrap();
    assert!(matches!(plan.0[0], Block::After(_)));
    assert!(matches!(plan.0[1], Block::Delete(_)));

    let ctx = ExecutionContext::new(2);
    let mut effects = EffectConsumer::new(Vec::new());
    for block in plan.0.iter_mut() {
        assert!(block.execute(&ctx, &mut registry, &mut effects).is_some());
    }
    assert_eq!(effects.into_effects(), vec![Effect::Terminate]);
}

#[test]
fn weave_nodes_reports_a_missing_producer() {
    let nodes = vec![after(1, "x"), delete("nobody_writes_this")];
    let mut registry = ChannelRegistry::new();
    assert_eq!(
        weave_nodes(&nodes, &mut registry).err(),
        Some(RegistryError::MissingProducer(
            "Missing producer for input channel 'nobody_writes_this' (node index 1)".to_string()
        ))
    );
}

#[test]
fn weave_nodes_accepts_inputs_already_in_the_registry() {
    let nodes = vec![delete("external")];
    let mut registry = ChannelRegistry::new();
    registry.put("external", false);
    let plan = weave_nodes(&nodes, &mut registry).unwrap();
    assert_eq!(plan.len(), 1);
}

#[test]
fn simple_order_block_emits_its_order_through_the_plan() {
    let nodes = vec![order("go"), after(0, "go")];
    let mut registry = ChannelRegistry::new();
    let mut plan = weave_nodes(&nodes, &mut registry).unwrap();
    let ctx = ExecutionContext::new(1);
    let mut effects = EffectConsumer::new(Vec::new());
    let mut all = Vec::new();
    for block in plan.0.iter_mut() {
        all.extend(block.execute(&ctx, &mut registry, &mut effects).unwrap());
    }
    assert_eq!(all.len(), 1);
    assert_eq!(all[0].slot_id, SlotId::new(0, 0));
    assert!(matches!(all[0].intent, Intent::Place { .. }));
}

/// A node that reads and writes the named channels and weaves into its name.
struct Node {
    name: &'static str,
    inputs: Vec<&'static str>,
    outputs: Vec<&'static str>,
}

impl WeaveNode<&'static str> for Node {
    fn input_channels(&self) -> Vec<String> {
        self.inputs.iter().map(|s| s.to_string()).collect()
    }

    fn output_channels(&self) -> Vec<String> {
        self.outputs.iter().map(|s| s.to_string()).collect()
    }

    fn register_channels(&self, channels: &mut ChannelRegistry) -> Result<(), RegistryError> {
        for o in &self.outputs {
            channels.put(o, 0i32);
        }
        Ok(())
    }

    fn weave(&self, _channels: &mut ChannelRegistry) -> Result<&'static str, RegistryError> {
        Ok(self.name)
    }
}

fn node(name: &'static str, inputs: Vec<&'static str>, outputs: Vec<&'static str>) -> Node {
    Node {
        name,
        inputs,
        outputs,
    }
}

#[test]
fn order_nodes_puts_every_node_after_its_producers() {
    let nodes = vec![
        node("c", vec!["b"], vec!["c"]),
        node("a", vec![], vec!["a"]),
        node("b", vec!["a"], vec!["b"]),
    ];
    let registry = ChannelRegistry::new();
    assert_eq!(order_nodes(&nodes, &registry).unwrap(), vec![1, 2, 0]);

    let mut registry = ChannelRegistry::new();
    let plan = weave_nodes(&nodes, &mut registry).unwrap();
    assert_eq!(plan.0, vec!["a", "b", "c"]);
}

#[test]
fn order_nodes_reports_a_cycle() {
    let nodes = vec![
        node("x", vec!["y"], vec!["x"]),
        node("y", vec!["x"], vec!["y"]),
        node("z", vec![], vec!["z"]),
    ];
    let registry = ChannelRegistry::new();
    assert_eq!(
        order_nodes(&nodes, &registry),
        Err(RegistryError::CycleDetected("[0, 1]".to_string()))
    );
    let mut registry = ChannelRegistry::new();
    assert_eq!(
        weave_nodes(&nodes, &mut registry).err(),
        Some(RegistryError::CycleDetected("[0, 1]".to_string()))
    );
}

#[test]
fn order_nodes_reports_the_first_missing_producer() {
    let nodes = vec![
        node("x", vec!["p", "q"], vec![]),
        node("y", vec!["r"], vec![]),
    ];
    let registry = ChannelRegistry::new();
    assert_eq!(
        order_nodes(&nodes, &registry),
        Err(RegistryError::MissingProducer(
            "Missing producer for input channel 'p' (node index 0)".to_string()
        ))
    );
}

#[test]
fn the_last_writer_of_a_channel_is_its_producer() {
    // Both 0 and 2 write "a"; 2 is its producer, so 1 comes after 2.
    let nodes = vec![
        node("first", vec![], vec!["a"]),
        node("reader", vec!["a"], vec![]),
        node("second", vec![], vec!["a"]),
    ];
    let registry = ChannelRegistry::new();
    let order = order_nodes(&nodes, &registry).unwrap();
    let pos = |x: usize| order.iter().position(|&y| y == x).unwrap();
    assert!(pos(2) < pos(1));
}

#[test]
fn weave_nodes_refuses_two_writers_of_a_channel() {
    let nodes = vec![
        node("first", vec![], vec!["a"]),
        node("reader", vec!["a"], vec!["b"]),
        node("second", vec![], vec!["b", "a"]),
    ];
    let mut registry = ChannelRegistry::new();
    assert_eq!(
        weave_nodes(&nodes, &mut registry).err(),
        Some(RegistryError::DuplicateOutputKey("b".to_string()))
    );
}

#[test]
fn first_duplicate_output_is_none_without_shared_outputs() {
    let nodes = vec![node("x", vec![], vec!["x", "x"]), node("y", vec!["x"], vec!["y"])];
    assert_eq!(first_duplicate_output(&nodes), None);
}

#[test]
fn two_blocks_writing_one_channel_are_refused() {
    let blocks = vec![after(1, "go"), after(2, "go")];
    let mut registry = ChannelRegistry::new();
    assert_eq!(
        weave_nodes(&blocks, &mut registry).err(),
        Some(RegistryError::DuplicateOutputKey("go".to_string()))
    );
}
