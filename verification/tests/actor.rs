use std::cell::Cell;

use block_weave::actor::{
    reconcile_intents, Actor, ActorExecutionContext, ActorTrait, EffectConsumer, EffectHandler,
    Order, ReconcileIntentConsumer, Reconciliator,
};
use block_weave::after_block;
use block_weave::block_spec::BlockPackage;
use block_weave::block_type::BlockType;
use block_weave::controller::{ActorController, ActorHandle, Delta};
use block_weave::delete_block;
use block_weave::execution_plan::Algorithm;
use block_weave::simple_order_block;
use block_weave::effects::Effect;
use block_weave::execute_status::{ExecuteResult, FailureStatus, SuccessStatus};
use block_weave::execution::{
    ContractDeps, EffectConsumerTrait, ExecuteTrait, IntentConsumerTrait,
};
use block_weave::intents::{Intent, SlotId, SlotIntent};
use block_weave::trade_types::{Cents, Contract, Kw, Price, Quantity, Side};

/// A mock algorithm: emits a fixed set of intents and effects on every
/// execution and can be told to fail on one run.
struct MockAlgo {
    n: usize,
    deps: Vec<Contract>,
    intents: Vec<Intent>,
    effects: Vec<Effect>,
    run: Cell<u32>,
    fail_on: Option<u32>,
}

impl MockAlgo {
    fn new(n: usize, deps: Vec<Contract>, intents: Vec<Intent>, effects: Vec<Effect>) -> Self {
        let intents = if intents.is_empty() {
            vec![Intent::NoIntent; n]
        } else {
            assert_eq!(intents.len(), n);
            intents
        };
        Self {
            n,
            deps,
            intents,
            effects,
            run: Cell::new(0),
            fail_on: None,
        }
    }

    fn fail_on(mut self, k: u32) -> Self {
        self.fail_on = Some(k);
        self
    }
}

impl ContractDeps for MockAlgo {
    fn contract_deps(&self) -> Vec<Contract> {
        self.deps.clone()
    }
}

impl ExecuteTrait<ActorExecutionContext, ReconcileIntentConsumer, EffectConsumer> for MockAlgo {
    fn num_intents(&self) -> usize {
        self.n
    }

    fn execute(
        &mut self,
        _context: &ActorExecutionContext,
        intent_consumer: &mut ReconcileIntentConsumer,
        effect_consumer: &mut EffectConsumer,
    ) -> ExecuteResult {
        let run = self.run.get();
        self.run.set(run + 1);

        if self.fail_on == Some(run) {
            return Err(FailureStatus::Failure);
        }

        for intent in &self.intents {
            IntentConsumerTrait::consume(intent_consumer, intent)?;
        }

        for effect in &self.effects {
            effect_consumer.schedule_effect(*effect)?;
        }

        Ok(SuccessStatus::Success)
    }
}

#[test]
fn actor_sizes_reconciliator_from_num_intents() {
    let algo = Box::new(MockAlgo::new(3, vec![], vec![], vec![]));
    let actor = Actor::new(1, algo);

    assert_eq!(actor.orders().len(), 3);
}

#[test]
fn actor_forwards_id_and_contracts() {
    let c1 = Contract::new("A");
    let c2 = Contract::new("B");

    let algo = Box::new(MockAlgo::new(0, vec![c1.clone(), c2.clone()], vec![], vec![]));
    let actor = Actor::new(42, algo);

    assert_eq!(actor.actor_id(), 42);
    assert_eq!(actor.contracts(), vec![c1, c2]);
}

#[test]
fn emits_no_intents_when_intents_template_is_empty() {
    let algo = Box::new(MockAlgo::new(2, vec![], vec![], vec![]));
    let mut actor = Actor::new(1, algo);

    let ctx = ActorExecutionContext::new(0);
    assert!(actor.execute(&ctx).is_ok());
    assert_eq!(actor.orders(), &vec![Order::NoOrder, Order::NoOrder]);
}

#[test]
fn collects_effects_from_algo() {
    let effects = vec![Effect::timer(10), Effect::suspend(), Effect::terminate()];

    let algo = Box::new(MockAlgo::new(1, vec![], vec![], effects.clone()));
    let mut actor = Actor::new(1, algo);

    let ctx = ActorExecutionContext::new(0);
    actor.execute(&ctx).unwrap();

    assert_eq!(actor.effects(), &effects);
}

#[test]
fn effect_buffer_is_cleared_between_ticks() {
    let effects = vec![Effect::suspend()];
    let algo = Box::new(MockAlgo::new(1, vec![], vec![], effects));
    let mut actor = Actor::new(1, algo);

    let ctx = ActorExecutionContext::new(0);

    actor.execute(&ctx).unwrap();
    assert_eq!(actor.effects().len(), 1);

    actor.execute(&ctx).unwrap();
    assert_eq!(actor.effects().len(), 1);
}

#[test]
fn execute_returns_none_when_algo_fails() {
    let algo = Box::new(MockAlgo::new(1, vec![], vec![], vec![]).fail_on(0));
    let mut actor = Actor::new(1, algo);

    let ctx = ActorExecutionContext::new(0);
    assert!(actor.execute(&ctx).is_err());
}

fn place(name: &str, cents: i64) -> Intent {
    Intent::place_intent(
        Contract::new(name),
        Side::Sell,
        Price::from(Cents(cents)),
        Quantity::from(Kw(2)),
    )
}

#[test]
fn placed_intents_become_new_orders_in_their_slots() {
    let intents = vec![Intent::NoIntent, place("A", 150)];
    let algo = Box::new(MockAlgo::new(2, vec![], intents, vec![]));
    let mut actor = Actor::new(7, algo);
    actor.execute(&ActorExecutionContext::new(3)).unwrap();
    assert_eq!(
        actor.orders(),
        &vec![
            Order::NoOrder,
            Order::New {
                contract: Contract::new("A"),
                side: Side::Sell,
                price: Price::from(Cents(150)),
                quantity: Quantity::from(Kw(2)),
            }
        ]
    );
}

#[test]
fn consumer_refuses_intents_beyond_its_slots() {
    let mut reconciliator = Reconciliator::new(1);
    let mut consumer = reconciliator.intent_consumer();
    assert!(consumer.consume(&place("A", 1)).is_ok());
    assert!(consumer.consume(&Intent::NoIntent).is_err());
    reconciliator.restore(consumer);
    assert!(matches!(reconciliator.orders()[0], Order::New { .. }));
}

#[test]
fn no_intent_keeps_the_previous_order() {
    let mut reconciliator = Reconciliator::new(1);
    let mut consumer = reconciliator.intent_consumer();
    consumer.consume(&place("A", 100)).unwrap();
    reconciliator.restore(consumer);
    let prev = reconciliator.orders()[0].clone();
    let mut consumer = reconciliator.intent_consumer();
    assert_eq!(consumer.process_intent(&prev, &Intent::NoIntent), prev);
    consumer.consume(&Intent::NoIntent).unwrap();
    reconciliator.restore(consumer);
    assert_eq!(
        reconciliator.orders()[0],
        Order::New {
            contract: Contract::new("A"),
            side: Side::Sell,
            price: Price::from(Cents(100)),
            quantity: Quantity::from(Kw(2)),
        }
    );
}

#[test]
fn effect_consumer_starts_empty_and_keeps_order() {
    let mut consumer = EffectConsumer::new(vec![Effect::Suspend]);
    consumer.schedule_alarm_clock_effect(5).unwrap();
    consumer.schedule_terminate_effect().unwrap();
    assert_eq!(consumer.into_effects(), vec![Effect::Timer(5), Effect::Terminate]);
    let handler = EffectHandler::new();
    assert!(handler.effects().is_empty());
}

#[test]
fn reconcile_intents_maps_each_slot() {
    let intents = vec![
        SlotIntent::new(SlotId::new(1, 0), place("X", 10)),
        SlotIntent::new(SlotId::new(1, 1), Intent::no_intent()),
    ];
    let mut orders = vec![Order::NoOrder; 5];
    reconcile_intents(&mut orders, &intents);
    assert_eq!(orders.len(), 2);
    assert!(matches!(orders[0], Order::New { .. }));
    assert_eq!(orders[1], Order::NoOrder);
}

// ---------------- controller ----------------

fn mk_actor(id: u32, contracts: &[&str]) -> ActorHandle<Actor<MockAlgo>> {
    let deps = contracts.iter().map(|s| Contract::new(s)).collect();
    ActorHandle::new(Actor::new(id, Box::new(MockAlgo::new(0, deps, vec![], vec![]))))
}

fn mk_failing_actor(id: u32, contracts: &[&str]) -> ActorHandle<Actor<MockAlgo>> {
    let deps = contracts.iter().map(|s| Contract::new(s)).collect();
    ActorHandle::new(Actor::new(
        id,
        Box::new(MockAlgo::new(0, deps, vec![], vec![]).fail_on(0)),
    ))
}

fn ids(ctrl: &ActorController<Actor<MockAlgo>>, name: &str) -> Option<Vec<u32>> {
    ctrl.actor_ids_for_contract(&Contract::new(name))
}

#[test]
fn controller_test() {
    let mut ctrl = ActorController::new();
    ctrl.add_actor(mk_actor(10, &[]));
    ctrl.add_actor(mk_actor(20, &[]));

    assert_eq!(ctrl.get_actor_by_id(10).unwrap().actor_id(), 10);
    assert_eq!(ctrl.get_actor_by_id(20).unwrap().actor_id(), 20);
}

#[test]
fn add_actor_indexes_by_contracts() {
    let mut ctrl = ActorController::new();
    ctrl.add_actor(mk_actor(1, &["A", "B"]));
    ctrl.add_actor(mk_actor(2, &["B", "C"]));

    assert_eq!(ids(&ctrl, "A").unwrap().len(), 1);
    assert_eq!(ids(&ctrl, "B").unwrap().len(), 2);
    assert_eq!(ids(&ctrl, "C").unwrap().len(), 1);
    assert!(ids(&ctrl, "D").is_none());
}

#[test]
fn remove_actor_by_id_removes_from_id_and_contract_maps() {
    let mut ctrl = ActorController::new();
    ctrl.add_actor(mk_actor(1, &["A", "B"]));
    ctrl.add_actor(mk_actor(2, &["B"]));

    ctrl.remove_actor_by_id(1);

    assert!(ctrl.get_actor_by_id(1).is_none());
    assert!(ctrl.get_actor_by_id(2).is_some());

    assert!(ids(&ctrl, "A").is_none());
    assert_eq!(ids(&ctrl, "B").unwrap().len(), 1);
    assert_eq!(ids(&ctrl, "B").unwrap()[0], 2);
}

#[test]
fn removing_an_unknown_id_changes_nothing() {
    let mut ctrl = ActorController::new();
    ctrl.add_actor(mk_actor(1, &["A"]));
    ctrl.remove_actor_by_id(9);
    assert!(ctrl.get_actor_by_id(1).is_some());
    assert_eq!(ids(&ctrl, "A").unwrap(), vec![1]);
}

#[test]
fn tick_delta_drops_failed_actors_everywhere_and_keeps_the_rest() {
    let mut ctrl = ActorController::new();
    ctrl.add_actor(mk_actor(1, &["A", "B"]));
    ctrl.add_actor(mk_failing_actor(2, &["A", "C"]));
    ctrl.add_actor(mk_actor(3, &["A"]));

    ctrl.tick_delta(&Delta(Contract::new("A")));

    assert_eq!(ctrl.time(), 1);
    assert_eq!(ids(&ctrl, "A").unwrap(), vec![1, 3]);
    assert_eq!(ids(&ctrl, "B").unwrap(), vec![1]);
    assert!(ids(&ctrl, "C").is_none());
    assert!(ctrl.get_actor_by_id(2).is_none());
    assert!(ctrl.get_actor_by_id(1).is_some());
}

#[test]
fn tick_delta_on_unknown_contract_only_moves_time() {
    let mut ctrl = ActorController::new();
    ctrl.add_actor(mk_actor(1, &["A"]));
    ctrl.tick_delta(&Delta(Contract::new("Z")));
    ctrl.tick_delta(&Delta(Contract::new("Z")));
    assert_eq!(ctrl.time(), 2);
    assert_eq!(ids(&ctrl, "A").unwrap(), vec![1]);
}

#[test]
fn tick_delta_drops_the_list_when_every_actor_fails() {
    let mut ctrl = ActorController::new();
    ctrl.add_actor(mk_failing_actor(4, &["A"]));
    ctrl.tick_delta(&Delta(Contract::new("A")));
    assert!(ids(&ctrl, "A").is_none());
    assert!(ctrl.get_actor_by_id(4).is_none());
}

#[test]
fn adding_an_id_again_replaces_the_id_entry() {
    let mut ctrl = ActorController::new();
    ctrl.add_actor(mk_actor(5, &["A"]));
    ctrl.add_actor(mk_actor(5, &["B"]));
    assert_eq!(ctrl.get_actor_by_id(5).unwrap().contracts(), vec![Contract::new("B")]);
    // The earlier actor is still listed under its contract.
    assert_eq!(ids(&ctrl, "A").unwrap(), vec![5]);
    ctrl.remove_actor_by_id(5);
    assert!(ids(&ctrl, "B").is_none());
    assert_eq!(ids(&ctrl, "A").unwrap(), vec![5]);
}

#[test]
fn default_controller_is_empty() {
    let ctrl: ActorController<Actor<MockAlgo>> = Default::default();
    assert_eq!(ctrl.time(), 0);
    assert!(ctrl.get_actor_by_id(0).is_none());
}

#[test]
fn handle_tick_reports_success_and_failure() {
    let mut ok = mk_actor(1, &["A"]);
    assert_eq!(ok.tick(&ActorExecutionContext::new(0)), Some(()));
    let mut bad = mk_failing_actor(2, &["A"]);
    assert_eq!(bad.tick(&ActorExecutionContext::new(0)), None);
    assert_eq!(bad.actor_id(), 2);
    assert_eq!(ok.actor().actor_id(), 1);
}

// ---------------- algorithms woven from blocks ----------------

fn after(time: u64, out: &str) -> BlockType {
    BlockType::After(BlockPackage::<after_block::AfterBlock>::new(
        after_block::InputKeys,
        after_block::OutputKeys {
            is_after: out.to_string(),
        },
        after_block::InitParams { time },
    ))
}

fn delete(input: &str) -> BlockType {
    BlockType::Delete(BlockPackage::<delete_block::DeleteBlock>::new(
        delete_block::InputKeys {
            should_delete: input.to_string(),
        },
        delete_block::OutputKeys,
        delete_block::InitParams,
    ))
}

fn order(input: &str) -> BlockType {
    BlockType::SimpleOrder(BlockPackage::<simple_order_block::SimpleOrderBlock>::new(
        simple_order_block::InputKeys {
            should_execute: input.to_string(),
        },
        simple_order_block::OutputKeys,
        simple_order_block::InitParams {
            contract: Contract::new("TEST"),
            side: Side::Buy,
            price: Price::from(Cents(100)),
            quantity: Quantity::from(Kw(10)),
        },
    ))
}

#[test]
fn an_actor_runs_an_algorithm_woven_from_blocks() {
    let blocks = vec![order("go"), after(10, "go"), delete("go")];
    let algo = Algorithm::from_blocks(&blocks).unwrap();
    let mut actor = Actor::new(1, Box::new(algo));
    assert_eq!(actor.orders().len(), 1);
    assert_eq!(actor.contracts(), vec![Contract::new("TEST")]);

    actor.execute(&ActorExecutionContext::new(5)).unwrap();
    assert_eq!(actor.orders()[0], Order::NoOrder);
    assert!(actor.effects().is_empty());

    actor.execute(&ActorExecutionContext::new(11)).unwrap();
    assert_eq!(
        actor.orders()[0],
        Order::New {
            contract: Contract::new("TEST"),
            side: Side::Buy,
            price: Price::from(Cents(100)),
            quantity: Quantity::from(Kw(10)),
        }
    );
    assert_eq!(actor.effects(), &vec![Effect::Terminate]);
}

#[test]
fn the_controller_ticks_actors_built_from_blocks() {
    let blocks = vec![after(0, "go"), order("go")];
    let algo = Algorithm::from_blocks(&blocks).unwrap();
    let mut ctrl = ActorController::new();
    ctrl.add_actor(ActorHandle::new(Actor::new(3, Box::new(algo))));
    assert_eq!(ids_of(&ctrl, "TEST").unwrap(), vec![3]);
    // The first tick runs at time 0, which is not after 0.
    ctrl.tick_delta(&Delta(Contract::new("TEST")));
    assert_eq!(ids_of(&ctrl, "TEST").unwrap(), vec![3]);
    assert_eq!(ctrl.get_actor_by_id(3).unwrap().actor().orders()[0], Order::NoOrder);
    // The second runs at time 1.
    ctrl.tick_delta(&Delta(Contract::new("TEST")));
    let handle = ctrl.get_actor_by_id(3).unwrap();
    assert!(matches!(handle.actor().orders()[0], Order::New { .. }));
}

fn ids_of(ctrl: &ActorController<Actor<Algorithm>>, name: &str) -> Option<Vec<u32>> {
    ctrl.actor_ids_for_contract(&Contract::new(name))
}

#[test]
fn weaving_fails_on_a_missing_input() {
    assert!(Algorithm::from_blocks(&[delete("nowhere")]).is_err());
}
