//! Actors: one algorithm each, with the order and effect buffers it fills.
use vstd::prelude::*;

use crate::effects::Effect;
use crate::execute_status::{ExecuteResult, FailureStatus, SuccessStatus};
use crate::execution::{
    consume_trace, contract_names, ContractDeps, EffectConsumerTrait, ExecuteTrait, ExecutionContextTrait,
    IntentConsumerTrait, OrderBook, OrderBookTrait,
};
use crate::intents::{Intent, SlotIntent};
use crate::trade_types::{Contract, Price, Quantity, Side};

verus! {

/// An outbound order.
#[derive(Debug, PartialEq, Eq)]
pub enum Order {
    NoOrder,
    New { contract: Contract, side: Side, price: Price, quantity: Quantity },
    Cancel { contract: Contract },
}

impl Clone for Order {
    fn clone(&self) -> (r: Self)
        ensures
            r == *self,
    {
        match self {
            Order::NoOrder => Order::NoOrder,
            Order::New { contract, side, price, quantity } => Order::New {
                contract: contract.clone(),
                side: *side,
                price: *price,
                quantity: *quantity,
            },
            Order::Cancel { contract } => Order::Cancel { contract: contract.clone() },
        }
    }
}

impl Default for Order {
    fn default() -> (r: Order)
        ensures
            r == Order::NoOrder,
    {
        Order::NoOrder
    }
}

/// The order a slot holds after `intent` is consumed into it, where it held
/// `prev`: no intent keeps the previous order.
pub open spec fn next_order(prev: Order, intent: Intent) -> Order {
    match intent {
        Intent::NoIntent => prev,
        _ => order_for(intent),
    }
}

/// The order that an intent asks for.
pub open spec fn order_for(intent: Intent) -> Order {
    match intent {
        Intent::NoIntent => Order::NoOrder,
        Intent::Place { contract, side, price, quantity } => Order::New {
            contract,
            side,
            price,
            quantity,
        },
    }
}

/// Consuming an intent into a slot: a placement always becomes a new order
/// with the placement's contract, side, price and quantity, whatever order the
/// slot held before; no intent keeps the order the slot held. Reconciling a
/// whole list at once (see `reconcile_intents`) turns a placement into the
/// same new order, and no intent into no order.
pub proof fn lemma_consumed_order(prev: Order, intent: Intent)
    ensures
        intent matches Intent::Place { contract, side, price, quantity } ==> next_order(prev, intent)
            == (Order::New { contract, side, price, quantity }),
        intent is NoIntent ==> next_order(prev, intent) == prev,
        intent matches Intent::Place { contract, side, price, quantity } ==> order_for(intent) == (
        Order::New { contract, side, price, quantity }),
        intent is NoIntent ==> order_for(intent) == Order::NoOrder,
{
}

/// Makes `orders` the orders that the slot intents ask for, one per intent,
/// in slot order.
pub fn reconcile_intents(orders: &mut Vec<Order>, intents: &[SlotIntent])
    ensures
        final(orders)@ == intents@.map_values(|si: SlotIntent| order_for(si.intent)),
{
    orders.clear();
    let n = intents.len();
    for i in 0..n
        invariant
            n == intents@.len(),
            orders@ == intents@.take(i as int).map_values(|si: SlotIntent| order_for(si.intent)),
    {
        let order = match &intents[i].intent {
            Intent::NoIntent => Order::NoOrder,
            Intent::Place { contract, side, price, quantity } => Order::New {
                contract: contract.clone(),
                side: *side,
                price: *price,
                quantity: *quantity,
            },
        };
        orders.push(order);
        proof {
            assert(orders@ =~= intents@.take(i as int + 1).map_values(
                |si: SlotIntent| order_for(si.intent),
            ));
        }
    }
    proof {
        assert(intents@.take(n as int) =~= intents@);
    }
}

/// The order buffer after consuming `intents` one by one from slot `start`
/// (see `ReconcileIntentConsumer::consume`), where every intent finds a slot.
pub open spec fn consume_run(orders: Seq<Order>, start: int, intents: Seq<Intent>) -> Seq<Order>
    decreases intents.len(),
{
    if intents.len() == 0 {
        orders
    } else {
        let before = consume_run(orders, start, intents.drop_last());
        let k = start + intents.len() - 1;
        before.update(k, next_order(before[k], intents.last()))
    }
}

/// Consuming intents in order fills the slots in order: from slot 0, the
/// `j`-th intent decides slot `j` from the order it held (no intent keeps
/// it), and the slots past the intents keep their orders.
pub proof fn lemma_consume_run(orders: Seq<Order>, intents: Seq<Intent>)
    requires
        intents.len() <= orders.len(),
    ensures
        consume_run(orders, 0, intents).len() == orders.len(),
        forall|j: int|
            0 <= j < orders.len() ==> #[trigger] consume_run(orders, 0, intents)[j] == if j
                < intents.len() {
                next_order(orders[j], intents[j])
            } else {
                orders[j]
            },
    decreases intents.len(),
{
    if intents.len() > 0 {
        lemma_consume_run(orders, intents.drop_last());
    }
}

/// Owns the order buffer that reconciliation fills, one slot per intent.
pub struct Reconciliator {
    orders: Vec<Order>,
}

impl Reconciliator {
    /// The orders, one per slot.
    pub closed spec fn orders_spec(&self) -> Seq<Order> {
        self.orders@
    }

    /// A buffer of `size` slots, all without an order.
    pub fn new(size: usize) -> (r: Reconciliator)
        ensures
            r.orders_spec() == Seq::new(size as nat, |i: int| Order::NoOrder),
    {
        let mut orders: Vec<Order> = Vec::new();
        for i in 0..size
            invariant
                orders@ == Seq::new(i as nat, |k: int| Order::NoOrder),
        {
            orders.push(Order::default());
            assert(orders@ =~= Seq::new((i + 1) as nat, |k: int| Order::NoOrder));
        }
        Reconciliator { orders }
    }

    /// The orders, one per slot.
    pub fn orders(&self) -> (r: &Vec<Order>)
        ensures
            r@ == self.orders_spec(),
    {
        &self.orders
    }

    /// Hands the buffer to a fresh consumer that starts at slot 0; the buffer
    /// comes back with `restore`.
    pub fn intent_consumer(&mut self) -> (r: ReconcileIntentConsumer)
        ensures
            r.orders_spec() == old(self).orders_spec(),
            r.index() == 0,
            final(self).orders_spec() == Seq::<Order>::empty(),
    {
        let mut orders: Vec<Order> = Vec::new();
        std::mem::swap(&mut orders, &mut self.orders);
        ReconcileIntentConsumer::new(orders)
    }

    /// Takes the buffer back from a consumer.
    pub fn restore(&mut self, consumer: ReconcileIntentConsumer)
        ensures
            final(self).orders_spec() == consumer.orders_spec(),
    {
        self.orders = consumer.into_orders();
    }
}

/// Turns the intents of one execution into orders, slot by slot.
pub struct ReconcileIntentConsumer {
    orders: Vec<Order>,
    idx: usize,
}

impl ReconcileIntentConsumer {
    /// The order buffer.
    pub closed spec fn orders_spec(&self) -> Seq<Order> {
        self.orders@
    }

    /// The slot the next intent goes to.
    pub closed spec fn index(&self) -> nat {
        self.idx as nat
    }

    /// A consumer over the given buffer, starting at slot 0.
    pub fn new(orders: Vec<Order>) -> (r: ReconcileIntentConsumer)
        ensures
            r.orders_spec() == orders@,
            r.index() == 0,
    {
        ReconcileIntentConsumer { orders, idx: 0 }
    }

    /// The order buffer, given back.
    pub fn into_orders(self) -> (r: Vec<Order>)
        ensures
            r@ == self.orders_spec(),
    {
        self.orders
    }

    /// The order that replaces `prev_order` when `intent` is consumed: no
    /// intent keeps the previous order, a placement asks for a new one.
    pub fn process_intent(&self, prev_order: &Order, intent: &Intent) -> (r: Order)
        ensures
            r == next_order(*prev_order, *intent),
            *intent matches Intent::Place { contract, side, price, quantity } ==> r == (Order::New {
                contract,
                side,
                price,
                quantity,
            }),
            *intent is NoIntent ==> r == *prev_order,
    {
        match intent {
            Intent::NoIntent => prev_order.clone(),
            Intent::Place { contract, side, price, quantity } => Order::New {
                contract: contract.clone(),
                side: *side,
                price: *price,
                quantity: *quantity,
            },
        }
    }

    /// Consumes one intent into the current slot and moves to the next one.
    ///
    /// Fails, leaving the buffer as it is, when every slot is already filled.
    pub fn consume(&mut self, intent: &Intent) -> (r: Result<(), FailureStatus>)
        ensures
            old(self).index() < old(self).orders_spec().len() ==> r is Ok && final(self).index()
                == old(self).index() + 1 && final(self).orders_spec() == old(
                self,
            ).orders_spec().update(
                old(self).index() as int,
                next_order(old(self).orders_spec()[old(self).index() as int], *intent),
            ),
            old(self).index() >= old(self).orders_spec().len() ==> r is Err && *final(self)
                == *old(self),
    {
        if self.idx < self.orders.len() {
            let order = self.process_intent(&self.orders[self.idx], intent);
            self.orders.set(self.idx, order);
            self.idx = self.idx + 1;
            Ok(())
        } else {
            Err(FailureStatus::Failure)
        }
    }
}

impl IntentConsumerTrait for ReconcileIntentConsumer {
    /// The intent goes to the next slot while there is one; past the last
    /// slot it is refused and nothing changes.
    open spec fn consumes(
        &self,
        intent: Intent,
        after: Self,
        r: Result<(), FailureStatus>,
    ) -> bool {
        &&& self.index() < self.orders_spec().len() ==> r is Ok && after.index() == self.index() + 1
            && after.orders_spec() == self.orders_spec().update(
            self.index() as int,
            next_order(self.orders_spec()[self.index() as int], intent),
        )
        &&& self.index() >= self.orders_spec().len() ==> r is Err && after == *self
    }

    fn consume(&mut self, intent: &Intent) -> (r: Result<(), FailureStatus>)
        ensures
            old(self).index() < old(self).orders_spec().len() ==> r is Ok && final(self).index()
                == old(self).index() + 1 && final(self).orders_spec() == old(
                self,
            ).orders_spec().update(
                old(self).index() as int,
                next_order(old(self).orders_spec()[old(self).index() as int], *intent),
            ),
            old(self).index() >= old(self).orders_spec().len() ==> r is Err && *final(self)
                == *old(self),
    {
        ReconcileIntentConsumer::consume(self, intent)
    }
}

/// What a consumer over the buffer `orders` at slot 0 holds after the first
/// `j` steps of the trace `ics`, where the intents fit in the buffer.
proof fn lemma_reconcile_prefix(
    ics: Seq<ReconcileIntentConsumer>,
    intents: Seq<Intent>,
    results: Seq<Result<(), FailureStatus>>,
    j: int,
)
    requires
        consume_trace(ics, intents, results),
        ics[0].index() == 0,
        intents.len() <= ics[0].orders_spec().len(),
        0 <= j <= results.len(),
    ensures
        ics[j].index() == j,
        ics[j].orders_spec() == consume_run(ics[0].orders_spec(), 0, intents.take(j)),
        forall|k: int| 0 <= k < j ==> #[trigger] results[k] is Ok,
    decreases j,
{
    if j > 0 {
        lemma_reconcile_prefix(ics, intents, results, j - 1);
        lemma_consume_run(ics[0].orders_spec(), intents.take(j - 1));
        let k = j - 1;
        assert(ics[k].consumes(intents[k], ics[k + 1], results[k]));
        assert(intents.take(j).drop_last() =~= intents.take(j - 1));
    }
}

/// Consuming intents through a consumer handed out at slot 0 (see
/// `Reconciliator::intent_consumer`): while the intents fit in the buffer,
/// every consume succeeds, the consumer ends at the slot after the last
/// intent, and the `j`-th intent decides slot `j` from the order it held (no
/// intent keeps it) while the slots past the intents keep their orders.
pub proof fn lemma_reconcile_trace(
    ics: Seq<ReconcileIntentConsumer>,
    intents: Seq<Intent>,
    results: Seq<Result<(), FailureStatus>>,
)
    requires
        consume_trace(ics, intents, results),
        ics[0].index() == 0,
        intents.len() <= ics[0].orders_spec().len(),
    ensures
        results.len() == intents.len(),
        forall|k: int| 0 <= k < results.len() ==> #[trigger] results[k] is Ok,
        ics.last().index() == intents.len(),
        ics.last().orders_spec().len() == ics[0].orders_spec().len(),
        forall|j: int|
            0 <= j < ics[0].orders_spec().len() ==> #[trigger] ics.last().orders_spec()[j] == if j
                < intents.len() {
                next_order(ics[0].orders_spec()[j], intents[j])
            } else {
                ics[0].orders_spec()[j]
            },
{
    let n = results.len() as int;
    lemma_reconcile_prefix(ics, intents, results, n);
    if n < intents.len() {
        assert(results[n - 1] is Ok);
    }
    assert(intents.take(n) =~= intents);
    lemma_consume_run(ics[0].orders_spec(), intents);
}

/// Owns the effect buffer of an actor.
pub struct EffectHandler {
    effects: Vec<Effect>,
}

impl EffectHandler {
    /// The effects collected during the last execution.
    pub closed spec fn effects_spec(&self) -> Seq<Effect> {
        self.effects@
    }

    /// An effect handler with an empty buffer.
    pub fn new() -> (r: EffectHandler)
        ensures
            r.effects_spec() == Seq::<Effect>::empty(),
    {
        EffectHandler { effects: Vec::new() }
    }

    /// The effects collected during the last execution.
    pub fn effects(&self) -> (r: &Vec<Effect>)
        ensures
            r@ == self.effects_spec(),
    {
        &self.effects
    }

    /// Hands the buffer, cleared, to a fresh consumer; it comes back with `restore`.
    pub fn effect_consumer(&mut self) -> (r: EffectConsumer)
        ensures
            r.effects_spec() == Seq::<Effect>::empty(),
            final(self).effects_spec() == Seq::<Effect>::empty(),
    {
        let mut effects: Vec<Effect> = Vec::new();
        std::mem::swap(&mut effects, &mut self.effects);
        EffectConsumer::new(effects)
    }

    /// Takes the buffer back from a consumer.
    pub fn restore(&mut self, consumer: EffectConsumer)
        ensures
            final(self).effects_spec() == consumer.effects_spec(),
    {
        self.effects = consumer.into_effects();
    }

    /// Handles the effects collected during the last execution.
    pub fn handle_effects(&self) -> (r: ExecuteResult)
        ensures
            r == Ok::<SuccessStatus, FailureStatus>(SuccessStatus::Success),
    {
        Ok(SuccessStatus::Success)
    }
}

/// Collects the effects scheduled during one execution.
pub struct EffectConsumer {
    effects: Vec<Effect>,
}

impl EffectConsumer {
    /// The effects scheduled so far.
    pub closed spec fn effects_spec(&self) -> Seq<Effect> {
        self.effects@
    }

    /// A consumer over the given buffer, which it clears first.
    pub fn new(effects: Vec<Effect>) -> (r: EffectConsumer)
        ensures
            r.effects_spec() == Seq::<Effect>::empty(),
    {
        let mut effects = effects;
        effects.clear();
        EffectConsumer { effects }
    }

    /// The effect buffer, given back.
    pub fn into_effects(self) -> (r: Vec<Effect>)
        ensures
            r@ == self.effects_spec(),
    {
        self.effects
    }
}

impl EffectConsumerTrait for EffectConsumer {
    open spec fn scheduled(&self) -> Seq<Effect> {
        self.effects_spec()
    }

    /// Every effect is taken.
    open spec fn accepts(&self, effect: Effect) -> bool {
        true
    }

    fn schedule_effect(&mut self, effect: Effect) -> (r: Result<(), FailureStatus>)
        ensures
            r is Ok,
            final(self).effects_spec() == old(self).effects_spec().push(effect),
    {
        self.effects.push(effect);
        Ok(())
    }
}

/// A fresh effect consumer takes every effect: from a consumer with no
/// effects (as `EffectConsumer::new` and `EffectHandler::effect_consumer`
/// give), scheduling the effects `es` one by one through the consumers `cs`
/// with results `rs` (each call as `schedule_effect` states), every call
/// returns `Ok` and the consumer ends holding exactly `es`, in call order.
pub proof fn lemma_effect_consumer_collects(
    cs: Seq<EffectConsumer>,
    es: Seq<Effect>,
    rs: Seq<Result<(), FailureStatus>>,
)
    requires
        cs.len() == es.len() + 1,
        rs.len() == es.len(),
        cs[0].effects_spec() == Seq::<Effect>::empty(),
        forall|k: int|
            0 <= k < es.len() ==> (#[trigger] rs[k] is Ok <==> cs[k].accepts(es[k])) && (rs[k] is Ok
                ==> cs[k + 1].scheduled() == cs[k].scheduled().push(es[k])) && (rs[k] is Err
                ==> cs[k + 1].scheduled() == cs[k].scheduled()),
    ensures
        forall|k: int| 0 <= k < rs.len() ==> #[trigger] rs[k] is Ok,
        cs.last().effects_spec() == es,
    decreases es.len(),
{
    if es.len() > 0 {
        let m = es.len() - 1;
        assert(rs[m] is Ok <==> cs[m].accepts(es[m]));
        lemma_effect_consumer_collects(cs.drop_last(), es.drop_last(), rs.drop_last());
        assert forall|k: int| 0 <= k < rs.len() implies #[trigger] rs[k] is Ok by {
            if k < m {
                assert(rs.drop_last()[k] == rs[k]);
            }
        }
        assert(cs.drop_last().last() == cs[m]);
        assert(es =~= es.drop_last().push(es[m]));
    }
}

/// The context an actor executes in: the current time and mock market data.
pub struct ActorExecutionContext {
    time: u64,
}

impl ActorExecutionContext {
    pub fn new(time: u64) -> (r: ActorExecutionContext)
        ensures
            r.time_spec() == time,
    {
        ActorExecutionContext { time }
    }
}

impl ExecutionContextTrait for ActorExecutionContext {
    type OrderBook = OrderBook;

    closed spec fn time_spec(&self) -> u64 {
        self.time
    }

    fn time(&self) -> (r: u64) {
        self.time
    }

    open spec fn order_book_spec(&self, contract: Contract) -> Option<OrderBook> {
        Some(OrderBook)
    }

    /// The mock book, whatever the contract.
    fn get_order_book(&self, contract: &Contract) -> (r: Option<OrderBook>)
        ensures
            r is Some,
    {
        Some(OrderBook)
    }

    /// No positions are known.
    fn get_position(&self, block_id: u32, contract: &Contract) -> (r: Option<Quantity>)
        ensures
            r is None,
    {
        None
    }
}

/// An algorithm an actor can run: anything executable against the actor's
/// context and consumers.
pub trait ActorAlgo: ExecuteTrait<ActorExecutionContext, ReconcileIntentConsumer, EffectConsumer> {

}

impl<T: ExecuteTrait<ActorExecutionContext, ReconcileIntentConsumer, EffectConsumer>> ActorAlgo for T {

}

/// The view of an actor that the controller works with.
pub trait ActorTrait: Sized {
    /// The actor's identifier.
    spec fn actor_id_spec(&self) -> u32;

    /// The names of the contracts the actor's algorithm depends on.
    spec fn contracts_spec(&self) -> Seq<Seq<char>>;

    fn actor_id(&self) -> (r: u32)
        ensures
            r == self.actor_id_spec(),
    ;

    fn contracts(&self) -> (r: Vec<Contract>)
        ensures
            contract_names(r@) == self.contracts_spec(),
    ;

    /// Whether one tick in `ctx` can turn this actor into `after` with result
    /// `r`.
    open spec fn ticks_to(&self, ctx: ActorExecutionContext, after: Self, r: ExecuteResult) -> bool {
        arbitrary()
    }

    /// Executes the actor's algorithm for one tick; the identifier and the
    /// contracts stay as they were.
    fn execute(&mut self, ctx: &ActorExecutionContext) -> (r: ExecuteResult)
        ensures
            old(self).ticks_to(*ctx, *final(self), r),
            final(self).actor_id_spec() == old(self).actor_id_spec(),
            final(self).contracts_spec() == old(self).contracts_spec(),
    ;
}

/// Runs one algorithm, with the order and effect buffers it fills each tick.
pub struct Actor<Algo> {
    id: u32,
    algo: Box<Algo>,
    reconciliator: Reconciliator,
    effect_handler: EffectHandler,
}

impl<Algo> Actor<Algo> where
    Algo: ExecuteTrait<ActorExecutionContext, ReconcileIntentConsumer, EffectConsumer>,
 {
    /// The algorithm.
    pub closed spec fn algo_spec(&self) -> Algo {
        *self.algo
    }

    /// The orders of the last execution, one per slot.
    pub closed spec fn orders_spec(&self) -> Seq<Order> {
        self.reconciliator.orders_spec()
    }

    /// The effects of the last execution.
    pub closed spec fn effects_spec(&self) -> Seq<Effect> {
        self.effect_handler.effects_spec()
    }

    /// The identifier.
    pub closed spec fn id_spec(&self) -> u32 {
        self.id
    }

    /// An actor running `algo`, with one order slot per intent the algorithm
    /// produces and no effects yet.
    pub fn new(id: u32, algo: Box<Algo>) -> (r: Self)
        ensures
            r.id_spec() == id,
            r.actor_id_spec() == id,
            r.contracts_spec() == algo.contract_deps_spec(),
            r.algo_spec() == *algo,
            r.orders_spec() == Seq::new(algo.num_intents_spec(), |i: int| Order::NoOrder),
            r.effects_spec() == Seq::<Effect>::empty(),
    {
        let num_intents = algo.num_intents();
        let reconciliator = Reconciliator::new(num_intents);
        let effect_handler = EffectHandler::new();
        Actor { id, algo, reconciliator, effect_handler }
    }

    /// The orders of the last execution, one per slot.
    pub fn orders(&self) -> (r: &Vec<Order>)
        ensures
            r@ == self.orders_spec(),
    {
        self.reconciliator.orders()
    }

    /// The effects of the last execution.
    pub fn effects(&self) -> (r: &Vec<Effect>)
        ensures
            r@ == self.effects_spec(),
    {
        self.effect_handler.effects()
    }

    /// Whether one tick in `context` can turn this actor into `after` with
    /// result `r`: the algorithm runs (see `ExecuteTrait::runs_to`) from an
    /// intent consumer over the present orders at slot 0 and an empty effect
    /// consumer; the actor keeps the algorithm, the orders and the effects it
    /// ends with, and its result is the algorithm's.
    pub open spec fn run_spec(&self, context: ActorExecutionContext, after: Self, r: ExecuteResult) -> bool {
        exists|
            ic: ReconcileIntentConsumer,
            ec: EffectConsumer,
            ic2: ReconcileIntentConsumer,
            ec2: EffectConsumer,
        |
            {
                &&& ic.orders_spec() == self.orders_spec()
                &&& ic.index() == 0
                &&& ec.effects_spec() == Seq::<Effect>::empty()
                &&& #[trigger] self.algo_spec().runs_to(
                    context,
                    ic,
                    ec,
                    after.algo_spec(),
                    ic2,
                    ec2,
                    r,
                )
                &&& after.orders_spec() == ic2.orders_spec()
                &&& after.effects_spec() == ec2.effects_spec()
                &&& after.id_spec() == self.id_spec()
            }
    }

    /// Executes the algorithm for one tick: the algorithm fills the order
    /// buffer from slot 0 on and the cleared effect buffer; the result is the
    /// algorithm's.
    pub fn run(&mut self, context: &ActorExecutionContext) -> (r: ExecuteResult)
        ensures
            old(self).run_spec(*context, *final(self), r),
            final(self).id_spec() == old(self).id_spec(),
            final(self).algo_spec().contract_deps_spec() == old(self).algo_spec().contract_deps_spec(),
            final(self).algo_spec().num_intents_spec() == old(self).algo_spec().num_intents_spec(),
    {
        let mut intents = self.reconciliator.intent_consumer();
        let mut effects = self.effect_handler.effect_consumer();
        let ghost ic = intents;
        let ghost ec = effects;
        let result = self.algo.execute(context, &mut intents, &mut effects);
        let ghost ic2 = intents;
        let ghost ec2 = effects;
        self.reconciliator.restore(intents);
        self.effect_handler.restore(effects);
        let r = match result {
            Ok(s) => {
                proof {
                    assert(s is Success);
                }
                self.effect_handler.handle_effects()
            },
            Err(e) => Err(e),
        };
        proof {
            assert(r == result);
            assert(old(self).algo_spec().runs_to(*context, ic, ec, self.algo_spec(), ic2, ec2, r));
        }
        r
    }
}

/// Each tick starts from an empty effect buffer: what a tick can leave
/// (algorithm, orders, effects and result) does not depend on the effects
/// that earlier ticks left, so those are gone after it.
pub proof fn lemma_run_forgets_earlier_effects<Algo>(
    a: Actor<Algo>,
    b: Actor<Algo>,
    context: ActorExecutionContext,
    after: Actor<Algo>,
    r: ExecuteResult,
) where Algo: ExecuteTrait<ActorExecutionContext, ReconcileIntentConsumer, EffectConsumer>
    requires
        a.algo_spec() == b.algo_spec(),
        a.orders_spec() == b.orders_spec(),
        a.id_spec() == b.id_spec(),
        a.run_spec(context, after, r),
    ensures
        b.run_spec(context, after, r),
{
    let (ic, ec, ic2, ec2) = choose|
        ic: ReconcileIntentConsumer,
        ec: EffectConsumer,
        ic2: ReconcileIntentConsumer,
        ec2: EffectConsumer,
    |
        {
            &&& ic.orders_spec() == a.orders_spec()
            &&& ic.index() == 0
            &&& ec.effects_spec() == Seq::<Effect>::empty()
            &&& #[trigger] a.algo_spec().runs_to(context, ic, ec, after.algo_spec(), ic2, ec2, r)
            &&& after.orders_spec() == ic2.orders_spec()
            &&& after.effects_spec() == ec2.effects_spec()
            &&& after.id_spec() == a.id_spec()
        };
    assert(b.algo_spec().runs_to(context, ic, ec, after.algo_spec(), ic2, ec2, r));
}

impl<Algo> ActorTrait for Actor<Algo> where
    Algo: ExecuteTrait<ActorExecutionContext, ReconcileIntentConsumer, EffectConsumer>,
 {
    closed spec fn actor_id_spec(&self) -> u32 {
        self.id
    }

    closed spec fn contracts_spec(&self) -> Seq<Seq<char>> {
        self.algo.contract_deps_spec()
    }

    open spec fn ticks_to(&self, ctx: ActorExecutionContext, after: Self, r: ExecuteResult) -> bool {
        self.run_spec(ctx, after, r)
    }

    fn actor_id(&self) -> (r: u32) {
        self.id
    }

    fn contracts(&self) -> (r: Vec<Contract>) {
        self.algo.contract_deps()
    }

    fn execute(&mut self, ctx: &ActorExecutionContext) -> (r: ExecuteResult) {
        self.run(ctx)
    }
}

} // verus!
