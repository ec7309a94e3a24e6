//! What an algorithm is executed against, and what it hands its results to.
use vstd::prelude::*;

use crate::effects::Effect;
use crate::execute_status::{ExecuteResult, FailureStatus};
use crate::intents::Intent;
use crate::trade_types::{Contract, Price, Quantity, Side};

verus! {

/// The names of a list of contracts.
pub open spec fn contract_names(v: Seq<Contract>) -> Seq<Seq<char>> {
    v.map_values(|c: Contract| c@)
}

/// The best price on each side of a market.
pub trait OrderBookTrait {
    /// The best price on the given side, if there is one.
    spec fn top_of_side_spec(&self, side: Side) -> Option<Price>;

    fn top_of_side(&self, side: Side) -> (r: Option<Price>)
        ensures
            r == self.top_of_side_spec(side),
    ;
}

/// The state of the world that an algorithm reads while it executes.
pub trait ExecutionContextTrait {
    type OrderBook: OrderBookTrait;

    /// The current time.
    spec fn time_spec(&self) -> u64;

    fn time(&self) -> (r: u64)
        ensures
            r == self.time_spec(),
    ;

    /// The order book the context gives for `contract`.
    open spec fn order_book_spec(&self, contract: Contract) -> Option<Self::OrderBook> {
        arbitrary()
    }

    /// The order book of a contract, if the context knows it.
    fn get_order_book(&self, contract: &Contract) -> (r: Option<Self::OrderBook>)
        ensures
            r == self.order_book_spec(*contract),
    ;

    /// The position a block holds in a contract, if any.
    fn get_position(&self, block_id: u32, contract: &Contract) -> Option<Quantity>;
}

/// The contracts something depends on.
pub trait ContractDeps {
    /// The names of the contracts, in order; none unless an implementation
    /// says otherwise.
    open spec fn contract_deps_spec(&self) -> Seq<Seq<char>> {
        Seq::empty()
    }

    fn contract_deps(&self) -> (r: Vec<Contract>)
        ensures
            contract_names(r@) == self.contract_deps_spec(),
    ;
}

/// Receives the intents produced during an execution.
pub trait IntentConsumerTrait: Sized {
    /// Whether consuming `intent` can turn this consumer into `after` with
    /// result `r`.
    open spec fn consumes(&self, intent: Intent, after: Self, r: Result<(), FailureStatus>) -> bool {
        arbitrary()
    }

    /// Consumes an intent, or reports a failure.
    fn consume(&mut self, intent: &Intent) -> (r: Result<(), FailureStatus>)
        ensures
            old(self).consumes(*intent, *final(self), r),
    ;
}

/// Consuming `intents` in order from the consumer `ic`, stopping at the first
/// refusal, can end with the consumer `ic2`; `ok` says whether every intent
/// was taken.
pub open spec fn consume_run_to<I: IntentConsumerTrait>(
    ic: I,
    intents: Seq<Intent>,
    ic2: I,
    ok: bool,
) -> bool {
    exists|ics: Seq<I>, results: Seq<Result<(), FailureStatus>>|
        {
            &&& #[trigger] consume_trace(ics, intents, results)
            &&& ics[0] == ic
            &&& ics.last() == ic2
            &&& ok == (results.len() == intents.len() && forall|k: int|
                0 <= k < results.len() ==> #[trigger] results[k] is Ok)
        }
}

/// The consumer went through `ics`, taking `intents[k]` from `ics[k]` to
/// `ics[k + 1]` with result `results[k]`, and stopped at its first refusal.
pub open spec fn consume_trace<I: IntentConsumerTrait>(
    ics: Seq<I>,
    intents: Seq<Intent>,
    results: Seq<Result<(), FailureStatus>>,
) -> bool {
    &&& results.len() <= intents.len()
    &&& ics.len() == results.len() + 1
    &&& forall|k: int|
        0 <= k < results.len() ==> #[trigger] ics[k].consumes(intents[k], ics[k + 1], results[k])
    &&& forall|k: int| 0 <= k < results.len() - 1 ==> #[trigger] results[k] is Ok
    &&& results.len() < intents.len() ==> results.len() > 0 && results.last() is Err
}

/// Receives the effects scheduled during an execution.
pub trait EffectConsumerTrait {
    /// The effects scheduled so far.
    spec fn scheduled(&self) -> Seq<Effect>;

    /// Whether the consumer, in its present state, takes `effect`; unspecified
    /// unless an implementation says otherwise.
    open spec fn accepts(&self, effect: Effect) -> bool {
        arbitrary()
    }

    /// Schedules an effect where the consumer takes it; otherwise reports a
    /// failure and schedules nothing.
    fn schedule_effect(&mut self, effect: Effect) -> (r: Result<(), FailureStatus>)
        ensures
            r is Ok <==> old(self).accepts(effect),
            r is Ok ==> final(self).scheduled() == old(self).scheduled().push(effect),
            r is Err ==> final(self).scheduled() == old(self).scheduled(),
    ;

    /// Schedules a suspension.
    fn schedule_suspended_effect(&mut self) -> (r: Result<(), FailureStatus>)
        ensures
            r is Ok <==> old(self).accepts(Effect::Suspend),
            r is Ok ==> final(self).scheduled() == old(self).scheduled().push(Effect::Suspend),
            r is Err ==> final(self).scheduled() == old(self).scheduled(),
    {
        self.schedule_effect(Effect::Suspend)
    }

    /// Schedules a termination.
    fn schedule_terminate_effect(&mut self) -> (r: Result<(), FailureStatus>)
        ensures
            r is Ok <==> old(self).accepts(Effect::Terminate),
            r is Ok ==> final(self).scheduled() == old(self).scheduled().push(Effect::Terminate),
            r is Err ==> final(self).scheduled() == old(self).scheduled(),
    {
        self.schedule_effect(Effect::Terminate)
    }

    /// Schedules a timer that fires at `new_time`.
    fn schedule_alarm_clock_effect(&mut self, new_time: u64) -> (r: Result<(), FailureStatus>)
        ensures
            r is Ok <==> old(self).accepts(Effect::Timer(new_time)),
            r is Ok ==> final(self).scheduled() == old(self).scheduled().push(
                Effect::Timer(new_time),
            ),
            r is Err ==> final(self).scheduled() == old(self).scheduled(),
    {
        self.schedule_effect(Effect::Timer(new_time))
    }
}

/// The effects scheduled after `es` were scheduled one by one, each taken,
/// onto the effects `start` (see `EffectConsumerTrait::schedule_effect`).
pub open spec fn schedule_run(start: Seq<Effect>, es: Seq<Effect>) -> Seq<Effect>
    decreases es.len(),
{
    if es.len() == 0 {
        start
    } else {
        schedule_run(start, es.drop_last()).push(es.last())
    }
}

/// Effects scheduled one by one, each taken, follow those scheduled before,
/// in the order they were scheduled.
pub proof fn lemma_schedule_run(start: Seq<Effect>, es: Seq<Effect>)
    ensures
        schedule_run(start, es) == start + es,
    decreases es.len(),
{
    if es.len() > 0 {
        lemma_schedule_run(start, es.drop_last());
        assert(start + es =~= (start + es.drop_last()).push(es.last()));
    }
}

/// Anything that can be executed in a context, handing intents and effects to
/// the given consumers.
///
/// The spec functions describe an implementation; each implementation in this
/// library defines them, and where one does not they stay unspecified.
pub trait ExecuteTrait<C: ExecutionContextTrait, I: IntentConsumerTrait, E: EffectConsumerTrait>:
    ContractDeps + Sized {
    /// The number of intents one execution produces.
    open spec fn num_intents_spec(&self) -> nat {
        arbitrary()
    }

    fn num_intents(&self) -> (r: usize)
        ensures
            r == self.num_intents_spec(),
    ;

    /// Whether one execution, from this value in `context` with the consumers
    /// `ic` and `ec`, can end with the value `after`, the consumers `ic2` and
    /// `ec2`, and the result `r`.
    open spec fn runs_to(
        &self,
        context: C,
        ic: I,
        ec: E,
        after: Self,
        ic2: I,
        ec2: E,
        r: ExecuteResult,
    ) -> bool {
        arbitrary()
    }

    /// Executes once. What is executed may change (a block keeps its state),
    /// but not its contracts or its number of intents.
    fn execute(&mut self, context: &C, intent_consumer: &mut I, effect_consumer: &mut E) -> (r:
        ExecuteResult)
        ensures
            old(self).runs_to(
                *context,
                *old(intent_consumer),
                *old(effect_consumer),
                *final(self),
                *final(intent_consumer),
                *final(effect_consumer),
                r,
            ),
            final(self).contract_deps_spec() == old(self).contract_deps_spec(),
            final(self).num_intents_spec() == old(self).num_intents_spec(),
    ;
}

/// The mock order book: the best price on either side is 100 cents.
pub struct OrderBook;

impl OrderBookTrait for OrderBook {
    open spec fn top_of_side_spec(&self, side: Side) -> Option<Price> {
        Some(Price { cents: 100 })
    }

    fn top_of_side(&self, side: Side) -> (r: Option<Price>) {
        Some(Price { cents: 100 })
    }
}

/// Execution context passed to blocks during execution.
pub struct ExecutionContext {
    pub time: u64,
}

impl ExecutionContext {
    /// Creates an execution context at the given time.
    pub fn new(time: u64) -> (r: ExecutionContext)
        ensures
            r.time == time,
    {
        ExecutionContext { time }
    }

    /// The order book of a contract (a mock that always has one).
    pub fn get_order_book(&self, contract: &Contract) -> (r: Option<OrderBook>)
        ensures
            r is Some,
    {
        Some(OrderBook)
    }
}

impl ExecutionContextTrait for ExecutionContext {
    type OrderBook = OrderBook;

    open spec fn time_spec(&self) -> u64 {
        self.time
    }

    fn time(&self) -> (r: u64) {
        self.time
    }

    open spec fn order_book_spec(&self, contract: Contract) -> Option<OrderBook> {
        Some(OrderBook)
    }

    /// The mock book, whatever the contract.
    fn get_order_book(&self, contract: &Contract) -> (r: Option<OrderBook>)
        ensures
            r is Some,
    {
        Some(OrderBook)
    }

    /// No positions are known.
    fn get_position(&self, block_id: u32, contract: &Contract) -> (r: Option<Quantity>)
        ensures
            r is None,
    {
        None
    }
}

} // verus!
