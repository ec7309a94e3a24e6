//! Execution plans: woven nodes in dependency order, used as one composite
//! algorithm.
use vstd::prelude::*;

use crate::block_type::{Block, BlockType};
use crate::errors::RegistryError;
use crate::execute_status::{ExecuteResult, FailureStatus, SuccessStatus};
use crate::execution::{
    consume_run_to, consume_trace, contract_names, ContractDeps, EffectConsumerTrait, ExecuteTrait,
    ExecutionContext,
    ExecutionContextTrait, IntentConsumerTrait,
};
use crate::effects::Effect;
use crate::graph::{acyclic, is_topological_order};
use crate::intents::{Intent, SlotIntent};
use crate::registry::{ChannelRegistry, ChannelValue};
use crate::trade_types::Contract;
use crate::weave::{
    inputs_of, is_dependency_graph, outputs_of, register_all, some_duplicate, some_unproduced,
    weave_nodes,
    weave_prefix, TopoOrdered,
};

verus! {

/// The lists of `parts`, one after the other.
pub open spec fn concat_all(parts: Seq<Seq<Seq<char>>>) -> Seq<Seq<char>>
    decreases parts.len(),
{
    if parts.len() == 0 {
        Seq::empty()
    } else {
        concat_all(parts.drop_last()) + parts.last()
    }
}

/// The sum of `parts`, capped at `usize::MAX`.
pub open spec fn capped_sum(parts: Seq<nat>) -> nat
    decreases parts.len(),
{
    if parts.len() == 0 {
        0
    } else {
        let s = capped_sum(parts.drop_last()) + parts.last();
        if s > usize::MAX {
            usize::MAX as nat
        } else {
            s
        }
    }
}

impl<X: ContractDeps> ContractDeps for TopoOrdered<X> {
    /// The contracts of the nodes, node after node.
    open spec fn contract_deps_spec(&self) -> Seq<Seq<char>> {
        concat_all(self.0@.map_values(|x: X| x.contract_deps_spec()))
    }

    fn contract_deps(&self) -> (r: Vec<Contract>) {
        let ghost parts = self.0@.map_values(|x: X| x.contract_deps_spec());
        let mut deps: Vec<Contract> = Vec::new();
        let n = self.0.len();
        proof {
            assert(parts.take(0) =~= Seq::<Seq<Seq<char>>>::empty());
            assert(contract_names(deps@) =~= Seq::<Seq<char>>::empty());
        }
        for i in 0..n
            invariant
                n == self.0@.len(),
                parts == self.0@.map_values(|x: X| x.contract_deps_spec()),
                contract_names(deps@) == concat_all(parts.take(i as int)),
        {
            let mut more = self.0[i].contract_deps();
            let ghost before = deps@;
            let ghost added = more@;
            deps.append(&mut more);
            proof {
                assert(parts.take(i as int + 1).drop_last() =~= parts.take(i as int));
                assert(parts.take(i as int + 1).last() == parts[i as int]);
                assert(contract_names(deps@) =~= contract_names(before) + contract_names(added));
            }
        }
        proof {
            assert(parts.take(n as int) =~= parts);
        }
        deps
    }
}

impl<X> TopoOrdered<X> {
    /// Items with the same contracts and numbers of intents, one by one, give
    /// the same contracts and number of intents together.
    proof fn lemma_same_parts<C, I, E>(&self, items: Seq<X>) where
        C: ExecutionContextTrait,
        I: IntentConsumerTrait,
        E: EffectConsumerTrait,
        X: ExecuteTrait<C, I, E>,

        requires
            items.len() == self.0@.len(),
            forall|k: int|
                0 <= k < items.len() ==> (#[trigger] self.0@[k]).contract_deps_spec()
                    == items[k].contract_deps_spec() && self.0@[k].num_intents_spec()
                    == items[k].num_intents_spec(),
        ensures
            self.0@.map_values(|x: X| x.contract_deps_spec()) == items.map_values(
                |x: X| x.contract_deps_spec(),
            ),
            self.0@.map_values(|x: X| x.num_intents_spec()) == items.map_values(
                |x: X| x.num_intents_spec(),
            ),
    {
        assert(self.0@.map_values(|x: X| x.contract_deps_spec()) =~= items.map_values(
            |x: X| x.contract_deps_spec(),
        ));
        assert(self.0@.map_values(|x: X| x.num_intents_spec()) =~= items.map_values(
            |x: X| x.num_intents_spec(),
        ));
    }
}

/// A run of the plan `items` in `context`: the items were executed in order,
/// the `k`-th from the consumers `ics[k]`, `ecs[k]` to `ics[k + 1]`,
/// `ecs[k + 1]`, becoming `afters[k]` with result `results[k]`; the run
/// stopped at the first failure, and the items it did not reach are as they
/// were.
pub open spec fn plan_run<C, I, E, X>(
    items: Seq<X>,
    context: C,
    ics: Seq<I>,
    ecs: Seq<E>,
    afters: Seq<X>,
    results: Seq<ExecuteResult>,
) -> bool where
    C: ExecutionContextTrait,
    I: IntentConsumerTrait,
    E: EffectConsumerTrait,
    X: ExecuteTrait<C, I, E>,
 {
    &&& results.len() <= items.len()
    &&& ics.len() == results.len() + 1
    &&& ecs.len() == results.len() + 1
    &&& afters.len() == items.len()
    &&& forall|k: int|
        0 <= k < results.len() ==> #[trigger] items[k].runs_to(
            context,
            ics[k],
            ecs[k],
            afters[k],
            ics[k + 1],
            ecs[k + 1],
            results[k],
        )
    &&& forall|k: int| 0 <= k < results.len() - 1 ==> #[trigger] results[k] is Ok
    &&& results.len() < items.len() ==> results.len() > 0 && results.last() is Err
    &&& forall|k: int| results.len() <= k < items.len() ==> #[trigger] afters[k] == items[k]
}

/// The result of a run whose item results are `results`: the first failure,
/// or success.
pub open spec fn plan_result(results: Seq<ExecuteResult>) -> ExecuteResult {
    if results.len() > 0 && results.last() is Err {
        results.last()
    } else {
        Ok(SuccessStatus::Success)
    }
}

impl<C, I, E, X> ExecuteTrait<C, I, E> for TopoOrdered<X> where
    C: ExecutionContextTrait,
    I: IntentConsumerTrait,
    E: EffectConsumerTrait,
    X: ExecuteTrait<C, I, E>,
 {
    /// The intents of the nodes together (capped at `usize::MAX`).
    open spec fn num_intents_spec(&self) -> nat {
        capped_sum(self.0@.map_values(|x: X| x.num_intents_spec()))
    }

    fn num_intents(&self) -> (r: usize) {
        let ghost parts = self.0@.map_values(|x: X| x.num_intents_spec());
        let mut total: usize = 0;
        let n = self.0.len();
        proof {
            assert(parts.take(0) =~= Seq::<nat>::empty());
        }
        for i in 0..n
            invariant
                n == self.0@.len(),
                parts == self.0@.map_values(|x: X| x.num_intents_spec()),
                total == capped_sum(parts.take(i as int)),
        {
            let k = self.0[i].num_intents();
            proof {
                assert(parts.take(i as int + 1).drop_last() =~= parts.take(i as int));
                assert(parts.take(i as int + 1).last() == parts[i as int]);
            }
            total = total.saturating_add(k);
        }
        proof {
            assert(parts.take(n as int) =~= parts);
        }
        total
    }

    /// A run of the nodes in order (see `plan_run`).
    open spec fn runs_to(
        &self,
        context: C,
        ic: I,
        ec: E,
        after: Self,
        ic2: I,
        ec2: E,
        r: ExecuteResult,
    ) -> bool {
        exists|ics: Seq<I>, ecs: Seq<E>, results: Seq<ExecuteResult>|
            {
                &&& #[trigger] plan_run(self.0@, context, ics, ecs, after.0@, results)
                &&& ics[0] == ic
                &&& ecs[0] == ec
                &&& ics.last() == ic2
                &&& ecs.last() == ec2
                &&& r == plan_result(results)
            }
    }

    /// Executes the nodes in order with the same context and consumers,
    /// stopping at the first that fails and returning its failure; with no
    /// nodes it succeeds.
    fn execute(&mut self, context: &C, intent_consumer: &mut I, effect_consumer: &mut E) -> (r:
        ExecuteResult)
        ensures
            old(self).0@.len() == 0 ==> r is Ok,
    {
        let ghost items = self.0@;
        let ghost mut ics: Seq<I> = seq![*intent_consumer];
        let ghost mut ecs: Seq<E> = seq![*effect_consumer];
        let ghost mut results: Seq<ExecuteResult> = Seq::empty();
        let n = self.0.len();
        for i in 0..n
            invariant
                n == self.0@.len(),
                items == old(self).0@,
                items.len() == n,
                ics.len() == i + 1,
                ecs.len() == i + 1,
                results.len() == i,
                ics[0] == *old(intent_consumer),
                ecs[0] == *old(effect_consumer),
                ics.last() == *intent_consumer,
                ecs.last() == *effect_consumer,
                forall|k: int|
                    0 <= k < i ==> #[trigger] items[k].runs_to(
                        *context,
                        ics[k],
                        ecs[k],
                        self.0@[k],
                        ics[k + 1],
                        ecs[k + 1],
                        results[k],
                    ),
                forall|k: int| 0 <= k < i ==> #[trigger] results[k] is Ok,
                forall|k: int| i <= k < n ==> #[trigger] self.0@[k] == items[k],
                forall|k: int|
                    0 <= k < n ==> (#[trigger] self.0@[k]).contract_deps_spec()
                        == items[k].contract_deps_spec() && self.0@[k].num_intents_spec()
                        == items[k].num_intents_spec(),
        {
            let ghost before = self.0@;
            let res = self.0[i].execute(context, intent_consumer, effect_consumer);
            proof {
                ics = ics.push(*intent_consumer);
                ecs = ecs.push(*effect_consumer);
                results = results.push(res);
                assert(before[i as int] == items[i as int]);
                assert forall|k: int| 0 <= k < i + 1 implies #[trigger] items[k].runs_to(
                    *context,
                    ics[k],
                    ecs[k],
                    self.0@[k],
                    ics[k + 1],
                    ecs[k + 1],
                    results[k],
                ) by {
                    if k < i {
                        assert(self.0@[k] == before[k]);
                    }
                }
                assert forall|k: int| 0 <= k < n implies (#[trigger] self.0@[k]).contract_deps_spec()
                    == items[k].contract_deps_spec() && self.0@[k].num_intents_spec()
                    == items[k].num_intents_spec() by {}
                self.lemma_same_parts(items);
            }
            match res {
                Ok(_) => {},
                Err(e) => {
                    proof {
                        assert(plan_run(items, *context, ics, ecs, self.0@, results));
                    }
                    return Err(e);
                },
            }
        }
        proof {
            self.lemma_same_parts(items);
            assert(plan_run(items, *context, ics, ecs, self.0@, results));
        }
        Ok(SuccessStatus::Success)
    }
}

/// The intents of a list of slot intents, in order.
pub open spec fn intents_of(v: Seq<SlotIntent>) -> Seq<Intent> {
    v.map_values(|si: SlotIntent| si.intent)
}

/// One block's turn in a run, in `context`: where the block can execute
/// against the channels `reg` with the effect consumer `ec` (see
/// `Block::executes`), it executes (see `Block::executes_to`), turning into
/// `after` and the channels into `reg2`, its effects are scheduled, taking the
/// effect consumer to `ec2`, and its slot intents go to the intent consumer in
/// slot order, from `ic` to `ic2`; the run goes on past it exactly when every
/// intent was taken. A block that cannot execute changes nothing, schedules
/// nothing, hands nothing to the intent consumer, and stops the run.
pub open spec fn block_turn<I: IntentConsumerTrait, E: EffectConsumerTrait>(
    block: Block,
    context: ExecutionContext,
    reg: Map<Seq<char>, ChannelValue>,
    ec: E,
    ic: I,
    after: Block,
    reg2: Map<Seq<char>, ChannelValue>,
    ec2: E,
    ic2: I,
    goes_on: bool,
) -> bool {
    if block.executes(context, reg, |e: Effect| ec.accepts(e)) {
        &&& ec2.scheduled() == ec.scheduled() + block.effects_of(context, reg)
        &&& exists|v: Seq<SlotIntent>|
            {
                &&& block.executes_to(context, reg, |e: Effect| ec.accepts(e), after, reg2, v)
                &&& #[trigger] consume_run_to(ic, intents_of(v), ic2, goes_on)
            }
    } else {
        &&& after == block
        &&& reg2 == reg
        &&& ec2.scheduled() == ec.scheduled()
        &&& ic2 == ic
        &&& !goes_on
    }
}

/// A run of the blocks `blocks` in `context`: block `k` took its turn (see
/// `block_turn`) from the channels `regs[k]` and the consumers `ecs[k]`,
/// `ics[k]` to `regs[k + 1]`, `ecs[k + 1]`, `ics[k + 1]`, becoming
/// `afters[k]`, and `goes_on[k]` says whether the run went on past it. The
/// run stops at its first failure, and the blocks it did not reach are as
/// they were.
pub open spec fn block_run<I: IntentConsumerTrait, E: EffectConsumerTrait>(
    blocks: Seq<Block>,
    context: ExecutionContext,
    regs: Seq<Map<Seq<char>, ChannelValue>>,
    ecs: Seq<E>,
    ics: Seq<I>,
    afters: Seq<Block>,
    goes_on: Seq<bool>,
) -> bool {
    &&& goes_on.len() <= blocks.len()
    &&& regs.len() == goes_on.len() + 1
    &&& ecs.len() == goes_on.len() + 1
    &&& ics.len() == goes_on.len() + 1
    &&& afters.len() == blocks.len()
    &&& forall|k: int|
        0 <= k < goes_on.len() ==> block_turn(
            blocks[k],
            context,
            regs[k],
            ecs[k],
            ics[k],
            afters[k],
            regs[k + 1],
            ecs[k + 1],
            ics[k + 1],
            #[trigger] goes_on[k],
        )
    &&& forall|k: int| 0 <= k < goes_on.len() - 1 ==> #[trigger] goes_on[k]
    &&& goes_on.len() < blocks.len() ==> goes_on.len() > 0 && !goes_on.last()
    &&& forall|k: int| goes_on.len() <= k < blocks.len() ==> #[trigger] afters[k] == blocks[k]
}

/// The effects that the first `n` turns of a run (see `block_run`) scheduled,
/// turn after turn: a block that could execute scheduled its effects (see
/// `Block::effects_of`), one that could not scheduled none.
pub open spec fn run_effects<E: EffectConsumerTrait>(
    blocks: Seq<Block>,
    context: ExecutionContext,
    regs: Seq<Map<Seq<char>, ChannelValue>>,
    ecs: Seq<E>,
    n: nat,
) -> Seq<Effect>
    decreases n,
{
    if n == 0 {
        Seq::empty()
    } else {
        let k = n - 1;
        let turn = if blocks[k].executes(context, regs[k], |e: Effect| ecs[k].accepts(e)) {
            blocks[k].effects_of(context, regs[k])
        } else {
            Seq::empty()
        };
        run_effects(blocks, context, regs, ecs, (n - 1) as nat) + turn
    }
}

proof fn lemma_run_effects_prefix<I: IntentConsumerTrait, E: EffectConsumerTrait>(
    blocks: Seq<Block>,
    context: ExecutionContext,
    regs: Seq<Map<Seq<char>, ChannelValue>>,
    ecs: Seq<E>,
    ics: Seq<I>,
    afters: Seq<Block>,
    goes_on: Seq<bool>,
    j: nat,
)
    requires
        block_run(blocks, context, regs, ecs, ics, afters, goes_on),
        j <= goes_on.len(),
    ensures
        ecs[j as int].scheduled() == ecs[0].scheduled() + run_effects(blocks, context, regs, ecs, j),
    decreases j,
{
    if j == 0 {
        assert(ecs[0].scheduled() + Seq::<Effect>::empty() =~= ecs[0].scheduled());
    } else {
        let k = j - 1;
        lemma_run_effects_prefix(blocks, context, regs, ecs, ics, afters, goes_on, k as nat);
        assert(block_turn(
            blocks[k],
            context,
            regs[k],
            ecs[k],
            ics[k],
            afters[k],
            regs[k + 1],
            ecs[k + 1],
            ics[k + 1],
            goes_on[k],
        ));
        let turn = if blocks[k].executes(context, regs[k], |e: Effect| ecs[k].accepts(e)) {
            blocks[k].effects_of(context, regs[k])
        } else {
            Seq::empty()
        };
        assert(ecs[0].scheduled() + (run_effects(blocks, context, regs, ecs, k as nat) + turn)
            =~= (ecs[0].scheduled() + run_effects(blocks, context, regs, ecs, k as nat)) + turn);
    }
}

/// A run schedules the effects of its blocks in block order: the effect
/// consumer ends holding the effects it held before, followed by the effects
/// of each block that executed, turn after turn (see `run_effects`).
pub proof fn lemma_run_effects<I: IntentConsumerTrait, E: EffectConsumerTrait>(
    blocks: Seq<Block>,
    context: ExecutionContext,
    regs: Seq<Map<Seq<char>, ChannelValue>>,
    ecs: Seq<E>,
    ics: Seq<I>,
    afters: Seq<Block>,
    goes_on: Seq<bool>,
)
    requires
        block_run(blocks, context, regs, ecs, ics, afters, goes_on),
    ensures
        ecs.last().scheduled() == ecs[0].scheduled() + run_effects(
            blocks,
            context,
            regs,
            ecs,
            goes_on.len(),
        ),
{
    lemma_run_effects_prefix(blocks, context, regs, ecs, ics, afters, goes_on, goes_on.len());
}

/// Takes one block's turn (see `block_turn`): executes it against the
/// registry and hands its slot intents, in order, to the intent consumer,
/// stopping at the first refusal. The result says whether the run goes on.
fn run_block<I: IntentConsumerTrait, E: EffectConsumerTrait>(
    block: &mut Block,
    ctx: &ExecutionContext,
    registry: &mut ChannelRegistry,
    intent_consumer: &mut I,
    effect_consumer: &mut E,
) -> (ok: bool)
    ensures
        block_turn(
            *old(block),
            *ctx,
            old(registry)@,
            *old(effect_consumer),
            *old(intent_consumer),
            *final(block),
            final(registry)@,
            *final(effect_consumer),
            *final(intent_consumer),
            ok,
        ),
        final(block).contract_deps_spec() == old(block).contract_deps_spec(),
        final(block).num_intents_spec() == old(block).num_intents_spec(),
{
    let ghost b0 = *block;
    let ghost reg0 = registry@;
    let ghost ec0 = *effect_consumer;
    let res = block.execute(ctx, registry, effect_consumer);
    proof {
        assert((|e: Effect| ec0.accepts(e)) =~= (|e: Effect| old(effect_consumer).accepts(e)));
    }
    match res {
        None => false,
        Some(slot_intents) => {
            let ghost intents = intents_of(slot_intents@);
            let ghost mut ics: Seq<I> = seq![*intent_consumer];
            let ghost mut results: Seq<Result<(), FailureStatus>> = Seq::empty();
            let ghost after_b = *block;
            let ghost after_reg = registry@;
            let ghost after_ec = *effect_consumer;
            let m = slot_intents.len();
            for k in 0..m
                invariant
                    m == slot_intents@.len(),
                    *effect_consumer == after_ec,
                    after_ec.scheduled() == old(effect_consumer).scheduled() + old(block).effects_of(
                        *ctx,
                        old(registry)@,
                    ),
                    intents == intents_of(slot_intents@),
                    *block == after_b,
                    registry@ == after_reg,
                    old(block).executes(
                        *ctx,
                        old(registry)@,
                        |e: Effect| old(effect_consumer).accepts(e),
                    ),
                    old(block).executes_to(
                        *ctx,
                        old(registry)@,
                        |e: Effect| old(effect_consumer).accepts(e),
                        after_b,
                        after_reg,
                        slot_intents@,
                    ),
                    after_b.contract_deps_spec() == old(block).contract_deps_spec(),
                    after_b.num_intents_spec() == old(block).num_intents_spec(),
                    ics.len() == k + 1,
                    results.len() == k,
                    ics[0] == *old(intent_consumer),
                    ics.last() == *intent_consumer,
                    forall|k2: int|
                        0 <= k2 < k ==> #[trigger] ics[k2].consumes(
                            intents[k2],
                            ics[k2 + 1],
                            results[k2],
                        ),
                    forall|k2: int| 0 <= k2 < k ==> #[trigger] results[k2] is Ok,
            {
                let ghost before = *intent_consumer;
                let c = intent_consumer.consume(&slot_intents[k].intent);
                proof {
                    assert(intents[k as int] == slot_intents@[k as int].intent);
                    let ghost ics0 = ics;
                    let ghost results0 = results;
                    ics = ics.push(*intent_consumer);
                    results = results.push(c);
                    assert forall|k2: int|
                        0 <= k2 < k + 1 implies #[trigger] ics[k2].consumes(
                        intents[k2],
                        ics[k2 + 1],
                        results[k2],
                    ) by {
                        if k2 < k {
                            assert(ics[k2] == ics0[k2] && ics[k2 + 1] == ics0[k2 + 1]);
                            assert(results[k2] == results0[k2]);
                        } else {
                            assert(ics[k2] == before);
                        }
                    }
                }
                match c {
                    Ok(_) => {},
                    Err(_) => {
                        proof {
                            assert(consume_trace(ics, intents, results));
                            assert(results[k as int] is Err);
                            assert(consume_run_to(*old(intent_consumer), intents, *intent_consumer, false));
                        }
                        return false;
                    },
                }
            }
            proof {
                assert(consume_trace(ics, intents, results));
                assert(consume_run_to(*old(intent_consumer), intents, *intent_consumer, true));
            }
            true
        },
    }
}

/// An algorithm built from blocks: the woven blocks, in dependency order, and
/// the registry of the channels they share.
pub struct Algorithm {
    pub registry: ChannelRegistry,
    pub plan: TopoOrdered<Block>,
}

impl Algorithm {
    /// Weaves the stored blocks against a fresh registry (see `weave_nodes`):
    /// fails where a registration fails, where two blocks write the same
    /// output channel, where an input has neither a producer
    /// nor a channel, where the dependencies form a cycle, or where weaving a
    /// block fails; the blocks are woven in a topological order and the
    /// registry is what the weave leaves.
    pub fn from_blocks(blocks: &[BlockType]) -> (r: Result<Algorithm, RegistryError>)
        ensures
            r matches Ok(a) ==> a.plan.0@.len() == blocks@.len(),
            forall|e: Seq<Seq<usize>>|
                #![trigger is_dependency_graph(inputs_of(blocks@), outputs_of(blocks@), e)]
                is_dependency_graph(inputs_of(blocks@), outputs_of(blocks@), e) ==> (r is Ok
                    ==> acyclic(e)),
            !register_all::<Block, BlockType>(blocks@, Map::empty()).1 ==> r is Err,
            register_all::<Block, BlockType>(blocks@, Map::empty()).1 && some_duplicate::<
                Block,
                BlockType,
            >(blocks@) ==> r matches Err(RegistryError::DuplicateOutputKey(_)),
            register_all::<Block, BlockType>(blocks@, Map::empty()).1 && !some_duplicate::<
                Block,
                BlockType,
            >(blocks@) && some_unproduced::<
                Block,
                BlockType,
            >(blocks@, register_all::<Block, BlockType>(blocks@, Map::empty()).0) ==> r matches Err(
                RegistryError::MissingProducer(_),
            ),
            register_all::<Block, BlockType>(blocks@, Map::empty()).1 && !some_duplicate::<
                Block,
                BlockType,
            >(blocks@) && !some_unproduced::<
                Block,
                BlockType,
            >(blocks@, register_all::<Block, BlockType>(blocks@, Map::empty()).0) ==> forall|
                e: Seq<Seq<usize>>,
            |
                #![trigger is_dependency_graph(inputs_of(blocks@), outputs_of(blocks@), e)]
                is_dependency_graph(inputs_of(blocks@), outputs_of(blocks@), e) ==> {
                    &&& !acyclic(e) ==> (r matches Err(RegistryError::CycleDetected(_)))
                    &&& acyclic(e) ==> exists|order: Seq<usize>|
                        {
                            &&& is_topological_order(e, order)
                            &&& (r is Ok) == weave_prefix::<Block, BlockType>(
                                blocks@,
                                order,
                                blocks@.len(),
                                register_all::<Block, BlockType>(blocks@, Map::empty()).0,
                            ).1
                            &&& (r matches Ok(a) ==> a.registry@ == weave_prefix::<
                                Block,
                                BlockType,
                            >(
                                blocks@,
                                order,
                                blocks@.len(),
                                register_all::<Block, BlockType>(blocks@, Map::empty()).0,
                            ).0)
                        }
                },
    {
        let mut registry = ChannelRegistry::new();
        let plan = match weave_nodes(blocks, &mut registry) {
            Ok(p) => p,
            Err(err) => {
                return Err(err);
            },
        };
        Ok(Algorithm { registry, plan })
    }
}

impl ContractDeps for Algorithm {
    /// The contracts of the blocks, block after block.
    open spec fn contract_deps_spec(&self) -> Seq<Seq<char>> {
        self.plan.contract_deps_spec()
    }

    fn contract_deps(&self) -> (r: Vec<Contract>) {
        self.plan.contract_deps()
    }
}

impl<C, I, E> ExecuteTrait<C, I, E> for Algorithm where
    C: ExecutionContextTrait,
    I: IntentConsumerTrait,
    E: EffectConsumerTrait,
 {
    /// The intents of the blocks together (capped at `usize::MAX`).
    open spec fn num_intents_spec(&self) -> nat {
        capped_sum(self.plan.0@.map_values(|b: Block| b.num_intents_spec()))
    }

    fn num_intents(&self) -> (r: usize) {
        let ghost parts = self.plan.0@.map_values(|b: Block| b.num_intents_spec());
        let mut total: usize = 0;
        let n = self.plan.0.len();
        proof {
            assert(parts.take(0) =~= Seq::<nat>::empty());
        }
        for i in 0..n
            invariant
                n == self.plan.0@.len(),
                parts == self.plan.0@.map_values(|b: Block| b.num_intents_spec()),
                total == capped_sum(parts.take(i as int)),
        {
            let k = self.plan.0[i].num_intents();
            proof {
                assert(parts.take(i as int + 1).drop_last() =~= parts.take(i as int));
                assert(parts.take(i as int + 1).last() == parts[i as int]);
            }
            total = total.saturating_add(k);
        }
        proof {
            assert(parts.take(n as int) =~= parts);
        }
        total
    }

    /// A run of the blocks in order at the context's time against the shared
    /// registry, their effects going to the effect consumer and their intents
    /// to the intent consumer (see `block_run`): it succeeds exactly when it
    /// went on past every block, and the registry and the consumers are what
    /// the run left. With no blocks it succeeds and changes nothing.
    open spec fn runs_to(
        &self,
        context: C,
        ic: I,
        ec: E,
        after: Self,
        ic2: I,
        ec2: E,
        r: ExecuteResult,
    ) -> bool {
        &&& after.plan.0@.len() == self.plan.0@.len()
        &&& self.plan.0@.len() == 0 ==> r is Ok && after == *self && ic2 == ic && ec2 == ec
        &&& exists|
            regs: Seq<Map<Seq<char>, ChannelValue>>,
            ecs: Seq<E>,
            ics: Seq<I>,
            goes_on: Seq<bool>,
        |
            {
                &&& #[trigger] block_run(
                    self.plan.0@,
                    ExecutionContext { time: context.time_spec() },
                    regs,
                    ecs,
                    ics,
                    after.plan.0@,
                    goes_on,
                )
                &&& regs[0] == self.registry@
                &&& ecs[0] == ec
                &&& ics[0] == ic
                &&& regs.last() == after.registry@
                &&& ecs.last() == ec2
                &&& ics.last() == ic2
                &&& (r is Ok <==> goes_on.len() == self.plan.0@.len() && forall|k: int|
                    0 <= k < goes_on.len() ==> #[trigger] goes_on[k])
            }
    }

    /// Executes the blocks in order at the context's time, each against the
    /// shared registry: the intents of each block go to the intent consumer in
    /// slot order and its effects to the effect consumer. Stops with a failure
    /// at the first block that cannot execute or intent that is refused.
    fn execute(&mut self, context: &C, intent_consumer: &mut I, effect_consumer: &mut E) -> (r:
        ExecuteResult)
        ensures
            old(self).plan.0@.len() == 0 ==> r is Ok,
    {
        let ctx = ExecutionContext::new(context.time());
        assert(ctx == ExecutionContext { time: context.time_spec() });
        let ghost blocks = self.plan.0@;
        let ghost mut regs: Seq<Map<Seq<char>, ChannelValue>> = seq![self.registry@];
        let ghost mut ecs: Seq<E> = seq![*effect_consumer];
        let ghost mut ics: Seq<I> = seq![*intent_consumer];
        let ghost mut goes_on: Seq<bool> = Seq::empty();
        let n = self.plan.0.len();
        for i in 0..n
            invariant
                n == self.plan.0@.len(),
                blocks == old(self).plan.0@,
                blocks.len() == n,
                ctx == (ExecutionContext { time: context.time_spec() }),
                goes_on.len() == i,
                regs.len() == i + 1,
                ecs.len() == i + 1,
                ics.len() == i + 1,
                regs[0] == old(self).registry@,
                ecs[0] == *old(effect_consumer),
                ics[0] == *old(intent_consumer),
                regs.last() == self.registry@,
                ecs.last() == *effect_consumer,
                ics.last() == *intent_consumer,
                forall|k: int| 0 <= k < i ==> #[trigger] goes_on[k],
                forall|k: int|
                    0 <= k < i ==> block_turn(
                        blocks[k],
                        ctx,
                        regs[k],
                        ecs[k],
                        ics[k],
                        self.plan.0@[k],
                        regs[k + 1],
                        ecs[k + 1],
                        ics[k + 1],
                        #[trigger] goes_on[k],
                    ),
                forall|k: int| i <= k < n ==> #[trigger] self.plan.0@[k] == blocks[k],
                i == 0 ==> *self == *old(self) && *intent_consumer == *old(intent_consumer)
                    && *effect_consumer == *old(effect_consumer),
                forall|k: int|
                    0 <= k < n ==> (#[trigger] self.plan.0@[k]).contract_deps_spec()
                        == blocks[k].contract_deps_spec() && self.plan.0@[k].num_intents_spec()
                        == blocks[k].num_intents_spec(),
        {
            let ghost plan_before = self.plan.0@;
            let ok = run_block(
                &mut self.plan.0[i],
                &ctx,
                &mut self.registry,
                intent_consumer,
                effect_consumer,
            );
            proof {
                assert(plan_before[i as int] == blocks[i as int]);
                let ghost goes_on0 = goes_on;
                let ghost regs0 = regs;
                let ghost ecs0 = ecs;
                let ghost ics0 = ics;
                regs = regs.push(self.registry@);
                ecs = ecs.push(*effect_consumer);
                ics = ics.push(*intent_consumer);
                goes_on = goes_on.push(ok);
                assert forall|k: int|
                    0 <= k < i + 1 implies block_turn(
                    blocks[k],
                    ctx,
                    regs[k],
                    ecs[k],
                    ics[k],
                    self.plan.0@[k],
                    regs[k + 1],
                    ecs[k + 1],
                    ics[k + 1],
                    #[trigger] goes_on[k],
                ) by {
                    if k < i {
                        assert(self.plan.0@[k] == plan_before[k]);
                        assert(goes_on[k] == goes_on0[k]);
                        assert(regs[k] == regs0[k] && regs[k + 1] == regs0[k + 1]);
                        assert(ecs[k] == ecs0[k] && ecs[k + 1] == ecs0[k + 1]);
                        assert(ics[k] == ics0[k] && ics[k + 1] == ics0[k + 1]);
                    }
                }
                assert forall|k: int| i < k < n implies #[trigger] self.plan.0@[k] == blocks[k] by {
                    assert(self.plan.0@[k] == plan_before[k]);
                }
                assert forall|k: int| 0 <= k < n implies (
                #[trigger] self.plan.0@[k]).contract_deps_spec() == blocks[k].contract_deps_spec()
                    && self.plan.0@[k].num_intents_spec() == blocks[k].num_intents_spec() by {}
                assert(self.plan.0@.map_values(|b: Block| b.contract_deps_spec()) =~= blocks.map_values(
                    |b: Block| b.contract_deps_spec(),
                ));
                assert(self.plan.0@.map_values(|b: Block| b.num_intents_spec()) =~= blocks.map_values(
                    |b: Block| b.num_intents_spec(),
                ));
            }
            if !ok {
                proof {
                    assert forall|k: int| goes_on.len() <= k < n implies #[trigger] self.plan.0@[k]
                        == blocks[k] by {}
                    assert(block_run(blocks, ctx, regs, ecs, ics, self.plan.0@, goes_on));
                    assert(!goes_on[i as int]);
                }
                return Err(FailureStatus::Failure);
            }
            proof {
                assert forall|k: int| 0 <= k < i + 1 implies #[trigger] goes_on[k] by {}
            }
        }
        proof {
            assert(self.plan.0@.map_values(|b: Block| b.contract_deps_spec()) =~= blocks.map_values(
                |b: Block| b.contract_deps_spec(),
            ));
            assert(self.plan.0@.map_values(|b: Block| b.num_intents_spec()) =~= blocks.map_values(
                |b: Block| b.num_intents_spec(),
            ));
            assert(block_run(blocks, ctx, regs, ecs, ics, self.plan.0@, goes_on));
        }
        Ok(SuccessStatus::Success)
    }
}

/// A capped sum is the plain sum of the parts, capped at `usize::MAX`: where
/// the parts add up to at most `usize::MAX` it is their sum, otherwise
/// `usize::MAX`.
pub proof fn lemma_capped_sum_is_sum(parts: Seq<nat>)
    ensures
        parts.fold_left(0nat, |acc: nat, x: nat| acc + x) <= usize::MAX ==> capped_sum(parts)
            == parts.fold_left(0nat, |acc: nat, x: nat| acc + x),
        parts.fold_left(0nat, |acc: nat, x: nat| acc + x) > usize::MAX ==> capped_sum(parts)
            == usize::MAX,
    decreases parts.len(),
{
    if parts.len() > 0 {
        lemma_capped_sum_is_sum(parts.drop_last());
    }
}

/// An algorithm produces as many intents as its blocks together: the sum of
/// the numbers of intents of its blocks, capped at `usize::MAX` (the actor
/// that runs it gets one order slot per intent).
pub proof fn lemma_algorithm_intents_add_up<C, I, E>(a: Algorithm)
    where
        C: ExecutionContextTrait,
        I: IntentConsumerTrait,
        E: EffectConsumerTrait,
    ensures
        ({
            let total = a.plan.0@.map_values(|b: Block| b.num_intents_spec()).fold_left(
                0nat,
                |acc: nat, x: nat| acc + x,
            );
            &&& total <= usize::MAX ==> <Algorithm as ExecuteTrait<C, I, E>>::num_intents_spec(&a)
                == total
            &&& total > usize::MAX ==> <Algorithm as ExecuteTrait<C, I, E>>::num_intents_spec(&a)
                == usize::MAX
        }),
{
    lemma_capped_sum_is_sum(a.plan.0@.map_values(|b: Block| b.num_intents_spec()));
}

/// A plan of nodes produces as many intents as its nodes together: the sum
/// of their numbers of intents, capped at `usize::MAX`.
pub proof fn lemma_plan_intents_add_up<C, I, E, X>(p: TopoOrdered<X>)
    where
        C: ExecutionContextTrait,
        I: IntentConsumerTrait,
        E: EffectConsumerTrait,
        X: ExecuteTrait<C, I, E>,
    ensures
        ({
            let total = p.0@.map_values(|x: X| x.num_intents_spec()).fold_left(
                0nat,
                |acc: nat, x: nat| acc + x,
            );
            &&& total <= usize::MAX ==> <TopoOrdered<X> as ExecuteTrait<C, I, E>>::num_intents_spec(
                &p,
            ) == total
            &&& total > usize::MAX ==> <TopoOrdered<X> as ExecuteTrait<C, I, E>>::num_intents_spec(
                &p,
            ) == usize::MAX
        }),
{
    lemma_capped_sum_is_sum(p.0@.map_values(|x: X| x.num_intents_spec()));
}

/// Gathering lists keeps every name and adds none: a name is in the
/// gathered list exactly when it is in one of the lists, and the gathered
/// list is as long as the lists together.
pub proof fn lemma_concat_all_gathers(parts: Seq<Seq<Seq<char>>>, n: Seq<char>)
    ensures
        concat_all(parts).contains(n) <==> exists|k: int|
            0 <= k < parts.len() && (#[trigger] parts[k]).contains(n),
        concat_all(parts).len() == parts.map_values(|p: Seq<Seq<char>>| p.len()).fold_left(
            0nat,
            |acc: nat, x: nat| acc + x,
        ),
    decreases parts.len(),
{
    if parts.len() > 0 {
        let init = parts.drop_last();
        lemma_concat_all_gathers(init, n);
        let last = parts.len() - 1;
        assert(parts.map_values(|p: Seq<Seq<char>>| p.len()).drop_last() =~= init.map_values(
            |p: Seq<Seq<char>>| p.len(),
        ));
        if concat_all(parts).contains(n) {
            let i = choose|i: int| 0 <= i < concat_all(parts).len() && concat_all(parts)[i] == n;
            if i < concat_all(init).len() {
                assert(concat_all(init)[i] == n);
                let k = choose|k: int| 0 <= k < init.len() && (#[trigger] init[k]).contains(n);
                assert(parts[k] == init[k]);
            } else {
                assert(parts[last][i - concat_all(init).len()] == n);
                assert(parts[last].contains(n));
            }
        }
        if exists|k: int| 0 <= k < parts.len() && (#[trigger] parts[k]).contains(n) {
            let k = choose|k: int| 0 <= k < parts.len() && (#[trigger] parts[k]).contains(n);
            if k < last {
                assert(init[k] == parts[k]);
                let i = choose|i: int| 0 <= i < concat_all(init).len() && concat_all(init)[i] == n;
                assert(concat_all(parts)[i] == n);
            } else {
                let j = choose|j: int| 0 <= j < parts[last].len() && parts[last][j] == n;
                assert(concat_all(parts)[concat_all(init).len() + j] == n);
            }
        }
    }
}

/// A plan of nodes depends on exactly the contracts of its nodes: a contract
/// is among the plan's contracts exactly when it is among those of one of its
/// nodes.
pub proof fn lemma_plan_contracts<X: ContractDeps>(p: TopoOrdered<X>, n: Seq<char>)
    ensures
        p.contract_deps_spec().contains(n) <==> exists|k: int|
            0 <= k < p.0@.len() && (#[trigger] p.0@[k]).contract_deps_spec().contains(n),
{
    let parts = p.0@.map_values(|x: X| x.contract_deps_spec());
    lemma_concat_all_gathers(parts, n);
    if exists|k: int| 0 <= k < p.0@.len() && (#[trigger] p.0@[k]).contract_deps_spec().contains(n) {
        let k = choose|k: int| 0 <= k < p.0@.len() && (#[trigger] p.0@[k]).contract_deps_spec().contains(n);
        assert(parts[k] == p.0@[k].contract_deps_spec());
    }
    if exists|k: int| 0 <= k < parts.len() && (#[trigger] parts[k]).contains(n) {
        let k = choose|k: int| 0 <= k < parts.len() && (#[trigger] parts[k]).contains(n);
        assert(parts[k] == p.0@[k].contract_deps_spec());
    }
}

} // verus!
