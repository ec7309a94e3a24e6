//! Trading intents emitted by blocks, and their placement into numbered slots.
use vstd::prelude::*;

use crate::trade_types::{Contract, Price, Quantity, Side};

verus! {

/// What a block wants to happen in one of its order slots.
#[derive(Debug)]
pub enum Intent {
    NoIntent,
    Place { contract: Contract, side: Side, price: Price, quantity: Quantity },
}

impl Clone for Intent {
    fn clone(&self) -> (r: Self)
        ensures
            r == *self,
    {
        match self {
            Intent::NoIntent => Intent::NoIntent,
            Intent::Place { contract, side, price, quantity } => Intent::Place {
                contract: contract.clone(),
                side: *side,
                price: *price,
                quantity: *quantity,
            },
        }
    }
}

impl Intent {
    /// The intent to have no order in a slot.
    pub fn no_intent() -> (r: Intent)
        ensures
            r == Intent::NoIntent,
    {
        Intent::NoIntent
    }

    /// The intent to place an order.
    pub fn place_intent(contract: Contract, side: Side, price: Price, quantity: Quantity) -> (r:
        Intent)
        ensures
            r == (Intent::Place { contract, side, price, quantity }),
    {
        Intent::Place { contract, side, price, quantity }
    }
}

/// Constructors for intents, available on any type that opts in.
pub trait IntentFactory {
    fn no_intent() -> (r: Intent)
        ensures
            r == Intent::NoIntent,
    {
        Intent::no_intent()
    }

    fn place_intent(contract: Contract, side: Side, price: Price, quantity: Quantity) -> (r: Intent)
        ensures
            r == (Intent::Place { contract, side, price, quantity }),
    {
        Intent::place_intent(contract, side, price, quantity)
    }
}

/// A slot: the block that owns it and the slot's position in the block's intents.
#[derive(PartialEq, Eq, Structural, Debug, Clone, Copy)]
pub struct SlotId {
    pub block_id: u32,
    pub slot_index: usize,
}

impl SlotId {
    pub fn new(block_id: u32, slot_index: usize) -> (r: SlotId)
        ensures
            r.block_id == block_id,
            r.slot_index == slot_index,
    {
        SlotId { block_id, slot_index }
    }
}

/// An intent together with the slot it belongs to.
#[derive(Debug)]
pub struct SlotIntent {
    pub slot_id: SlotId,
    pub intent: Intent,
}

impl Clone for SlotIntent {
    fn clone(&self) -> (r: Self)
        ensures
            r == *self,
    {
        SlotIntent { slot_id: self.slot_id, intent: self.intent.clone() }
    }
}

impl SlotIntent {
    pub fn new(slot_id: SlotId, intent: Intent) -> (r: SlotIntent)
        ensures
            r.slot_id == slot_id,
            r.intent == intent,
    {
        SlotIntent { slot_id, intent }
    }
}

/// The slot intents of a block: intent `i` goes to slot `i` of `block_id`.
pub open spec fn slot_intents_of(intents: Seq<Intent>, block_id: u32) -> Seq<SlotIntent> {
    Seq::new(
        intents.len(),
        |i: int|
            SlotIntent {
                slot_id: SlotId { block_id, slot_index: i as usize },
                intent: intents[i],
            },
    )
}

/// Tags each intent with its slot in the given block.
pub fn to_slot_intents(intents: &[Intent], block_id: u32) -> (r: Vec<SlotIntent>)
    ensures
        r@ == slot_intents_of(intents@, block_id),
{
    let mut out: Vec<SlotIntent> = Vec::new();
    let n = intents.len();
    for i in 0..n
        invariant
            n == intents@.len(),
            out@ == slot_intents_of(intents@.take(i as int), block_id),
    {
        let si = SlotIntent { slot_id: SlotId { block_id, slot_index: i }, intent: intents[i].clone() };
        out.push(si);
        assert(out@ =~= slot_intents_of(intents@.take(i + 1), block_id));
    }
    assert(intents@.take(n as int) =~= intents@);
    out
}

/// A fixed collection of intents produced by one execution of a block.
pub trait BlockIntents: Sized {
    /// The intents, in slot order.
    spec fn intents_spec(&self) -> Seq<Intent>;

    fn as_slice(&self) -> (r: &[Intent])
        ensures
            r@ == self.intents_spec(),
    ;

    /// The number of slots these intents occupy.
    fn num_intents(&self) -> (n: usize)
        ensures
            n == self.intents_spec().len(),
    {
        self.as_slice().len()
    }

    /// The intents tagged with their slots in the given block.
    fn as_slot_intents(&self, block_id: u32) -> (r: Vec<SlotIntent>)
        ensures
            r@ == slot_intents_of(self.intents_spec(), block_id),
    {
        to_slot_intents(self.as_slice(), block_id)
    }
}

/// No intents at all.
#[derive(Debug, Clone, Copy, PartialEq, Eq, Structural)]
pub struct ZeroIntents;

impl ZeroIntents {
    pub fn new() -> (r: ZeroIntents)
        ensures
            r == ZeroIntents,
    {
        ZeroIntents
    }
}

impl BlockIntents for ZeroIntents {
    open spec fn intents_spec(&self) -> Seq<Intent> {
        Seq::empty()
    }

    fn as_slice(&self) -> (r: &[Intent]) {
        let v: &[Intent] = &[];
        assert(v@ =~= Seq::<Intent>::empty());
        v
    }
}

/// Exactly one intent.
#[derive(Debug)]
pub struct OneIntent {
    intents: [Intent; 1],
}

impl Clone for OneIntent {
    fn clone(&self) -> (r: Self)
        ensures
            r.intents_spec() == self.intents_spec(),
    {
        let r = OneIntent { intents: [self.intents[0].clone()] };
        assert(r.intents@ =~= self.intents@);
        r
    }
}

impl OneIntent {
    pub fn new(intents: [Intent; 1]) -> (r: OneIntent)
        ensures
            r.intents_spec() == intents@,
    {
        OneIntent { intents }
    }
}

impl BlockIntents for OneIntent {
    closed spec fn intents_spec(&self) -> Seq<Intent> {
        self.intents@
    }

    fn as_slice(&self) -> (r: &[Intent]) {
        self.intents.as_slice()
    }
}

} // verus!
