use vstd::prelude::*;

pub mod actor;
pub mod adder_block;
pub mod after_block;
pub mod block_codegen;
pub mod block_spec;
pub mod block_type;
pub mod channel_keys;
pub mod codegen;
pub mod controller;
pub mod delete_block;
pub mod effects;
pub mod errors;
pub mod execute_status;
pub mod execution;
pub mod execution_plan;
pub mod graph;
pub mod registry;
pub mod simple_order_block;
pub mod sniper_block;
pub mod intents;
pub mod keyed;
pub mod text;
pub mod trade_types;
pub mod weave;

verus! {

} // verus!
