//! Side effects that an execution can schedule.
use vstd::prelude::*;

verus! {

/// A side effect requested by an algorithm.
#[derive(PartialEq, Eq, Structural, Debug, Clone, Copy)]
pub enum Effect {
    Suspend,
    Terminate,
    Timer(u64),
}

impl Effect {
    pub fn suspend() -> (r: Effect)
        ensures
            r == Effect::Suspend,
    {
        Effect::Suspend
    }

    pub fn terminate() -> (r: Effect)
        ensures
            r == Effect::Terminate,
    {
        Effect::Terminate
    }

    pub fn timer(duration: u64) -> (r: Effect)
        ensures
            r == Effect::Timer(duration),
    {
        Effect::Timer(duration)
    }
}

} // verus!
