//! Success and failure of an execution.
use vstd::prelude::*;

verus! {

#[derive(Debug, Clone, Copy, PartialEq, Eq, Structural)]
pub enum SuccessStatus {
    Success,
}

#[derive(Debug, Clone, Copy, PartialEq, Eq, Structural)]
pub enum FailureStatus {
    Failure,
}

pub type ExecuteResult = Result<SuccessStatus, FailureStatus>;

} // verus!
