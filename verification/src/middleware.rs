use vstd::prelude::*;

verus! {

/// When a middleware runs relative to the handler.
#[derive(Debug, Clone, Copy, PartialEq, Eq, Structural)]
pub enum ProcessStrategy {
    Before,
    After,
}

/// The decision at the heart of middleware processing: a middleware
/// configured for one phase runs in exactly that phase and is skipped in
/// the other.
pub fn should_process(own: ProcessStrategy, phase: ProcessStrategy) -> (r: bool)
    ensures
        r == (own == phase),
{
    match (own, phase) {
        (ProcessStrategy::Before, ProcessStrategy::Before) => true,
        (ProcessStrategy::After, ProcessStrategy::After) => true,
        _ => false,
    }
}

} // verus!
