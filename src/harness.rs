use vstd::prelude::*;

verus! {

/// Outcome of one benchmark run, as seen by the driver that waits on the
/// shared completion channel.
#[derive(Clone, Copy, Debug, PartialEq, Eq, Structural)]
pub enum RunOutcome {
    /// A completion signal arrived.
    Completed,
    /// The completion channel closed before any signal was delivered.
    HungUp,
}

/// Decides the run from the one value the driver waits for: a signal means
/// the ring wound down, a closed channel means some node hung up.
pub fn completion_outcome(signal: Option<()>) -> (r: RunOutcome)
    ensures
        signal is Some <==> r == RunOutcome::Completed,
        signal is None <==> r == RunOutcome::HungUp,
{
    match signal {
        Some(_) => RunOutcome::Completed,
        None => RunOutcome::HungUp,
    }
}

} // verus!
