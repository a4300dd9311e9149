use vstd::prelude::*;

verus! {

/// Marks that escape was pressed.
#[derive(Clone, Copy, Debug, PartialEq, Eq, Structural)]
pub struct Escape;

/// A value, or the mark that escape was pressed instead.
pub type OrEscape<T> = Result<T, Escape>;

/// What one pass of a loop yields: go round again, or leave with a value.
#[derive(Clone, Copy)]
pub enum LoopControl<Co, Br> {
    Continue(Co),
    Break(Br),
}

/// What a repeating screen does with the output of its current pass.
pub enum LoopStep<Br> {
    /// Nothing yet: wait for the next event.
    Wait,
    /// Start a new pass and give it a look at the current state at once.
    Restart,
    /// The loop is over, with this value.
    Finish(Br),
}

/// The decision of a repeating screen on the output of its current pass:
/// no output waits, `Continue` starts a new pass, `Break` ends the loop with
/// its value.
pub fn loop_unit_step<Br>(control: Option<LoopControl<(), Br>>) -> (s: LoopStep<Br>)
    ensures
        match control {
            None => s is Wait,
            Some(LoopControl::Continue(_)) => s is Restart,
            Some(LoopControl::Break(br)) => s == LoopStep::Finish(br),
        },
{
    match control {
        None => LoopStep::Wait,
        Some(LoopControl::Continue(())) => LoopStep::Restart,
        Some(LoopControl::Break(br)) => LoopStep::Finish(br),
    }
}

} // verus!
