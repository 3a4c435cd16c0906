use vstd::prelude::*;

verus! {

/// What a WAIT instruction waits on.
#[derive(Clone, Copy, Debug, PartialEq, Eq, Structural)]
pub enum Source {
    Gpio,
    Pin,
    Irq,
    Reserved,
}

} // verus!
