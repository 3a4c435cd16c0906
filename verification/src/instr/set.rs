use vstd::prelude::*;

verus! {

/// Where a SET instruction writes its immediate value.
#[derive(Clone, Copy, Debug, PartialEq, Eq, Structural)]
pub enum Destn {
    Pins,
    X,
    Y,
    Reserved1,
    PinDirs,
    Reserved2,
    Reserved3,
    Reserved4,
}

} // verus!
