use vstd::prelude::*;

verus! {

/// Where a MOV instruction writes.
#[derive(Clone, Copy, Debug, PartialEq, Eq, Structural)]
pub enum Destn {
    Pins,
    X,
    Y,
    Reserved,
    Exec,
    Pc,
    Isr,
    Osr,
}

/// How a MOV instruction transforms the value it moves.
#[derive(Clone, Copy, Debug, PartialEq, Eq, Structural)]
pub enum Op {
    Identity,
    Invert,
    BitReverse,
    Reserved,
}

/// What a MOV instruction reads.
#[derive(Clone, Copy, Debug, PartialEq, Eq, Structural)]
pub enum Source {
    Pins,
    X,
    Y,
    Null,
    Reserved,
    Status,
    Isr,
    Osr,
}

} // verus!
