use vstd::prelude::*;

verus! {

/// What an IN instruction shifts into the ISR.
#[derive(Clone, Copy, Debug, PartialEq, Eq, Structural)]
pub enum Source {
    Pins,
    X,
    Y,
    Null,
    Reserved1,
    Reserved2,
    Isr,
    Osr,
}

/// Where an OUT instruction sends the bits it shifts out of the OSR.
#[derive(Clone, Copy, Debug, PartialEq, Eq, Structural)]
pub enum Destn {
    Pins,
    X,
    Y,
    Null,
    PinDirs,
    Pc,
    Isr,
    Exec,
}

} // verus!
