//! The PIO instruction set as the emulator sees it.
pub mod mov;
pub mod render;
pub mod set;
pub mod shift;
pub mod wait;

use vstd::prelude::*;

verus! {

/// The condition of a JMP.
#[derive(Clone, Copy, Debug, PartialEq, Eq, Structural)]
pub enum Condition {
    Always,
    XZero,
    XDec,
    YZero,
    YDec,
    XNeqY,
    Pin,
    OsrNotEmpty,
}

/// One decoded PIO instruction. Fields that the hardware holds in five bits
/// (addresses, indices, bit counts, immediate data) are `u8` values below 32,
/// and one-bit fields are `u8` values below 2; `wf` states these bounds.
/// A bit count of 0 stands for 32.
#[derive(Clone, Copy, Debug, PartialEq, Eq, Structural)]
#[allow(inconsistent_fields)]
pub enum Instruction {
    Jmp { condition: Condition, address: u8 },
    Wait { polarity: u8, source: wait::Source, index: u8 },
    In { source: shift::Source, bit_count: u8 },
    Out { destn: shift::Destn, bit_count: u8 },
    Push { if_full: u8, block: u8 },
    Pull { if_empty: u8, block: u8 },
    Mov { destn: mov::Destn, op: mov::Op, source: mov::Source },
    Irq { clear: u8, wait: u8, index: u8 },
    SetImmediate { destn: set::Destn, data: u8 },
}

impl Instruction {
    /// Every field fits the width that the instruction encoding gives it.
    pub open spec fn wf(&self) -> bool {
        match *self {
            Instruction::Jmp { address, .. } => address < 32,
            Instruction::Wait { polarity, index, .. } => polarity < 2 && index < 32,
            Instruction::In { bit_count, .. } => bit_count < 32,
            Instruction::Out { bit_count, .. } => bit_count < 32,
            Instruction::Push { if_full, block } => if_full < 2 && block < 2,
            Instruction::Pull { if_empty, block } => if_empty < 2 && block < 2,
            Instruction::Mov { .. } => true,
            Instruction::Irq { clear, wait, index } => clear < 2 && wait < 2 && index < 32,
            Instruction::SetImmediate { data, .. } => data < 32,
        }
    }
}

/// An instruction with its delay and optional side-set value (both five bits).
#[derive(Clone, Copy, Debug, PartialEq, Eq, Structural)]
pub struct Instr {
    pub instruction: Instruction,
    pub delay: u8,
    pub side_set: Option<u8>,
}

impl Instr {
    /// Every field fits the width that the instruction encoding gives it.
    pub open spec fn wf(&self) -> bool {
        &&& self.instruction.wf()
        &&& self.delay < 32
        &&& (self.side_set matches Some(s) ==> s < 32)
    }
}

} // verus!
