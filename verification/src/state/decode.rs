//! Decoding assembled PIO words with the `pio` crate, and turning what it
//! returns into the emulator's own instructions.
use vstd::prelude::*;
use crate::instr::{mov, shift, wait, Condition, Instr, Instruction};
use pio::InstructionOperands;
use pio::InstructionOperands::{IN, IRQ, JMP, MOV, MOVFROMRX, MOVTORX, OUT, PULL, PUSH, SET, WAIT};
use self::PioOperands::{In, Irq, Jmp, Mov, MovFromRx, MovToRx, Out, Pull, Push, SetData, Wait};

verus! {

/// The operands that `pio` decodes, field for field; each field that `pio`
/// holds as an enum is its `u8` discriminant (its encoding in the word).
#[derive(Clone, Copy, Debug, PartialEq, Eq, Structural)]
pub enum PioOperands {
    Jmp(u8, u8),
    Wait(u8, u8, u8, bool),
    In(u8, u8),
    Out(u8, u8),
    Push(bool, bool),
    Pull(bool, bool),
    Mov(u8, u8, u8),
    MovToRx(u8),
    MovFromRx(u8),
    Irq(bool, bool, u8, u8),
    SetData(u8, u8),
}

/// What `pio::InstructionOperands::decode` returns for `word`: its operands,
/// or `None` for a word that encodes no instruction.
pub uninterp spec fn pio_decoded(word: u16) -> Option<PioOperands>;

/// Calls `pio::InstructionOperands::decode(word)` and hands back its operands
/// field for field; the contract says only that the result is `pio_decoded(word)`.
#[verifier::external_body]
fn pio_decode(word: u16) -> (r: Option<PioOperands>)
    ensures
        r == pio_decoded(word),
{
    Some(match InstructionOperands::decode(word)? {
        JMP { condition, address } => Jmp(condition as u8, address),
        WAIT { polarity, source, index, relative } => Wait(polarity, source as u8, index, relative),
        IN { source, bit_count } => In(source as u8, bit_count),
        OUT { destination, bit_count } => Out(destination as u8, bit_count),
        PUSH { if_full, block } => Push(if_full, block),
        PULL { if_empty, block } => Pull(if_empty, block),
        MOV { destination, op, source } => Mov(destination as u8, op as u8, source as u8),
        MOVTORX { fifo_index } => MovToRx(fifo_index as u8),
        MOVFROMRX { fifo_index } => MovFromRx(fifo_index as u8),
        IRQ { clear, wait, index, index_mode } => Irq(clear, wait, index, index_mode as u8),
        SET { destination, data } => SetData(destination as u8, data)
    })
}

} // verus!

verus! {

/// The emulator's JMP condition for `pio`'s discriminant `c`.
pub open spec fn spec_condition(c: u8) -> Option<Condition> {
    match c {
        0 => Some(Condition::Always),
        1 => Some(Condition::XZero),
        2 => Some(Condition::XDec),
        3 => Some(Condition::YZero),
        4 => Some(Condition::YDec),
        5 => Some(Condition::XNeqY),
        6 => Some(Condition::Pin),
        7 => Some(Condition::OsrNotEmpty),
        _ => None,
    }
}

fn condition_of(c: u8) -> (r: Option<Condition>)
    ensures
        r == spec_condition(c),
{
    match c {
        0 => Some(Condition::Always),
        1 => Some(Condition::XZero),
        2 => Some(Condition::XDec),
        3 => Some(Condition::YZero),
        4 => Some(Condition::YDec),
        5 => Some(Condition::XNeqY),
        6 => Some(Condition::Pin),
        7 => Some(Condition::OsrNotEmpty),
        _ => None,
    }
}

/// The emulator's WAIT source for `pio`'s discriminant `c`; the RP2350's
/// JMPPIN source is not modelled and has none.
pub open spec fn spec_wait_source(c: u8) -> Option<wait::Source> {
    match c {
        0 => Some(wait::Source::Gpio),
        1 => Some(wait::Source::Pin),
        2 => Some(wait::Source::Irq),
        _ => None,
    }
}

fn wait_source_of(c: u8) -> (r: Option<wait::Source>)
    ensures
        r == spec_wait_source(c),
{
    match c {
        0 => Some(wait::Source::Gpio),
        1 => Some(wait::Source::Pin),
        2 => Some(wait::Source::Irq),
        _ => None,
    }
}

/// The emulator's IN source for `pio`'s discriminant `c`.
pub open spec fn spec_in_source(c: u8) -> Option<shift::Source> {
    match c {
        0 => Some(shift::Source::Pins),
        1 => Some(shift::Source::X),
        2 => Some(shift::Source::Y),
        3 => Some(shift::Source::Null),
        6 => Some(shift::Source::Isr),
        7 => Some(shift::Source::Osr),
        _ => None,
    }
}

fn in_source_of(c: u8) -> (r: Option<shift::Source>)
    ensures
        r == spec_in_source(c),
{
    match c {
        0 => Some(shift::Source::Pins),
        1 => Some(shift::Source::X),
        2 => Some(shift::Source::Y),
        3 => Some(shift::Source::Null),
        6 => Some(shift::Source::Isr),
        7 => Some(shift::Source::Osr),
        _ => None,
    }
}

/// The emulator's OUT destination for `pio`'s discriminant `c`.
pub open spec fn spec_out_destn(c: u8) -> Option<shift::Destn> {
    match c {
        0 => Some(shift::Destn::Pins),
        1 => Some(shift::Destn::X),
        2 => Some(shift::Destn::Y),
        3 => Some(shift::Destn::Null),
        4 => Some(shift::Destn::PinDirs),
        5 => Some(shift::Destn::Pc),
        6 => Some(shift::Destn::Isr),
        7 => Some(shift::Destn::Exec),
        _ => None,
    }
}

fn out_destn_of(c: u8) -> (r: Option<shift::Destn>)
    ensures
        r == spec_out_destn(c),
{
    match c {
        0 => Some(shift::Destn::Pins),
        1 => Some(shift::Destn::X),
        2 => Some(shift::Destn::Y),
        3 => Some(shift::Destn::Null),
        4 => Some(shift::Destn::PinDirs),
        5 => Some(shift::Destn::Pc),
        6 => Some(shift::Destn::Isr),
        7 => Some(shift::Destn::Exec),
        _ => None,
    }
}

/// The emulator's MOV destination for `pio`'s discriminant `c`; the RP2350's
/// MOV to PINDIRS is not modelled and has none.
pub open spec fn spec_mov_destn(c: u8) -> Option<mov::Destn> {
    match c {
        0 => Some(mov::Destn::Pins),
        1 => Some(mov::Destn::X),
        2 => Some(mov::Destn::Y),
        4 => Some(mov::Destn::Exec),
        5 => Some(mov::Destn::Pc),
        6 => Some(mov::Destn::Isr),
        7 => Some(mov::Destn::Osr),
        _ => None,
    }
}

fn mov_destn_of(c: u8) -> (r: Option<mov::Destn>)
    ensures
        r == spec_mov_destn(c),
{
    match c {
        0 => Some(mov::Destn::Pins),
        1 => Some(mov::Destn::X),
        2 => Some(mov::Destn::Y),
        4 => Some(mov::Destn::Exec),
        5 => Some(mov::Destn::Pc),
        6 => Some(mov::Destn::Isr),
        7 => Some(mov::Destn::Osr),
        _ => None,
    }
}

/// The emulator's MOV operation for `pio`'s discriminant `c`.
pub open spec fn spec_mov_op(c: u8) -> Option<mov::Op> {
    match c {
        0 => Some(mov::Op::Identity),
        1 => Some(mov::Op::Invert),
        2 => Some(mov::Op::BitReverse),
        _ => None,
    }
}

fn mov_op_of(c: u8) -> (r: Option<mov::Op>)
    ensures
        r == spec_mov_op(c),
{
    match c {
        0 => Some(mov::Op::Identity),
        1 => Some(mov::Op::Invert),
        2 => Some(mov::Op::BitReverse),
        _ => None,
    }
}

/// The emulator's MOV source for `pio`'s discriminant `c`.
pub open spec fn spec_mov_source(c: u8) -> Option<mov::Source> {
    match c {
        0 => Some(mov::Source::Pins),
        1 => Some(mov::Source::X),
        2 => Some(mov::Source::Y),
        3 => Some(mov::Source::Null),
        5 => Some(mov::Source::Status),
        6 => Some(mov::Source::Isr),
        7 => Some(mov::Source::Osr),
        _ => None,
    }
}

fn mov_source_of(c: u8) -> (r: Option<mov::Source>)
    ensures
        r == spec_mov_source(c),
{
    match c {
        0 => Some(mov::Source::Pins),
        1 => Some(mov::Source::X),
        2 => Some(mov::Source::Y),
        3 => Some(mov::Source::Null),
        5 => Some(mov::Source::Status),
        6 => Some(mov::Source::Isr),
        7 => Some(mov::Source::Osr),
        _ => None,
    }
}

/// The emulator's SET destination for `pio`'s discriminant `c`.
pub open spec fn spec_set_destn(c: u8) -> Option<crate::instr::set::Destn> {
    match c {
        0 => Some(crate::instr::set::Destn::Pins),
        1 => Some(crate::instr::set::Destn::X),
        2 => Some(crate::instr::set::Destn::Y),
        4 => Some(crate::instr::set::Destn::PinDirs),
        _ => None,
    }
}

fn set_destn_of(c: u8) -> (r: Option<crate::instr::set::Destn>)
    ensures
        r == spec_set_destn(c),
{
    match c {
        0 => Some(crate::instr::set::Destn::Pins),
        1 => Some(crate::instr::set::Destn::X),
        2 => Some(crate::instr::set::Destn::Y),
        4 => Some(crate::instr::set::Destn::PinDirs),
        _ => None,
    }
}

/// Both parts of a pair are present.
pub open spec fn both<A, B>(a: Option<A>, b: Option<B>) -> Option<(A, B)> {
    match (a, b) {
        (Some(a), Some(b)) => Some((a, b)),
        _ => None,
    }
}

/// The emulator's operands for `pio`'s: five-bit fields are masked to five
/// bits (a bit count of 32 becomes 0), one-bit fields become 0 or 1, and the
/// RP2350-only MOV to and from the RX FIFO have no counterpart.
pub open spec fn spec_instruction_from_pio(o: PioOperands) -> Option<Instruction> {
    match o {
        PioOperands::Jmp(c, address) => match spec_condition(c) {
            Some(condition) => Some(Instruction::Jmp { condition, address: address & 0x1f }),
            None => None,
        },
        PioOperands::Wait(polarity, s, index, _) => match spec_wait_source(s) {
            Some(source) => Some(Instruction::Wait { polarity: polarity & 1, source, index: index & 0x1f }),
            None => None,
        },
        PioOperands::In(s, bit_count) => match spec_in_source(s) {
            Some(source) => Some(Instruction::In { source, bit_count: bit_count & 0x1f }),
            None => None,
        },
        PioOperands::Out(d, bit_count) => match spec_out_destn(d) {
            Some(destn) => Some(Instruction::Out { destn, bit_count: bit_count & 0x1f }),
            None => None,
        },
        PioOperands::Push(if_full, block) => Some(Instruction::Push {
            if_full: if if_full { 1 } else { 0 },
            block: if block { 1 } else { 0 },
        }),
        PioOperands::Pull(if_empty, block) => Some(Instruction::Pull {
            if_empty: if if_empty { 1 } else { 0 },
            block: if block { 1 } else { 0 },
        }),
        PioOperands::Mov(d, op, s) => match (spec_mov_destn(d), spec_mov_op(op), spec_mov_source(s)) {
            (Some(destn), Some(op), Some(source)) => Some(Instruction::Mov { destn, op, source }),
            _ => None,
        },
        PioOperands::MovToRx(_) => None,
        PioOperands::MovFromRx(_) => None,
        PioOperands::Irq(clear, wait, index, _) => Some(Instruction::Irq {
            clear: if clear { 1 } else { 0 },
            wait: if wait { 1 } else { 0 },
            index: index & 0x1f,
        }),
        PioOperands::SetData(d, data) => match spec_set_destn(d) {
            Some(destn) => Some(Instruction::SetImmediate { destn, data: data & 0x1f }),
            None => None,
        },
    }
}

/// The delay field of an instruction word with no side-set: bits 8 to 12.
pub open spec fn delay_field(word: u16) -> u8 {
    ((word / 256) % 32) as u8
}

/// The emulator's instruction for the operands that `pio` decoded from a
/// word and the word's delay field, with no side-set.
pub open spec fn spec_instr_from_pio(d: Option<PioOperands>, delay: u8) -> Option<Instr> {
    match d {
        None => None,
        Some(o) => match spec_instruction_from_pio(o) {
            None => None,
            Some(instruction) => Some(Instr { instruction, delay: delay & 0x1f, side_set: None }),
        },
    }
}

proof fn lemma_masks(v: u8)
    ensures
        v & 0x1f < 32,
        v & 1 < 2,
{
    assert(v & 0x1f < 32 && v & 1 < 2) by (bit_vector);
}

/// Turns what `pio` decoded into the emulator's instruction.
pub fn instr_from_pio(d: Option<PioOperands>, delay: u8) -> (r: Option<Instr>)
    ensures
        r == spec_instr_from_pio(d, delay),
        r matches Some(i) ==> i.wf(),
{
    let o = match d {
        None => return None,
        Some(o) => o,
    };
    let instruction = match o {
        PioOperands::Jmp(c, address) => {
            proof { lemma_masks(address); }
            Instruction::Jmp { condition: condition_of(c)?, address: address & 0x1f }
        },
        PioOperands::Wait(polarity, s, index, _) => {
            proof { lemma_masks(polarity); lemma_masks(index); }
            Instruction::Wait { polarity: polarity & 1, source: wait_source_of(s)?, index: index & 0x1f }
        },
        PioOperands::In(s, bit_count) => {
            proof { lemma_masks(bit_count); }
            Instruction::In { source: in_source_of(s)?, bit_count: bit_count & 0x1f }
        },
        PioOperands::Out(d, bit_count) => {
            proof { lemma_masks(bit_count); }
            Instruction::Out { destn: out_destn_of(d)?, bit_count: bit_count & 0x1f }
        },
        PioOperands::Push(if_full, block) => Instruction::Push {
            if_full: if if_full { 1 } else { 0 },
            block: if block { 1 } else { 0 },
        },
        PioOperands::Pull(if_empty, block) => Instruction::Pull {
            if_empty: if if_empty { 1 } else { 0 },
            block: if block { 1 } else { 0 },
        },
        PioOperands::Mov(d, op, s) => {
            let destn = mov_destn_of(d);
            let op = mov_op_of(op);
            let source = mov_source_of(s);
            match (destn, op, source) {
                (Some(destn), Some(op), Some(source)) => Instruction::Mov { destn, op, source },
                _ => return None,
            }
        },
        PioOperands::MovToRx(_) => return None,
        PioOperands::MovFromRx(_) => return None,
        PioOperands::Irq(clear, wait, index, _) => {
            proof { lemma_masks(index); }
            Instruction::Irq {
                clear: if clear { 1 } else { 0 },
                wait: if wait { 1 } else { 0 },
                index: index & 0x1f,
            }
        },
        PioOperands::SetData(d, data) => {
            proof { lemma_masks(data); }
            Instruction::SetImmediate { destn: set_destn_of(d)?, data: data & 0x1f }
        },
    };
    proof { lemma_masks(delay); }
    Some(Instr { instruction, delay: delay & 0x1f, side_set: None })
}

/// Decodes an assembled PIO word (with no side-set) into the emulator's
/// instruction, or `None` for a word that `pio` does not decode or that the
/// emulator does not model.
pub fn decode_to_instr(word: u16) -> (r: Option<Instr>)
    ensures
        r == spec_instr_from_pio(pio_decoded(word), delay_field(word)),
        r matches Some(i) ==> i.wf(),
{
    let delay = ((word >> 8) & 0x1f) as u8;
    proof {
        assert(((word >> 8) & 0x1f) == (word / 256) % 32) by (bit_vector);
    }
    instr_from_pio(pio_decode(word), delay)
}

} // verus!
