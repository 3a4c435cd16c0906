//! The PIO instruction encoding of each operand field, and the law that
//! decoding reads every field back by that encoding.
use vstd::prelude::*;
use super::decode::{spec_instr_from_pio, PioOperands};
use super::lemma_low_five;
use crate::instr::{mov, shift, wait, Condition, Instruction};

verus! {

/// The JMP condition field (bits 7:5): 0 always, 1 `!x`, 2 `x--`, 3 `!y`,
/// 4 `y--`, 5 `x!=y`, 6 `pin`, 7 `!osre`.
pub open spec fn condition_code(c: Condition) -> u8 {
    match c {
        Condition::Always => 0,
        Condition::XZero => 1,
        Condition::XDec => 2,
        Condition::YZero => 3,
        Condition::YDec => 4,
        Condition::XNeqY => 5,
        Condition::Pin => 6,
        Condition::OsrNotEmpty => 7,
    }
}

/// The WAIT source field: 0 GPIO, 1 pin, 2 IRQ (3, the JMP pin, is not modelled).
pub open spec fn wait_source_code(s: wait::Source) -> u8 {
    match s {
        wait::Source::Gpio => 0,
        wait::Source::Pin => 1,
        wait::Source::Irq => 2,
        wait::Source::Reserved => 3,
    }
}

/// The IN source field: 0 pins, 1 X, 2 Y, 3 null, 6 ISR, 7 OSR (4 and 5 are reserved).
pub open spec fn in_source_code(s: shift::Source) -> u8 {
    match s {
        shift::Source::Pins => 0,
        shift::Source::X => 1,
        shift::Source::Y => 2,
        shift::Source::Null => 3,
        shift::Source::Reserved1 => 4,
        shift::Source::Reserved2 => 5,
        shift::Source::Isr => 6,
        shift::Source::Osr => 7,
    }
}

/// The OUT destination field: 0 pins, 1 X, 2 Y, 3 null, 4 pindirs, 5 PC, 6 ISR, 7 exec.
pub open spec fn out_destn_code(d: shift::Destn) -> u8 {
    match d {
        shift::Destn::Pins => 0,
        shift::Destn::X => 1,
        shift::Destn::Y => 2,
        shift::Destn::Null => 3,
        shift::Destn::PinDirs => 4,
        shift::Destn::Pc => 5,
        shift::Destn::Isr => 6,
        shift::Destn::Exec => 7,
    }
}

/// The MOV destination field: 0 pins, 1 X, 2 Y, 4 exec, 5 PC, 6 ISR, 7 OSR
/// (3, pindirs, is not modelled).
pub open spec fn mov_destn_code(d: mov::Destn) -> u8 {
    match d {
        mov::Destn::Pins => 0,
        mov::Destn::X => 1,
        mov::Destn::Y => 2,
        mov::Destn::Reserved => 3,
        mov::Destn::Exec => 4,
        mov::Destn::Pc => 5,
        mov::Destn::Isr => 6,
        mov::Destn::Osr => 7,
    }
}

/// The MOV operation field: 0 none, 1 invert, 2 bit-reverse (3 is reserved).
pub open spec fn mov_op_code(op: mov::Op) -> u8 {
    match op {
        mov::Op::Identity => 0,
        mov::Op::Invert => 1,
        mov::Op::BitReverse => 2,
        mov::Op::Reserved => 3,
    }
}

/// The MOV source field: 0 pins, 1 X, 2 Y, 3 null, 5 status, 6 ISR, 7 OSR (4 is reserved).
pub open spec fn mov_source_code(s: mov::Source) -> u8 {
    match s {
        mov::Source::Pins => 0,
        mov::Source::X => 1,
        mov::Source::Y => 2,
        mov::Source::Null => 3,
        mov::Source::Reserved => 4,
        mov::Source::Status => 5,
        mov::Source::Isr => 6,
        mov::Source::Osr => 7,
    }
}

/// The SET destination field: 0 pins, 1 X, 2 Y, 4 pindirs (the rest are reserved).
pub open spec fn set_destn_code(d: crate::instr::set::Destn) -> u8 {
    match d {
        crate::instr::set::Destn::Pins => 0,
        crate::instr::set::Destn::X => 1,
        crate::instr::set::Destn::Y => 2,
        crate::instr::set::Destn::Reserved1 => 3,
        crate::instr::set::Destn::PinDirs => 4,
        crate::instr::set::Destn::Reserved2 => 5,
        crate::instr::set::Destn::Reserved3 => 6,
        crate::instr::set::Destn::Reserved4 => 7,
    }
}

/// Decoding reads each operand field by the PIO encoding: whatever field
/// values `pio` hands over, the instruction the emulator makes has the
/// condition, source, destination or operation whose code is that value,
/// five-bit fields keep their value modulo 32, and the delay its value
/// modulo 32. Exactly the encodings the emulator does not model (WAIT on the
/// JMP pin, IN from the reserved sources, MOV to pindirs or with a reserved
/// operation or source, SET to a reserved destination) give no instruction.
pub proof fn lemma_decode_by_encoding(o: PioOperands, delay: u8)
    ensures
        ({
            let r = spec_instr_from_pio(Some(o), delay);
            &&& r matches Some(i) ==> i.delay == delay % 32 && i.side_set is None
            &&& match o {
                PioOperands::Jmp(c, a) => c < 8 ==> (r matches Some(i) && i.instruction matches Instruction::Jmp { condition, address }
                    && condition_code(condition) == c && address == a % 32),
                PioOperands::Wait(p, s, idx, _) => s < 4 ==> (if s == 3 { r is None } else {
                    r matches Some(i) && i.instruction matches Instruction::Wait { polarity, source, index }
                        && wait_source_code(source) == s && polarity == p % 2 && index == idx % 32 }),
                PioOperands::In(s, bc) => s < 8 ==> (if s == 4 || s == 5 { r is None } else {
                    r matches Some(i) && i.instruction matches Instruction::In { source, bit_count }
                        && in_source_code(source) == s && bit_count == bc % 32 }),
                PioOperands::Out(d, bc) => d < 8 ==> (r matches Some(i) && i.instruction matches Instruction::Out { destn, bit_count }
                    && out_destn_code(destn) == d && bit_count == bc % 32),
                PioOperands::Mov(d, op, s) => d < 8 && op < 4 && s < 8 ==> (if d == 3 || op == 3 || s == 4 { r is None } else {
                    r matches Some(i) && i.instruction matches Instruction::Mov { destn, op: op2, source }
                        && mov_destn_code(destn) == d && mov_op_code(op2) == op && mov_source_code(source) == s }),
                PioOperands::SetData(d, data) => d < 8 ==> (if d == 3 || d >= 5 { r is None } else {
                    r matches Some(i) && i.instruction matches Instruction::SetImmediate { destn, data: data2 }
                        && set_destn_code(destn) == d && data2 == data % 32 }),
                _ => true,
            }
        }),
{
    lemma_low_five(delay);
    match o {
        PioOperands::Jmp(c, a) => {
            lemma_low_five(a);
        },
        PioOperands::Wait(p, s, idx, _) => {
            lemma_low_five(idx);
            assert(p & 1 == p % 2) by (bit_vector);
        },
        PioOperands::In(s, bc) => {
            lemma_low_five(bc);
        },
        PioOperands::Out(d, bc) => {
            lemma_low_five(bc);
        },
        PioOperands::SetData(d, data) => {
            lemma_low_five(data);
        },
        _ => {},
    }
}

} // verus!
