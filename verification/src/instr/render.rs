//! Instructions written out in PIO assembler syntax.
use vstd::prelude::*;
use super::{mov, shift, wait, Condition, Instr, Instruction};
use crate::text::{dec_digits, dec_text, push_dec, push_str};

verus! {

/// The text of a JMP up to its address.
pub open spec fn jmp_prefix(c: Condition) -> Seq<char> {
    match c {
        Condition::Always => "jmp "@,
        Condition::XZero => "jmp !x, "@,
        Condition::XDec => "jmp x--, "@,
        Condition::YZero => "jmp !y, "@,
        Condition::YDec => "jmp y--, "@,
        Condition::XNeqY => "jmp x!=y, "@,
        Condition::Pin => "jmp pin, "@,
        Condition::OsrNotEmpty => "jmp !osre, "@,
    }
}

pub open spec fn wait_source_name(s: wait::Source) -> Seq<char> {
    match s {
        wait::Source::Gpio => "gpio"@,
        wait::Source::Pin => "pin"@,
        wait::Source::Irq => "irq"@,
        wait::Source::Reserved => "???"@,
    }
}

pub open spec fn in_source_name(s: shift::Source) -> Seq<char> {
    match s {
        shift::Source::Pins => "pins"@,
        shift::Source::X => "x"@,
        shift::Source::Y => "y"@,
        shift::Source::Null => "null"@,
        shift::Source::Isr => "isr"@,
        shift::Source::Osr => "osr"@,
        _ => "???"@,
    }
}

pub open spec fn out_destn_name(d: shift::Destn) -> Seq<char> {
    match d {
        shift::Destn::Pins => "pins"@,
        shift::Destn::X => "x"@,
        shift::Destn::Y => "y"@,
        shift::Destn::Null => "null"@,
        shift::Destn::PinDirs => "pindirs"@,
        shift::Destn::Pc => "pc"@,
        shift::Destn::Isr => "isr"@,
        shift::Destn::Exec => "exec"@,
    }
}

pub open spec fn mov_destn_name(d: mov::Destn) -> Seq<char> {
    match d {
        mov::Destn::Pins => "pins"@,
        mov::Destn::X => "x"@,
        mov::Destn::Y => "y"@,
        mov::Destn::Exec => "exec"@,
        mov::Destn::Pc => "pc"@,
        mov::Destn::Isr => "isr"@,
        mov::Destn::Osr => "osr"@,
        mov::Destn::Reserved => "???"@,
    }
}

pub open spec fn mov_source_name(s: mov::Source) -> Seq<char> {
    match s {
        mov::Source::Pins => "pins"@,
        mov::Source::X => "x"@,
        mov::Source::Y => "y"@,
        mov::Source::Null => "null"@,
        mov::Source::Status => "status"@,
        mov::Source::Isr => "isr"@,
        mov::Source::Osr => "osr"@,
        mov::Source::Reserved => "???"@,
    }
}

pub open spec fn mov_op_name(op: mov::Op) -> Seq<char> {
    match op {
        mov::Op::Identity => ""@,
        mov::Op::Invert => "!"@,
        mov::Op::BitReverse => "::"@,
        mov::Op::Reserved => "???"@,
    }
}

pub open spec fn set_destn_name(d: crate::instr::set::Destn) -> Seq<char> {
    match d {
        crate::instr::set::Destn::Pins => "pins"@,
        crate::instr::set::Destn::X => "x"@,
        crate::instr::set::Destn::Y => "y"@,
        crate::instr::set::Destn::PinDirs => "pindirs"@,
        _ => "???"@,
    }
}

/// A five-bit bit count as written: 0 stands for 32.
pub open spec fn count_text(bit_count: u8) -> Seq<char> {
    dec_text(if bit_count == 0 { 32nat } else { bit_count as nat })
}

/// `text` when `on`, nothing otherwise.
pub open spec fn text_if(on: bool, text: Seq<char>) -> Seq<char> {
    if on { text } else { Seq::empty() }
}

/// An instruction in assembler syntax, without delay or side-set.
pub open spec fn instruction_text(i: Instruction) -> Seq<char> {
    match i {
        Instruction::Jmp { condition, address } => jmp_prefix(condition) + dec_text(address as nat),
        Instruction::Wait { polarity, source, index } =>
            "wait "@ + dec_text(polarity as nat) + " "@ + wait_source_name(source) + " "@ + dec_text(index as nat),
        Instruction::In { source, bit_count } => "in "@ + in_source_name(source) + ", "@ + count_text(bit_count),
        Instruction::Out { destn, bit_count } => "out "@ + out_destn_name(destn) + ", "@ + count_text(bit_count),
        Instruction::Push { if_full, block } =>
            "push"@ + text_if(if_full == 1, " iffull"@) + text_if(block == 0, " noblock"@),
        Instruction::Pull { if_empty, block } =>
            "pull"@ + text_if(if_empty == 1, " ifempty"@) + text_if(block == 0, " noblock"@),
        Instruction::Mov { destn, op, source } =>
            "mov "@ + mov_destn_name(destn) + ", "@ + mov_op_name(op) + mov_source_name(source),
        Instruction::Irq { clear, wait, index } =>
            if clear == 1 {
                "irq clear "@ + dec_text(index as nat)
            } else if wait == 1 {
                "irq wait "@ + dec_text(index as nat)
            } else {
                "irq "@ + dec_text(index as nat)
            },
        Instruction::SetImmediate { destn, data } => "set "@ + set_destn_name(destn) + ", "@ + dec_text(data as nat),
    }
}

/// An instruction with its side-set value (if any) and its delay (if not 0).
pub open spec fn instr_text(i: Instr) -> Seq<char> {
    instruction_text(i.instruction)
        + (match i.side_set {
            Some(ss) => " side "@ + dec_text(ss as nat),
            None => Seq::empty(),
        })
        + text_if(i.delay > 0, " ["@ + dec_text(i.delay as nat) + "]"@)
}

fn jmp_prefix_str(c: Condition) -> (r: &'static str)
    ensures
        r@ == jmp_prefix(c),
{
    match c {
        Condition::Always => "jmp ",
        Condition::XZero => "jmp !x, ",
        Condition::XDec => "jmp x--, ",
        Condition::YZero => "jmp !y, ",
        Condition::YDec => "jmp y--, ",
        Condition::XNeqY => "jmp x!=y, ",
        Condition::Pin => "jmp pin, ",
        Condition::OsrNotEmpty => "jmp !osre, ",
    }
}

fn wait_source_str(s: wait::Source) -> (r: &'static str)
    ensures
        r@ == wait_source_name(s),
{
    match s {
        wait::Source::Gpio => "gpio",
        wait::Source::Pin => "pin",
        wait::Source::Irq => "irq",
        wait::Source::Reserved => "???",
    }
}

fn in_source_str(s: shift::Source) -> (r: &'static str)
    ensures
        r@ == in_source_name(s),
{
    match s {
        shift::Source::Pins => "pins",
        shift::Source::X => "x",
        shift::Source::Y => "y",
        shift::Source::Null => "null",
        shift::Source::Isr => "isr",
        shift::Source::Osr => "osr",
        _ => "???",
    }
}

fn out_destn_str(d: shift::Destn) -> (r: &'static str)
    ensures
        r@ == out_destn_name(d),
{
    match d {
        shift::Destn::Pins => "pins",
        shift::Destn::X => "x",
        shift::Destn::Y => "y",
        shift::Destn::Null => "null",
        shift::Destn::PinDirs => "pindirs",
        shift::Destn::Pc => "pc",
        shift::Destn::Isr => "isr",
        shift::Destn::Exec => "exec",
    }
}

fn mov_destn_str(d: mov::Destn) -> (r: &'static str)
    ensures
        r@ == mov_destn_name(d),
{
    match d {
        mov::Destn::Pins => "pins",
        mov::Destn::X => "x",
        mov::Destn::Y => "y",
        mov::Destn::Exec => "exec",
        mov::Destn::Pc => "pc",
        mov::Destn::Isr => "isr",
        mov::Destn::Osr => "osr",
        mov::Destn::Reserved => "???",
    }
}

fn mov_source_str(s: mov::Source) -> (r: &'static str)
    ensures
        r@ == mov_source_name(s),
{
    match s {
        mov::Source::Pins => "pins",
        mov::Source::X => "x",
        mov::Source::Y => "y",
        mov::Source::Null => "null",
        mov::Source::Status => "status",
        mov::Source::Isr => "isr",
        mov::Source::Osr => "osr",
        mov::Source::Reserved => "???",
    }
}

fn mov_op_str(op: mov::Op) -> (r: &'static str)
    ensures
        r@ == mov_op_name(op),
{
    match op {
        mov::Op::Identity => "",
        mov::Op::Invert => "!",
        mov::Op::BitReverse => "::",
        mov::Op::Reserved => "???",
    }
}

fn set_destn_str(d: crate::instr::set::Destn) -> (r: &'static str)
    ensures
        r@ == set_destn_name(d),
{
    match d {
        crate::instr::set::Destn::Pins => "pins",
        crate::instr::set::Destn::X => "x",
        crate::instr::set::Destn::Y => "y",
        crate::instr::set::Destn::PinDirs => "pindirs",
        _ => "???",
    }
}

/// Appends a five-bit bit count as written (0 stands for 32).
fn push_count(s: &mut String, bit_count: u8)
    ensures
        final(s)@ == old(s)@ + count_text(bit_count),
{
    if bit_count == 0 {
        push_dec(s, 32);
    } else {
        push_dec(s, bit_count as u64);
    }
}

impl Instruction {
    /// Appends the instruction in assembler syntax to `s`.
    pub fn write_text(&self, s: &mut String)
        ensures
            final(s)@ == old(s)@ + instruction_text(*self),
    {
        let ghost s0 = s@;
        match *self {
            Instruction::Jmp { condition, address } => {
                push_str(s, jmp_prefix_str(condition));
                push_dec(s, address as u64);
                assert(s@ =~= s0 + instruction_text(*self));
            },
            Instruction::Wait { polarity, source, index } => {
                push_str(s, "wait ");
                push_dec(s, polarity as u64);
                push_str(s, " ");
                push_str(s, wait_source_str(source));
                push_str(s, " ");
                push_dec(s, index as u64);
                assert(s@ =~= s0 + instruction_text(*self));
            },
            Instruction::In { source, bit_count } => {
                push_str(s, "in ");
                push_str(s, in_source_str(source));
                push_str(s, ", ");
                push_count(s, bit_count);
                assert(s@ =~= s0 + instruction_text(*self));
            },
            Instruction::Out { destn, bit_count } => {
                push_str(s, "out ");
                push_str(s, out_destn_str(destn));
                push_str(s, ", ");
                push_count(s, bit_count);
                assert(s@ =~= s0 + instruction_text(*self));
            },
            Instruction::Push { if_full, block } => {
                push_str(s, "push");
                push_str(s, if if_full == 1 { " iffull" } else { "" });
                push_str(s, if block == 0 { " noblock" } else { "" });
                proof {
                    reveal_strlit("");
                }
                assert(s@ =~= s0 + instruction_text(*self));
            },
            Instruction::Pull { if_empty, block } => {
                push_str(s, "pull");
                push_str(s, if if_empty == 1 { " ifempty" } else { "" });
                push_str(s, if block == 0 { " noblock" } else { "" });
                proof {
                    reveal_strlit("");
                }
                assert(s@ =~= s0 + instruction_text(*self));
            },
            Instruction::Mov { destn, op, source } => {
                push_str(s, "mov ");
                push_str(s, mov_destn_str(destn));
                push_str(s, ", ");
                push_str(s, mov_op_str(op));
                push_str(s, mov_source_str(source));
                assert(s@ =~= s0 + instruction_text(*self));
            },
            Instruction::Irq { clear, wait, index } => {
                if clear == 1 {
                    push_str(s, "irq clear ");
                } else if wait == 1 {
                    push_str(s, "irq wait ");
                } else {
                    push_str(s, "irq ");
                }
                push_dec(s, index as u64);
                assert(s@ =~= s0 + instruction_text(*self));
            },
            Instruction::SetImmediate { destn, data } => {
                push_str(s, "set ");
                push_str(s, set_destn_str(destn));
                push_str(s, ", ");
                push_dec(s, data as u64);
                assert(s@ =~= s0 + instruction_text(*self));
            },
        }
    }

    /// The instruction in assembler syntax, such as `jmp x--, 3` or `in pins, 32`.
    pub fn to_string(&self) -> (r: String)
        ensures
            r@ == instruction_text(*self),
    {
        let mut s = String::new();
        self.write_text(&mut s);
        proof {
            assert(s@ =~= instruction_text(*self));
        }
        s
    }
}

impl Instr {
    /// Appends the instruction to `s`, followed by ` side N` when it has a
    /// side-set value and ` [N]` when its delay is not 0.
    pub fn write_text(&self, s: &mut String)
        ensures
            final(s)@ == old(s)@ + instr_text(*self),
    {
        let ghost s0 = s@;
        self.instruction.write_text(s);
        let ghost s1 = s@;
        if let Some(ss) = self.side_set {
            push_str(s, " side ");
            push_dec(s, ss as u64);
        }
        let ghost s2 = s@;
        if self.delay > 0 {
            push_str(s, " [");
            push_dec(s, self.delay as u64);
            push_str(s, "]");
        }
        proof {
            let side = match self.side_set {
                Some(ss) => " side "@ + dec_text(ss as nat),
                None => Seq::<char>::empty(),
            };
            assert(s2 =~= s1 + side);
            assert(s@ =~= s2 + text_if(self.delay > 0, " ["@ + dec_text(self.delay as nat) + "]"@));
            assert(s@ =~= s0 + instr_text(*self));
        }
    }

    /// The instruction in assembler syntax, such as `set x, 3 side 1 [2]`.
    pub fn to_string(&self) -> (r: String)
        ensures
            r@ == instr_text(*self),
    {
        let mut s = String::new();
        self.write_text(&mut s);
        proof {
            assert(s@ =~= instr_text(*self));
        }
        s
    }
}

/// The text of a JMP is its condition written out, then the address:
/// `jmp N`, `jmp !x, N`, `jmp x--, N`, `jmp !y, N`, `jmp y--, N`,
/// `jmp x!=y, N`, `jmp pin, N` or `jmp !osre, N`.
pub proof fn lemma_jmp_text(address: u8)
    ensures
        instruction_text(Instruction::Jmp { condition: Condition::Always, address }) == "jmp "@ + dec_text(address as nat),
        instruction_text(Instruction::Jmp { condition: Condition::XZero, address }) == "jmp !x, "@ + dec_text(address as nat),
        instruction_text(Instruction::Jmp { condition: Condition::XDec, address }) == "jmp x--, "@ + dec_text(address as nat),
        instruction_text(Instruction::Jmp { condition: Condition::YZero, address }) == "jmp !y, "@ + dec_text(address as nat),
        instruction_text(Instruction::Jmp { condition: Condition::YDec, address }) == "jmp y--, "@ + dec_text(address as nat),
        instruction_text(Instruction::Jmp { condition: Condition::XNeqY, address }) == "jmp x!=y, "@ + dec_text(address as nat),
        instruction_text(Instruction::Jmp { condition: Condition::Pin, address }) == "jmp pin, "@ + dec_text(address as nat),
        instruction_text(Instruction::Jmp { condition: Condition::OsrNotEmpty, address }) == "jmp !osre, "@ + dec_text(address as nat),
{
}

/// A number in decimal starts with a digit.
proof fn lemma_dec_first_digit(n: nat)
    ensures
        dec_digits(n).len() >= 1,
        0x30 <= dec_digits(n)[0] <= 0x39,
    decreases n,
{
    if n >= 10 {
        lemma_dec_first_digit(n / 10);
    }
}

/// Different JMP conditions with the same address are written differently.
pub proof fn lemma_jmp_text_distinct(c1: Condition, c2: Condition, address: u8)
    requires
        c1 != c2,
    ensures
        instruction_text(Instruction::Jmp { condition: c1, address }) != instruction_text(Instruction::Jmp { condition: c2, address }),
{
    reveal_strlit("jmp ");
    reveal_strlit("jmp !x, ");
    reveal_strlit("jmp x--, ");
    reveal_strlit("jmp !y, ");
    reveal_strlit("jmp y--, ");
    reveal_strlit("jmp x!=y, ");
    reveal_strlit("jmp pin, ");
    reveal_strlit("jmp !osre, ");
    let d = dec_text(address as nat);
    lemma_dec_first_digit(address as nat);
    assert(d.len() >= 1);
    assert(d[0] == (dec_digits(address as nat)[0] as char));
    let t1 = instruction_text(Instruction::Jmp { condition: c1, address });
    let t2 = instruction_text(Instruction::Jmp { condition: c2, address });
    assert(t1 == jmp_prefix(c1) + d);
    assert(t2 == jmp_prefix(c2) + d);
    if t1 == t2 {
        assert(t1[4] == t2[4]);
        assert(t1[5] == t2[5]);
        assert(t1[6] == t2[6]);
        assert(false);
    }
}


/// The text of every other instruction, word for word: `wait P gpio|pin|irq N`,
/// `in SRC, N` and `out DST, N` (a bit count of 0 written as 32), `mov DST, SRC`
/// with `!` or `::` before the source for an inverting or reversing MOV,
/// `set DST, N`, `push`/`pull` with ` iffull`/` ifempty` and ` noblock`, and
/// `irq N`, `irq wait N` or `irq clear N` (clear taking precedence).
pub proof fn lemma_instruction_texts(polarity: u8, index: u8, bit_count: u8, data: u8)
    ensures
        instruction_text(Instruction::Wait { polarity, source: wait::Source::Gpio, index }) == "wait "@ + dec_text(polarity as nat) + " "@ + "gpio"@ + " "@ + dec_text(index as nat),
        instruction_text(Instruction::Wait { polarity, source: wait::Source::Pin, index }) == "wait "@ + dec_text(polarity as nat) + " "@ + "pin"@ + " "@ + dec_text(index as nat),
        instruction_text(Instruction::Wait { polarity, source: wait::Source::Irq, index }) == "wait "@ + dec_text(polarity as nat) + " "@ + "irq"@ + " "@ + dec_text(index as nat),
        instruction_text(Instruction::Wait { polarity, source: wait::Source::Reserved, index }) == "wait "@ + dec_text(polarity as nat) + " "@ + "???"@ + " "@ + dec_text(index as nat),
        instruction_text(Instruction::In { source: shift::Source::Pins, bit_count }) == "in "@ + "pins"@ + ", "@ + count_text(bit_count),
        instruction_text(Instruction::In { source: shift::Source::X, bit_count }) == "in "@ + "x"@ + ", "@ + count_text(bit_count),
        instruction_text(Instruction::In { source: shift::Source::Y, bit_count }) == "in "@ + "y"@ + ", "@ + count_text(bit_count),
        instruction_text(Instruction::In { source: shift::Source::Null, bit_count }) == "in "@ + "null"@ + ", "@ + count_text(bit_count),
        instruction_text(Instruction::In { source: shift::Source::Reserved1, bit_count }) == "in "@ + "???"@ + ", "@ + count_text(bit_count),
        instruction_text(Instruction::In { source: shift::Source::Reserved2, bit_count }) == "in "@ + "???"@ + ", "@ + count_text(bit_count),
        instruction_text(Instruction::In { source: shift::Source::Isr, bit_count }) == "in "@ + "isr"@ + ", "@ + count_text(bit_count),
        instruction_text(Instruction::In { source: shift::Source::Osr, bit_count }) == "in "@ + "osr"@ + ", "@ + count_text(bit_count),
        instruction_text(Instruction::Out { destn: shift::Destn::Pins, bit_count }) == "out "@ + "pins"@ + ", "@ + count_text(bit_count),
        instruction_text(Instruction::Out { destn: shift::Destn::X, bit_count }) == "out "@ + "x"@ + ", "@ + count_text(bit_count),
        instruction_text(Instruction::Out { destn: shift::Destn::Y, bit_count }) == "out "@ + "y"@ + ", "@ + count_text(bit_count),
        instruction_text(Instruction::Out { destn: shift::Destn::Null, bit_count }) == "out "@ + "null"@ + ", "@ + count_text(bit_count),
        instruction_text(Instruction::Out { destn: shift::Destn::PinDirs, bit_count }) == "out "@ + "pindirs"@ + ", "@ + count_text(bit_count),
        instruction_text(Instruction::Out { destn: shift::Destn::Pc, bit_count }) == "out "@ + "pc"@ + ", "@ + count_text(bit_count),
        instruction_text(Instruction::Out { destn: shift::Destn::Isr, bit_count }) == "out "@ + "isr"@ + ", "@ + count_text(bit_count),
        instruction_text(Instruction::Out { destn: shift::Destn::Exec, bit_count }) == "out "@ + "exec"@ + ", "@ + count_text(bit_count),
        instruction_text(Instruction::Mov { destn: mov::Destn::Pins, op: mov::Op::Identity, source: mov::Source::X }) == "mov "@ + "pins"@ + ", "@ + ""@ + "x"@,
        instruction_text(Instruction::Mov { destn: mov::Destn::X, op: mov::Op::Identity, source: mov::Source::X }) == "mov "@ + "x"@ + ", "@ + ""@ + "x"@,
        instruction_text(Instruction::Mov { destn: mov::Destn::Y, op: mov::Op::Identity, source: mov::Source::X }) == "mov "@ + "y"@ + ", "@ + ""@ + "x"@,
        instruction_text(Instruction::Mov { destn: mov::Destn::Reserved, op: mov::Op::Identity, source: mov::Source::X }) == "mov "@ + "???"@ + ", "@ + ""@ + "x"@,
        instruction_text(Instruction::Mov { destn: mov::Destn::Exec, op: mov::Op::Identity, source: mov::Source::X }) == "mov "@ + "exec"@ + ", "@ + ""@ + "x"@,
        instruction_text(Instruction::Mov { destn: mov::Destn::Pc, op: mov::Op::Identity, source: mov::Source::X }) == "mov "@ + "pc"@ + ", "@ + ""@ + "x"@,
        instruction_text(Instruction::Mov { destn: mov::Destn::Isr, op: mov::Op::Identity, source: mov::Source::X }) == "mov "@ + "isr"@ + ", "@ + ""@ + "x"@,
        instruction_text(Instruction::Mov { destn: mov::Destn::Osr, op: mov::Op::Identity, source: mov::Source::X }) == "mov "@ + "osr"@ + ", "@ + ""@ + "x"@,
        instruction_text(Instruction::Mov { destn: mov::Destn::X, op: mov::Op::Identity, source: mov::Source::Y }) == "mov "@ + "x"@ + ", "@ + ""@ + "y"@,
        instruction_text(Instruction::Mov { destn: mov::Destn::X, op: mov::Op::Invert, source: mov::Source::Y }) == "mov "@ + "x"@ + ", "@ + "!"@ + "y"@,
        instruction_text(Instruction::Mov { destn: mov::Destn::X, op: mov::Op::BitReverse, source: mov::Source::Y }) == "mov "@ + "x"@ + ", "@ + "::"@ + "y"@,
        instruction_text(Instruction::Mov { destn: mov::Destn::X, op: mov::Op::Reserved, source: mov::Source::Y }) == "mov "@ + "x"@ + ", "@ + "???"@ + "y"@,
        instruction_text(Instruction::Mov { destn: mov::Destn::Y, op: mov::Op::Identity, source: mov::Source::Pins }) == "mov "@ + "y"@ + ", "@ + ""@ + "pins"@,
        instruction_text(Instruction::Mov { destn: mov::Destn::Y, op: mov::Op::Identity, source: mov::Source::X }) == "mov "@ + "y"@ + ", "@ + ""@ + "x"@,
        instruction_text(Instruction::Mov { destn: mov::Destn::Y, op: mov::Op::Identity, source: mov::Source::Y }) == "mov "@ + "y"@ + ", "@ + ""@ + "y"@,
        instruction_text(Instruction::Mov { destn: mov::Destn::Y, op: mov::Op::Identity, source: mov::Source::Null }) == "mov "@ + "y"@ + ", "@ + ""@ + "null"@,
        instruction_text(Instruction::Mov { destn: mov::Destn::Y, op: mov::Op::Identity, source: mov::Source::Reserved }) == "mov "@ + "y"@ + ", "@ + ""@ + "???"@,
        instruction_text(Instruction::Mov { destn: mov::Destn::Y, op: mov::Op::Identity, source: mov::Source::Status }) == "mov "@ + "y"@ + ", "@ + ""@ + "status"@,
        instruction_text(Instruction::Mov { destn: mov::Destn::Y, op: mov::Op::Identity, source: mov::Source::Isr }) == "mov "@ + "y"@ + ", "@ + ""@ + "isr"@,
        instruction_text(Instruction::Mov { destn: mov::Destn::Y, op: mov::Op::Identity, source: mov::Source::Osr }) == "mov "@ + "y"@ + ", "@ + ""@ + "osr"@,
        instruction_text(Instruction::SetImmediate { destn: crate::instr::set::Destn::Pins, data }) == "set "@ + "pins"@ + ", "@ + dec_text(data as nat),
        instruction_text(Instruction::SetImmediate { destn: crate::instr::set::Destn::X, data }) == "set "@ + "x"@ + ", "@ + dec_text(data as nat),
        instruction_text(Instruction::SetImmediate { destn: crate::instr::set::Destn::Y, data }) == "set "@ + "y"@ + ", "@ + dec_text(data as nat),
        instruction_text(Instruction::SetImmediate { destn: crate::instr::set::Destn::Reserved1, data }) == "set "@ + "???"@ + ", "@ + dec_text(data as nat),
        instruction_text(Instruction::SetImmediate { destn: crate::instr::set::Destn::PinDirs, data }) == "set "@ + "pindirs"@ + ", "@ + dec_text(data as nat),
        instruction_text(Instruction::SetImmediate { destn: crate::instr::set::Destn::Reserved2, data }) == "set "@ + "???"@ + ", "@ + dec_text(data as nat),
        instruction_text(Instruction::SetImmediate { destn: crate::instr::set::Destn::Reserved3, data }) == "set "@ + "???"@ + ", "@ + dec_text(data as nat),
        instruction_text(Instruction::SetImmediate { destn: crate::instr::set::Destn::Reserved4, data }) == "set "@ + "???"@ + ", "@ + dec_text(data as nat),
        instruction_text(Instruction::Push { if_full: 0, block: 1 }) == "push"@ + Seq::<char>::empty() + Seq::<char>::empty(),
        instruction_text(Instruction::Push { if_full: 1, block: 1 }) == "push"@ + " iffull"@ + Seq::<char>::empty(),
        instruction_text(Instruction::Push { if_full: 0, block: 0 }) == "push"@ + Seq::<char>::empty() + " noblock"@,
        instruction_text(Instruction::Push { if_full: 1, block: 0 }) == "push"@ + " iffull"@ + " noblock"@,
        instruction_text(Instruction::Pull { if_empty: 0, block: 1 }) == "pull"@ + Seq::<char>::empty() + Seq::<char>::empty(),
        instruction_text(Instruction::Pull { if_empty: 1, block: 1 }) == "pull"@ + " ifempty"@ + Seq::<char>::empty(),
        instruction_text(Instruction::Pull { if_empty: 0, block: 0 }) == "pull"@ + Seq::<char>::empty() + " noblock"@,
        instruction_text(Instruction::Pull { if_empty: 1, block: 0 }) == "pull"@ + " ifempty"@ + " noblock"@,
        instruction_text(Instruction::Irq { clear: 1, wait: 0, index }) == "irq clear "@ + dec_text(index as nat),
        instruction_text(Instruction::Irq { clear: 1, wait: 1, index }) == "irq clear "@ + dec_text(index as nat),
        instruction_text(Instruction::Irq { clear: 0, wait: 1, index }) == "irq wait "@ + dec_text(index as nat),
        instruction_text(Instruction::Irq { clear: 0, wait: 0, index }) == "irq "@ + dec_text(index as nat),
        count_text(0) == dec_text(32),
        bit_count > 0 ==> count_text(bit_count) == dec_text(bit_count as nat),
{
}

} // verus!
