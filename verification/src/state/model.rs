//! The state machines' behaviour stated over plain values: one function per
//! instruction kind, and `spec_execute` for one clock of one state machine.
//! `None` stands for an input on which the emulator gives up (an instruction
//! it does not model, or a register value that does not fit its field).
use vstd::prelude::*;
use super::{
    bit_of, spec_irq_index, spec_reverse, spec_rotate_right, spec_shl, spec_shr, spec_to_mask,
    Config, ShiftDir, StatusSel,
};
use crate::instr::{mov, shift, wait, Condition, Instr, Instruction};

verus! {

/// The registers of one state machine as plain values.
#[verifier::ext_equal]
pub struct SmModel {
    pub pc: u8,
    pub x: u32,
    pub y: u32,
    pub isr: u32,
    pub osr: u32,
    pub isr_count: u8,
    pub osr_count: u8,
    pub tx: Seq<u32>,
    pub tx_depth: nat,
    pub rx: Seq<u32>,
    pub rx_depth: nat,
    pub delay: u8,
    pub stalled: bool,
    pub irq_stalled: bool,
}

impl SmModel {
    pub open spec fn wf(&self) -> bool {
        &&& self.pc < 32
        &&& self.tx.len() <= self.tx_depth
        &&& self.rx.len() <= self.rx_depth
        &&& self.tx_depth <= 8
        &&& self.rx_depth <= 8
    }
}

/// The block-wide registers that a state machine writes: GPIO outputs, GPIO
/// directions and the IRQ flags.
pub struct Io {
    pub out: u32,
    pub dir: u32,
    pub irq: u8,
}

/// What an instruction did: the new registers, whether it stopped the clock
/// early (a stall), and whether the program counter still advances.
#[verifier::ext_equal]
pub struct Effect {
    pub m: SmModel,
    pub io: Io,
    pub halted: bool,
    pub advance: bool,
}

/// The pull threshold of `cfg`, with 0 standing for 32.
pub open spec fn pull_threshold(cfg: Config) -> u8 {
    if cfg.pull_thresh.0 == 0 { 32 } else { cfg.pull_thresh.0 }
}

/// The push threshold of `cfg`, with 0 standing for 32.
pub open spec fn push_threshold(cfg: Config) -> u8 {
    if cfg.push_thresh.0 == 0 { 32 } else { cfg.push_thresh.0 }
}

/// A five-bit bit count, with 0 standing for 32.
pub open spec fn bit_count_of(bc: u8) -> u8 {
    if bc == 0 { 32 } else { bc }
}

/// A 32-bit mask with the low `n` bits set.
pub open spec fn mask32(n: u8) -> u32 {
    spec_to_mask(n as nat) as u32
}

/// `old` with the `count` bits from `base` upwards replaced by the low bits of `data`.
pub open spec fn masked_write(old: u32, data: u32, base: u8, count: u8) -> u32 {
    let mask = mask32(count) << base;
    (old & !mask) | ((data << base) & mask)
}

/// The input pins, rotated so that the pin at `in_base` comes first.
pub open spec fn pins_value(cfg: Config, gpio_in: u32) -> u32 {
    spec_rotate_right(gpio_in as nat, cfg.in_base.0 as nat) as u32
}

pub open spec fn go_on(m: SmModel, io: Io) -> Option<Effect> {
    Some(Effect { m, io, halted: false, advance: true })
}

pub open spec fn stall(m: SmModel, io: Io) -> Option<Effect> {
    Some(Effect { m: SmModel { stalled: true, ..m }, io, halted: true, advance: true })
}

/// The OSR refilled from the TX FIFO: its shift count drops to 0.
pub open spec fn refill_osr(m: SmModel) -> SmModel {
    SmModel { osr: m.tx[0], tx: m.tx.drop_first(), osr_count: 0, ..m }
}

pub open spec fn min63(a: int) -> u8 {
    if a < 63 { a as u8 } else { 63 }
}

pub open spec fn spec_jmp(m: SmModel, cfg: Config, condition: Condition, address: u8, io: Io, gpio_in: u32) -> Option<Effect> {
    let (jump, m1) = match condition {
        Condition::Always => (true, m),
        Condition::XZero => (m.x == 0, m),
        Condition::XDec => (m.x != 0, SmModel { x: if m.x == 0 { u32::MAX } else { (m.x - 1) as u32 }, ..m }),
        Condition::YZero => (m.y == 0, m),
        Condition::YDec => (m.y != 0, SmModel { y: if m.y == 0 { u32::MAX } else { (m.y - 1) as u32 }, ..m }),
        Condition::XNeqY => (m.x != m.y, m),
        Condition::Pin => (bit_of(gpio_in as nat, cfg.jmp_pin as nat), m),
        Condition::OsrNotEmpty => (m.osr_count < pull_threshold(cfg), m),
    };
    if jump {
        Some(Effect { m: SmModel { pc: address, ..m1 }, io, halted: false, advance: false })
    } else {
        go_on(m1, io)
    }
}

pub open spec fn spec_wait(m: SmModel, cfg: Config, polarity: u8, source: wait::Source, index: u8, io: Io, gpio_in: u32, sm_id: u8) -> Option<Effect> {
    let irq_index = spec_irq_index(index as nat, sm_id as nat);
    let level: Option<bool> = match source {
        wait::Source::Gpio => Some(bit_of(gpio_in as nat, index as nat)),
        wait::Source::Pin => Some(bit_of(pins_value(cfg, gpio_in) as nat, index as nat)),
        wait::Source::Irq => if index <= 7 { Some(bit_of(io.irq as nat, irq_index)) } else { None },
        wait::Source::Reserved => None,
    };
    match level {
        None => None,
        Some(b) => if (if b { 1u8 } else { 0u8 }) == polarity {
            if source == wait::Source::Irq && polarity == 1 {
                go_on(m, Io { irq: io.irq & !(1u8 << (irq_index as u8)), ..io })
            } else {
                go_on(m, io)
            }
        } else {
            stall(m, io)
        },
    }
}

pub open spec fn spec_in(m: SmModel, cfg: Config, source: shift::Source, bit_count: u8, io: Io, gpio_in: u32) -> Option<Effect> {
    let n = bit_count_of(bit_count);
    let src: Option<u32> = match source {
        shift::Source::Pins => Some(pins_value(cfg, gpio_in)),
        shift::Source::X => Some(m.x),
        shift::Source::Y => Some(m.y),
        shift::Source::Null => Some(0),
        shift::Source::Isr => Some(m.isr),
        shift::Source::Osr => Some(m.osr),
        _ => None,
    };
    match src {
        None => None,
        Some(v) => {
            let data = v & mask32(n);
            let isr: u32 = match cfg.in_shiftdir {
                ShiftDir::Left => (spec_shl(m.isr as nat, n as nat) as u32) | data,
                ShiftDir::Right => (spec_shr(m.isr as nat, n as nat) as u32) | (spec_rotate_right(data as nat, n as nat) as u32),
            };
            if m.isr_count + n > 255 {
                None
            } else {
                let m1 = SmModel { isr, isr_count: min63(m.isr_count + n), ..m };
                if cfg.autopush && m1.isr_count >= push_threshold(cfg) {
                    if m1.rx.len() >= m1.rx_depth {
                        stall(m1, io)
                    } else {
                        go_on(SmModel { rx: m1.rx.push(m1.isr), isr: 0, isr_count: 0, ..m1 }, io)
                    }
                } else {
                    go_on(m1, io)
                }
            }
        },
    }
}

/// What OUT shifts out of the OSR, and the OSR left behind.
pub open spec fn out_shift(osr: u32, cfg: Config, n: u8) -> (u32, u32) {
    match cfg.out_shiftdir {
        ShiftDir::Left => (
            (spec_shr(osr as nat, (32 - n) as nat) as u32) & mask32(n),
            spec_shl(osr as nat, n as nat) as u32,
        ),
        ShiftDir::Right => (osr & mask32(n), spec_shr(osr as nat, n as nat) as u32),
    }
}

pub open spec fn spec_out(m: SmModel, cfg: Config, destn: shift::Destn, bit_count: u8, io: Io) -> Option<Effect> {
    let n = bit_count_of(bit_count);
    let reload = cfg.autopull && m.osr_count >= pull_threshold(cfg);
    if reload && m.tx.len() == 0 {
        stall(m, io)
    } else {
        let m0 = if reload { refill_osr(m) } else { m };
        let (data, osr) = out_shift(m0.osr, cfg, n);
        let m1 = SmModel { osr, ..m0 };
        let r: Option<(SmModel, Io, bool)> = match destn {
            shift::Destn::Pins => Some((m1, Io { out: masked_write(io.out, data, cfg.out_base.0, cfg.out_count.0), ..io }, true)),
            shift::Destn::X => Some((SmModel { x: data, ..m1 }, io, true)),
            shift::Destn::Y => Some((SmModel { y: data, ..m1 }, io, true)),
            shift::Destn::Null => Some((m1, io, true)),
            shift::Destn::PinDirs => Some((m1, Io { dir: masked_write(io.dir, data, cfg.out_base.0, cfg.out_count.0), ..io }, true)),
            shift::Destn::Pc => if (data as u8) < 32 { Some((SmModel { pc: data as u8, ..m1 }, io, false)) } else { None },
            shift::Destn::Isr => Some((SmModel { isr: data, isr_count: n, ..m1 }, io, true)),
            shift::Destn::Exec => None,
        };
        match r {
            None => None,
            Some((m2, io2, advance)) => if m2.osr_count + n > 255 {
                None
            } else {
                let m3 = SmModel { osr_count: min63(m2.osr_count + n), ..m2 };
                let m4 = if cfg.autopull && m3.osr_count >= pull_threshold(cfg) && m3.tx.len() > 0 { refill_osr(m3) } else { m3 };
                Some(Effect { m: m4, io: io2, halted: false, advance })
            },
        }
    }
}

pub open spec fn spec_push(m: SmModel, cfg: Config, if_full: u8, block: u8, io: Io) -> Option<Effect> {
    if if_full != 1 || m.isr_count >= push_threshold(cfg) {
        if m.rx.len() >= m.rx_depth {
            if block == 1 {
                stall(m, io)
            } else {
                go_on(SmModel { isr: 0, isr_count: 0, ..m }, io)
            }
        } else {
            go_on(SmModel { rx: m.rx.push(m.isr), isr: 0, isr_count: 0, ..m }, io)
        }
    } else {
        go_on(m, io)
    }
}

pub open spec fn spec_pull(m: SmModel, cfg: Config, if_empty: u8, block: u8, io: Io) -> Option<Effect> {
    if if_empty != 1 || m.osr_count >= pull_threshold(cfg) {
        if m.tx.len() == 0 {
            if block == 1 {
                stall(m, io)
            } else {
                go_on(SmModel { osr: m.x, osr_count: 0, ..m }, io)
            }
        } else {
            go_on(refill_osr(m), io)
        }
    } else {
        go_on(m, io)
    }
}

/// What MOV reads from `source`.
pub open spec fn mov_source(m: SmModel, cfg: Config, source: mov::Source, gpio_in: u32) -> Option<u32> {
    match source {
        mov::Source::Pins => Some(pins_value(cfg, gpio_in)),
        mov::Source::X => Some(m.x),
        mov::Source::Y => Some(m.y),
        mov::Source::Null => Some(0),
        mov::Source::Status => {
            let level = match cfg.status_sel {
                StatusSel::TxLevel => m.tx.len(),
                StatusSel::RxLevel => m.rx.len(),
            };
            Some(if level < cfg.status_n.0 { 0xffff_ffffu32 } else { 0u32 })
        },
        mov::Source::Isr => Some(m.isr),
        mov::Source::Osr => Some(m.osr),
        mov::Source::Reserved => None,
    }
}

/// MOV's operation applied to `v`.
pub open spec fn mov_op(op: mov::Op, v: u32) -> Option<u32> {
    match op {
        mov::Op::Identity => Some(v),
        mov::Op::Invert => Some(!v),
        mov::Op::BitReverse => Some(spec_reverse(v)),
        mov::Op::Reserved => None,
    }
}

pub open spec fn spec_mov(m: SmModel, cfg: Config, destn: mov::Destn, op: mov::Op, source: mov::Source, io: Io, gpio_in: u32) -> Option<Effect> {
    match mov_source(m, cfg, source, gpio_in) {
        None => None,
        Some(v) => match mov_op(op, v) {
            None => None,
            Some(data) => match destn {
                mov::Destn::Pins => go_on(m, Io { out: masked_write(io.out, data, cfg.out_base.0, cfg.out_count.0), ..io }),
                mov::Destn::X => go_on(SmModel { x: data, ..m }, io),
                mov::Destn::Y => go_on(SmModel { y: data, ..m }, io),
                mov::Destn::Pc => if (data as u8) < 32 { go_on(SmModel { pc: data as u8, ..m }, io) } else { None },
                mov::Destn::Isr => go_on(SmModel { isr: data, isr_count: 0, ..m }, io),
                mov::Destn::Osr => go_on(SmModel { osr: data, osr_count: 0, ..m }, io),
                mov::Destn::Exec => None,
                mov::Destn::Reserved => None,
            },
        },
    }
}

pub open spec fn spec_irq(m: SmModel, clear: u8, wait: u8, index: u8, io: Io, sm_id: u8) -> Option<Effect> {
    let i = spec_irq_index(index as nat, sm_id as nat) as u8;
    if m.irq_stalled {
        if bit_of(io.irq as nat, i as nat) {
            stall(m, io)
        } else {
            go_on(SmModel { irq_stalled: false, ..m }, io)
        }
    } else if clear == 1 {
        go_on(m, Io { irq: io.irq & !(1u8 << i), ..io })
    } else if wait == 1 {
        Some(Effect { m: SmModel { irq_stalled: true, stalled: true, ..m }, io: Io { irq: io.irq | (1u8 << i), ..io }, halted: true, advance: true })
    } else {
        go_on(m, Io { irq: io.irq | (1u8 << i), ..io })
    }
}

pub open spec fn spec_set(m: SmModel, cfg: Config, destn: crate::instr::set::Destn, data: u8, io: Io) -> Option<Effect> {
    match destn {
        crate::instr::set::Destn::Pins => go_on(m, Io { out: masked_write(io.out, data as u32, cfg.set_base.0, cfg.set_count.0), ..io }),
        crate::instr::set::Destn::X => go_on(SmModel { x: data as u32, ..m }, io),
        crate::instr::set::Destn::Y => go_on(SmModel { y: data as u32, ..m }, io),
        crate::instr::set::Destn::PinDirs => go_on(m, Io { dir: masked_write(io.dir, data as u32, cfg.set_base.0, cfg.set_count.0), ..io }),
        _ => None,
    }
}

/// What `instruction` does to the registers, before the common tail of a clock.
pub open spec fn spec_instruction(m: SmModel, cfg: Config, instruction: Instruction, io: Io, gpio_in: u32, sm_id: u8) -> Option<Effect> {
    match instruction {
        Instruction::Jmp { condition, address } => spec_jmp(m, cfg, condition, address, io, gpio_in),
        Instruction::Wait { polarity, source, index } => spec_wait(m, cfg, polarity, source, index, io, gpio_in, sm_id),
        Instruction::In { source, bit_count } => spec_in(m, cfg, source, bit_count, io, gpio_in),
        Instruction::Out { destn, bit_count } => spec_out(m, cfg, destn, bit_count, io),
        Instruction::Push { if_full, block } => spec_push(m, cfg, if_full, block, io),
        Instruction::Pull { if_empty, block } => spec_pull(m, cfg, if_empty, block, io),
        Instruction::Mov { destn, op, source } => spec_mov(m, cfg, destn, op, source, io, gpio_in),
        Instruction::Irq { clear, wait, index } => spec_irq(m, clear, wait, index, io, sm_id),
        Instruction::SetImmediate { destn, data } => spec_set(m, cfg, destn, data, io),
    }
}

/// The trailing autopull: after any instruction but OUT (MOV and PULL first
/// count the OSR as full), with autopull on, an OSR shifted out to the pull
/// threshold is refilled from a non-empty TX FIFO.
pub open spec fn tail_refill(m: SmModel, cfg: Config, instruction: Instruction) -> SmModel {
    if instruction is Out {
        m
    } else {
        let a = if instruction is Mov || instruction is Pull { SmModel { osr_count: 0, ..m } } else { m };
        if cfg.autopull && a.osr_count >= pull_threshold(cfg) && a.tx.len() > 0 { refill_osr(a) } else { a }
    }
}

/// The program counter after an instruction that does not jump: it wraps
/// from `wrap_top` to `wrap_bottom`, and cannot run past slot 31.
pub open spec fn next_pc(pc: u8, cfg: Config) -> Option<u8> {
    if pc == cfg.wrap_top {
        Some(cfg.wrap_bottom)
    } else if pc < 31 {
        Some((pc + 1) as u8)
    } else {
        None
    }
}

/// One clock of one state machine: a pending delay counts down; otherwise
/// the instruction runs, then (unless it stalled) the OSR may be refilled, the
/// instruction's delay is loaded and the program counter advances.
pub open spec fn spec_execute(m: SmModel, cfg: Config, instr: Instr, io: Io, gpio_in: u32, sm_id: u8) -> Option<(SmModel, Io)> {
    if m.delay > 0 && !m.stalled {
        Some((SmModel { delay: (m.delay - 1) as u8, ..m }, io))
    } else {
        match spec_instruction(SmModel { stalled: false, ..m }, cfg, instr.instruction, io, gpio_in, sm_id) {
            None => None,
            Some(e) => if e.halted {
                Some((e.m, e.io))
            } else {
                let m1 = SmModel { delay: instr.delay, ..tail_refill(e.m, cfg, instr.instruction) };
                if e.advance {
                    match next_pc(m1.pc, cfg) {
                        None => None,
                        Some(pc) => Some((SmModel { pc, ..m1 }, e.io)),
                    }
                } else {
                    Some((m1, e.io))
                }
            },
        }
    }
}

} // verus!

verus! {

pub open spec fn io3(out: u32, dir: u32, irq: u8) -> Io {
    Io { out, dir, irq }
}

/// What a clock left in the FIFOs and IRQ flags, read off the registers
/// before (`m0`, `irq0`) and after (`m1`, `irq1`).
pub open spec fn spec_event(m0: SmModel, m1: SmModel, irq0: u8, irq1: u8) -> super::StepEvent {
    super::StepEvent {
        rx_pushed: if m1.rx.len() > m0.rx.len() { Some(m1.rx.last()) } else { None },
        tx_popped: if m1.tx.len() < m0.tx.len() { Some(m0.tx[0]) } else { None },
        irq_changed: if irq1 != irq0 { Some(irq1) } else { None },
    }
}

} // verus!

verus! {

/// A whole PIO block as plain values.
#[verifier::ext_equal]
pub struct BlockModel {
    pub instr_mem: Seq<Option<Instr>>,
    pub sms: Seq<SmModel>,
    pub configs: Seq<Config>,
    pub enabled: Seq<bool>,
    pub gpio_out: u32,
    pub gpio_dir: u32,
    pub gpio_in: u32,
    pub irq: u8,
    pub cycle: u64,
}

impl BlockModel {
    pub open spec fn wf(&self) -> bool {
        &&& self.instr_mem.len() == 32
        &&& self.sms.len() == 4
        &&& self.configs.len() == 4
        &&& self.enabled.len() == 4
        &&& forall|i: int| 0 <= i < 32 ==> (#[trigger] self.instr_mem[i] matches Some(ins) ==> ins.wf())
        &&& forall|i: int| 0 <= i < 4 ==> #[trigger] self.sms[i].wf()
        &&& forall|i: int| 0 <= i < 4 ==> #[trigger] self.configs[i].wf()
    }
}

pub open spec fn no_event() -> super::StepEvent {
    super::StepEvent { rx_pushed: None, tx_popped: None, irq_changed: None }
}

/// `ev` updated with what a later state machine reported: each later report
/// replaces an earlier one.
pub open spec fn merge_event(ev: super::StepEvent, later: super::StepEvent) -> super::StepEvent {
    super::StepEvent {
        rx_pushed: if later.rx_pushed is Some { later.rx_pushed } else { ev.rx_pushed },
        tx_popped: if later.tx_popped is Some { later.tx_popped } else { ev.tx_popped },
        irq_changed: if later.irq_changed is Some { later.irq_changed } else { ev.irq_changed },
    }
}

/// State machine `i` takes its clock, if it is enabled.
pub open spec fn step_sm(b: BlockModel, i: int, ev: super::StepEvent) -> Option<(BlockModel, super::StepEvent)> {
    if !b.enabled[i] {
        Some((b, ev))
    } else {
        match b.instr_mem[b.sms[i].pc as int] {
            None => None,
            Some(instr) => match spec_execute(b.sms[i], b.configs[i], instr, io3(b.gpio_out, b.gpio_dir, b.irq), b.gpio_in, i as u8) {
                None => None,
                Some((m, io)) => Some((
                    BlockModel { sms: b.sms.update(i, m), gpio_out: io.out, gpio_dir: io.dir, irq: io.irq, ..b },
                    merge_event(ev, spec_event(b.sms[i], m, b.irq, io.irq)),
                )),
            },
        }
    }
}

/// State machines `0..k` take their clocks in order.
pub open spec fn steps(b: BlockModel, k: nat) -> Option<(BlockModel, super::StepEvent)>
    decreases k,
{
    if k == 0 {
        Some((b, no_event()))
    } else {
        match steps(b, (k - 1) as nat) {
            None => None,
            Some((b1, ev)) => step_sm(b1, k - 1, ev),
        }
    }
}

/// One clock of the block: the four state machines in order, then the cycle count.
pub open spec fn spec_step(b: BlockModel) -> Option<(BlockModel, super::StepEvent)> {
    match steps(b, 4) {
        None => None,
        Some((b1, ev)) => if b1.cycle < u64::MAX {
            Some((BlockModel { cycle: (b1.cycle + 1) as u64, ..b1 }, ev))
        } else {
            None
        },
    }
}

/// A state machine clock that failed makes every longer run fail.
pub proof fn lemma_steps_prefix(b: BlockModel, k: nat, n: nat)
    requires
        k <= n,
        steps(b, n) is Some,
    ensures
        steps(b, k) is Some,
    decreases n - k,
{
    if k < n {
        lemma_steps_prefix(b, k + 1, n);
    }
}

} // verus!

verus! {

/// The block with state machine 0's registers, the GPIO outputs and
/// directions and the IRQ flags replaced.
pub open spec fn with_sm0(b: BlockModel, m: SmModel, io: Io) -> BlockModel {
    BlockModel { sms: b.sms.update(0, m), gpio_out: io.out, gpio_dir: io.dir, irq: io.irq, ..b }
}

/// State machine 0 runs `instruction` (no delay, no side-set) at once,
/// without its program counter selecting it and without waiting out a pending
/// delay, after the words read so far.
pub open spec fn then_force(r: Option<(BlockModel, Seq<u32>)>, instruction: Instruction) -> Option<(BlockModel, Seq<u32>)> {
    match r {
        None => None,
        Some((b, v)) => match spec_execute(SmModel { delay: 0, ..b.sms[0] }, b.configs[0], Instr { instruction, delay: 0, side_set: None }, io3(b.gpio_out, b.gpio_dir, b.irq), b.gpio_in, 0) {
            None => None,
            Some((m, io)) => Some((with_sm0(b, m, io), v)),
        },
    }
}

/// The oldest word of state machine 0's RX FIFO, if any, is taken out and
/// added to the words read so far.
pub open spec fn then_pop(r: Option<(BlockModel, Seq<u32>)>) -> Option<(BlockModel, Seq<u32>)> {
    match r {
        None => None,
        Some((b, v)) => if b.sms[0].rx.len() > 0 {
            Some((BlockModel { sms: b.sms.update(0, SmModel { rx: b.sms[0].rx.drop_first(), ..b.sms[0] }), ..b }, v.push(b.sms[0].rx[0])))
        } else {
            Some((b, v))
        },
    }
}

} // verus!
