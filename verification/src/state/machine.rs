//! One clock of one state machine.
use vstd::prelude::*;
use super::model::{
    io3, spec_event, spec_execute, spec_in, spec_instruction, spec_irq, spec_jmp, spec_mov,
    spec_out, spec_pull, spec_push, spec_set, spec_wait, Effect,
};
use super::{
    calc_irq_index, lemma_bit32_is_bit_of, reverse, sat_shl, sat_shr, to_mask, wrap_shiftr,
    ShiftDir, StateMachine, StatusSel, StepEvent,
};
use crate::instr::{mov, shift, wait, Condition, Instr, Instruction};

verus! {

proof fn lemma_low_bit(v: u32)
    ensures
        (v & 1) <= 1,
        ((v & 1) == 1) == ((v & 1) != 0),
{
    assert((v & 1) <= 1) by (bit_vector);
}

impl StateMachine {
    fn exec_jmp(&mut self, condition: Condition, address: u8, gpio_out: &mut u32, gpio_dir: &mut u32, gpio_in: u32, irq_flags: &mut u8, sm_id: u8) -> (r: (bool, bool))
        requires
            old(self).wf(),
            address < 32,
        ensures
            spec_jmp(old(self).state.model(), old(self).config, condition, address, io3(*old(gpio_out), *old(gpio_dir), *old(irq_flags)), gpio_in)
                == Some(Effect { m: final(self).state.model(), io: io3(*final(gpio_out), *final(gpio_dir), *final(irq_flags)), halted: r.0, advance: r.1 }),
            final(self).config == old(self).config,
            final(self).enabled == old(self).enabled,
            final(self).wf(),
    {
        let jump = match condition {
            Condition::Always => true,
            Condition::XZero => self.state.x == 0,
            Condition::XDec => {
                let result = self.state.x != 0;
                self.state.x = self.state.x.wrapping_sub(1);
                result
            },
            Condition::YZero => self.state.y == 0,
            Condition::YDec => {
                let result = self.state.y != 0;
                self.state.y = self.state.y.wrapping_sub(1);
                result
            },
            Condition::XNeqY => self.state.x != self.state.y,
            Condition::Pin => {
                proof {
                    lemma_bit32_is_bit_of(gpio_in, self.config.jmp_pin as u32);
                }
                (gpio_in >> self.config.jmp_pin) & 1 == 1
            },
            Condition::OsrNotEmpty => self.state.osr_shift_count < self.config.calc_pull_thresh(),
        };
        if jump {
            self.state.pc = address;
            (false, false)
        } else {
            (false, true)
        }
    }

    fn exec_wait(&mut self, polarity: u8, source: wait::Source, index: u8, gpio_out: &mut u32, gpio_dir: &mut u32, gpio_in: u32, irq_flags: &mut u8, sm_id: u8) -> (r: (bool, bool))
        requires
            old(self).wf(),
            sm_id < 4,
            spec_wait(old(self).state.model(), old(self).config, polarity, source, index, io3(*old(gpio_out), *old(gpio_dir), *old(irq_flags)), gpio_in, sm_id) is Some,
            polarity < 2,
            index < 32,
        ensures
            spec_wait(old(self).state.model(), old(self).config, polarity, source, index, io3(*old(gpio_out), *old(gpio_dir), *old(irq_flags)), gpio_in, sm_id)
                == Some(Effect { m: final(self).state.model(), io: io3(*final(gpio_out), *final(gpio_dir), *final(irq_flags)), halted: r.0, advance: r.1 }),
            final(self).config == old(self).config,
            final(self).enabled == old(self).enabled,
            final(self).wf(),
    {
        let irq_index = calc_irq_index(index, sm_id);
        let level: u32 = match source {
            wait::Source::Gpio => {
                proof {
                    lemma_bit32_is_bit_of(gpio_in, index as u32);
                    lemma_low_bit(gpio_in >> index);
                }
                (gpio_in >> index) & 1
            },
            wait::Source::Pin => {
                let v = wrap_shiftr(gpio_in, self.config.in_base.get());
                proof {
                    lemma_bit32_is_bit_of(v, index as u32);
                    lemma_low_bit(v >> index);
                }
                (v >> index) & 1
            },
            wait::Source::Irq => {
                let f = *irq_flags as u32;
                proof {
                    lemma_bit32_is_bit_of(f, irq_index as u32);
                    lemma_low_bit(f >> irq_index);
                }
                (f >> irq_index) & 1
            },
            wait::Source::Reserved => vstd::pervasive::unreached(),
        };
        let cond_met = level == polarity as u32;
        if cond_met {
            if source == wait::Source::Irq && polarity == 1 {
                *irq_flags = *irq_flags & !(1u8 << irq_index);
            }
            (false, true)
        } else {
            self.state.stalled = true;
            (true, true)
        }
    }

    fn exec_in(&mut self, source: shift::Source, bit_count: u8, gpio_out: &mut u32, gpio_dir: &mut u32, gpio_in: u32, irq_flags: &mut u8, sm_id: u8) -> (r: (bool, bool))
        requires
            old(self).wf(),
            sm_id < 4,
            spec_in(old(self).state.model(), old(self).config, source, bit_count, io3(*old(gpio_out), *old(gpio_dir), *old(irq_flags)), gpio_in) is Some,
            bit_count < 32,
        ensures
            spec_in(old(self).state.model(), old(self).config, source, bit_count, io3(*old(gpio_out), *old(gpio_dir), *old(irq_flags)), gpio_in)
                == Some(Effect { m: final(self).state.model(), io: io3(*final(gpio_out), *final(gpio_dir), *final(irq_flags)), halted: r.0, advance: r.1 }),
            final(self).config == old(self).config,
            final(self).enabled == old(self).enabled,
            final(self).wf(),
    {
        let n: u8 = if bit_count == 0 { 32 } else { bit_count };
        let v: u32 = match source {
            shift::Source::Pins => wrap_shiftr(gpio_in, self.config.in_base.get()),
            shift::Source::X => self.state.x,
            shift::Source::Y => self.state.y,
            shift::Source::Null => 0,
            shift::Source::Isr => self.state.isr,
            shift::Source::Osr => self.state.osr,
            _ => vstd::pervasive::unreached(),
        };
        let data = v & to_mask(n);
        match self.config.in_shiftdir {
            ShiftDir::Left => {
                self.state.isr = sat_shl(self.state.isr, n) | data;
            },
            ShiftDir::Right => {
                self.state.isr = sat_shr(self.state.isr, n) | wrap_shiftr(data, n);
            },
        }
        let count = self.state.isr_shift_count + n;
        self.state.isr_shift_count = if count < 63 { count } else { 63 };
        if self.config.autopush && self.state.isr_shift_count >= self.config.calc_push_thresh() {
            if self.state.rx_fifo.is_full() {
                self.state.stalled = true;
                return (true, true);
            }
            self.state.rx_fifo.push(self.state.isr);
            self.state.isr = 0;
            self.state.isr_shift_count = 0;
        }
        (false, true)
    }

    fn exec_out(&mut self, destn: shift::Destn, bit_count: u8, gpio_out: &mut u32, gpio_dir: &mut u32, gpio_in: u32, irq_flags: &mut u8, sm_id: u8) -> (r: (bool, bool))
        requires
            old(self).wf(),
            sm_id < 4,
            spec_out(old(self).state.model(), old(self).config, destn, bit_count, io3(*old(gpio_out), *old(gpio_dir), *old(irq_flags))) is Some,
            bit_count < 32,
        ensures
            spec_out(old(self).state.model(), old(self).config, destn, bit_count, io3(*old(gpio_out), *old(gpio_dir), *old(irq_flags)))
                == Some(Effect { m: final(self).state.model(), io: io3(*final(gpio_out), *final(gpio_dir), *final(irq_flags)), halted: r.0, advance: r.1 }),
            final(self).config == old(self).config,
            final(self).enabled == old(self).enabled,
            final(self).wf(),
    {
        let n: u8 = if bit_count == 0 { 32 } else { bit_count };
        if self.config.autopull && self.state.osr_shift_count >= self.config.calc_pull_thresh() {
            if self.state.tx_fifo.is_empty() {
                self.state.stalled = true;
                return (true, true);
            }
            self.state.osr = match self.state.tx_fifo.pop() {
                Some(w) => w,
                None => vstd::pervasive::unreached(),
            };
            self.state.osr_shift_count = 0;
        }
        let data = match self.config.out_shiftdir {
            ShiftDir::Left => {
                let ans = sat_shr(self.state.osr, 32 - n) & to_mask(n);
                self.state.osr = sat_shl(self.state.osr, n);
                ans
            },
            ShiftDir::Right => {
                let ans = self.state.osr & to_mask(n);
                self.state.osr = sat_shr(self.state.osr, n);
                ans
            },
        };
        let mut advance = true;
        match destn {
            shift::Destn::Pins => {
                let (out_count, out_base) = (self.config.out_count.get(), self.config.out_base.get());
                let mask = to_mask(out_count) << out_base;
                *gpio_out = (*gpio_out & !mask) | ((data << out_base) & mask);
            },
            shift::Destn::X => {
                self.state.x = data;
            },
            shift::Destn::Y => {
                self.state.y = data;
            },
            shift::Destn::Null => {},
            shift::Destn::PinDirs => {
                let (out_count, out_base) = (self.config.out_count.get(), self.config.out_base.get());
                let mask = to_mask(out_count) << out_base;
                *gpio_dir = (*gpio_dir & !mask) | ((data << out_base) & mask);
            },
            shift::Destn::Pc => {
                self.state.pc = data as u8;
                advance = false;
            },
            shift::Destn::Isr => {
                self.state.isr = data;
                self.state.isr_shift_count = n;
            },
            shift::Destn::Exec => vstd::pervasive::unreached(),
        }
        let count = self.state.osr_shift_count + n;
        self.state.osr_shift_count = if count < 63 { count } else { 63 };
        if self.config.autopull && self.state.osr_shift_count >= self.config.calc_pull_thresh() {
            if !self.state.tx_fifo.is_empty() {
                self.state.osr = match self.state.tx_fifo.pop() {
                    Some(w) => w,
                    None => vstd::pervasive::unreached(),
                };
                self.state.osr_shift_count = 0;
            }
        }
        (false, advance)
    }

    fn exec_push(&mut self, if_full: u8, block: u8, gpio_out: &mut u32, gpio_dir: &mut u32, gpio_in: u32, irq_flags: &mut u8, sm_id: u8) -> (r: (bool, bool))
        requires
            old(self).wf(),
            sm_id < 4,
            spec_push(old(self).state.model(), old(self).config, if_full, block, io3(*old(gpio_out), *old(gpio_dir), *old(irq_flags))) is Some,
        ensures
            spec_push(old(self).state.model(), old(self).config, if_full, block, io3(*old(gpio_out), *old(gpio_dir), *old(irq_flags)))
                == Some(Effect { m: final(self).state.model(), io: io3(*final(gpio_out), *final(gpio_dir), *final(irq_flags)), halted: r.0, advance: r.1 }),
            final(self).config == old(self).config,
            final(self).enabled == old(self).enabled,
            final(self).wf(),
    {
        let (if_full, block) = (if_full == 1, block == 1);
        let should_push = !if_full || (self.state.isr_shift_count >= self.config.calc_push_thresh());
        if should_push {
            if self.state.rx_fifo.is_full() {
                if block {
                    self.state.stalled = true;
                    return (true, true);
                }
            } else {
                self.state.rx_fifo.push(self.state.isr);
            }
            self.state.isr = 0;
            self.state.isr_shift_count = 0;
        }
        (false, true)
    }

    fn exec_pull(&mut self, if_empty: u8, block: u8, gpio_out: &mut u32, gpio_dir: &mut u32, gpio_in: u32, irq_flags: &mut u8, sm_id: u8) -> (r: (bool, bool))
        requires
            old(self).wf(),
            sm_id < 4,
            spec_pull(old(self).state.model(), old(self).config, if_empty, block, io3(*old(gpio_out), *old(gpio_dir), *old(irq_flags))) is Some,
        ensures
            spec_pull(old(self).state.model(), old(self).config, if_empty, block, io3(*old(gpio_out), *old(gpio_dir), *old(irq_flags)))
                == Some(Effect { m: final(self).state.model(), io: io3(*final(gpio_out), *final(gpio_dir), *final(irq_flags)), halted: r.0, advance: r.1 }),
            final(self).config == old(self).config,
            final(self).enabled == old(self).enabled,
            final(self).wf(),
    {
        let (if_empty, block) = (if_empty == 1, block == 1);
        let should_pull = !if_empty || (self.state.osr_shift_count >= self.config.calc_pull_thresh());
        if should_pull {
            if self.state.tx_fifo.is_empty() {
                if block {
                    self.state.stalled = true;
                    return (true, true);
                } else {
                    self.state.osr = self.state.x;
                }
            } else {
                self.state.osr = match self.state.tx_fifo.pop() {
                    Some(w) => w,
                    None => vstd::pervasive::unreached(),
                };
            }
            self.state.osr_shift_count = 0;
        }
        (false, true)
    }

    fn exec_mov(&mut self, destn: mov::Destn, op: mov::Op, source: mov::Source, gpio_out: &mut u32, gpio_dir: &mut u32, gpio_in: u32, irq_flags: &mut u8, sm_id: u8) -> (r: (bool, bool))
        requires
            old(self).wf(),
            sm_id < 4,
            spec_mov(old(self).state.model(), old(self).config, destn, op, source, io3(*old(gpio_out), *old(gpio_dir), *old(irq_flags)), gpio_in) is Some,
        ensures
            spec_mov(old(self).state.model(), old(self).config, destn, op, source, io3(*old(gpio_out), *old(gpio_dir), *old(irq_flags)), gpio_in)
                == Some(Effect { m: final(self).state.model(), io: io3(*final(gpio_out), *final(gpio_dir), *final(irq_flags)), halted: r.0, advance: r.1 }),
            final(self).config == old(self).config,
            final(self).enabled == old(self).enabled,
            final(self).wf(),
    {
        let data = match source {
            mov::Source::Pins => wrap_shiftr(gpio_in, self.config.in_base.get()),
            mov::Source::X => self.state.x,
            mov::Source::Y => self.state.y,
            mov::Source::Null => 0,
            mov::Source::Status => {
                let level = match self.config.status_sel {
                    StatusSel::TxLevel => self.state.tx_fifo.len(),
                    StatusSel::RxLevel => self.state.rx_fifo.len(),
                };
                if level < self.config.status_n.get() as usize {
                    0xffff_ffff
                } else {
                    0x0
                }
            },
            mov::Source::Isr => self.state.isr,
            mov::Source::Osr => self.state.osr,
            mov::Source::Reserved => vstd::pervasive::unreached(),
        };
        let data = match op {
            mov::Op::Identity => data,
            mov::Op::Invert => !data,
            mov::Op::BitReverse => reverse(data),
            mov::Op::Reserved => vstd::pervasive::unreached(),
        };
        match destn {
            mov::Destn::Pins => {
                let (out_count, out_base) = (self.config.out_count.get(), self.config.out_base.get());
                let mask = to_mask(out_count) << out_base;
                *gpio_out = (*gpio_out & !mask) | ((data << out_base) & mask);
            },
            mov::Destn::X => {
                self.state.x = data;
            },
            mov::Destn::Y => {
                self.state.y = data;
            },
            mov::Destn::Pc => {
                self.state.pc = data as u8;
            },
            mov::Destn::Isr => {
                self.state.isr = data;
                self.state.isr_shift_count = 0;
            },
            mov::Destn::Osr => {
                self.state.osr = data;
                self.state.osr_shift_count = 0;
            },
            _ => vstd::pervasive::unreached(),
        }
        (false, true)
    }

    fn exec_irq(&mut self, clear: u8, wait: u8, index: u8, gpio_out: &mut u32, gpio_dir: &mut u32, gpio_in: u32, irq_flags: &mut u8, sm_id: u8) -> (r: (bool, bool))
        requires
            old(self).wf(),
            sm_id < 4,
            spec_irq(old(self).state.model(), clear, wait, index, io3(*old(gpio_out), *old(gpio_dir), *old(irq_flags)), sm_id) is Some,
            index < 32,
        ensures
            spec_irq(old(self).state.model(), clear, wait, index, io3(*old(gpio_out), *old(gpio_dir), *old(irq_flags)), sm_id)
                == Some(Effect { m: final(self).state.model(), io: io3(*final(gpio_out), *final(gpio_dir), *final(irq_flags)), halted: r.0, advance: r.1 }),
            final(self).config == old(self).config,
            final(self).enabled == old(self).enabled,
            final(self).wf(),
    {
        let (clear, wait) = (clear == 1, wait == 1);
        let irq_index = calc_irq_index(index, sm_id);
        if self.state.irq_stalled {
            if super::bit_at(*irq_flags, irq_index) {
                self.state.stalled = true;
                return (true, true);
            } else {
                self.state.irq_stalled = false;
            }
        } else {
            if clear {
                *irq_flags = *irq_flags & !(1u8 << irq_index);
            } else {
                *irq_flags = *irq_flags | (1u8 << irq_index);
                if wait {
                    self.state.irq_stalled = true;
                    self.state.stalled = true;
                    return (true, true);
                }
            }
        }
        (false, true)
    }

    fn exec_set(&mut self, destn: crate::instr::set::Destn, data: u8, gpio_out: &mut u32, gpio_dir: &mut u32, gpio_in: u32, irq_flags: &mut u8, sm_id: u8) -> (r: (bool, bool))
        requires
            old(self).wf(),
            sm_id < 4,
            spec_set(old(self).state.model(), old(self).config, destn, data, io3(*old(gpio_out), *old(gpio_dir), *old(irq_flags))) is Some,
            data < 32,
        ensures
            spec_set(old(self).state.model(), old(self).config, destn, data, io3(*old(gpio_out), *old(gpio_dir), *old(irq_flags)))
                == Some(Effect { m: final(self).state.model(), io: io3(*final(gpio_out), *final(gpio_dir), *final(irq_flags)), halted: r.0, advance: r.1 }),
            final(self).config == old(self).config,
            final(self).enabled == old(self).enabled,
            final(self).wf(),
    {
        match destn {
            crate::instr::set::Destn::Pins => {
                let (base, cnt) = (self.config.set_base.get(), self.config.set_count.get());
                let data = data as u32;
                let mask = to_mask(cnt) << base;
                *gpio_out = (*gpio_out & !mask) | ((data << base) & mask);
            },
            crate::instr::set::Destn::X => {
                self.state.x = data as u32;
            },
            crate::instr::set::Destn::Y => {
                self.state.y = data as u32;
            },
            crate::instr::set::Destn::PinDirs => {
                let (base, cnt) = (self.config.set_base.get(), self.config.set_count.get());
                let data = data as u32;
                let mask = to_mask(cnt) << base;
                *gpio_dir = (*gpio_dir & !mask) | ((data << base) & mask);
            },
            _ => vstd::pervasive::unreached(),
        }
        (false, true)
    }

    fn run_instruction(&mut self, instruction: Instruction, gpio_out: &mut u32, gpio_dir: &mut u32, gpio_in: u32, irq_flags: &mut u8, sm_id: u8) -> (r: (bool, bool))
        requires
            old(self).wf(),
            instruction.wf(),
            sm_id < 4,
            spec_instruction(old(self).state.model(), old(self).config, instruction, io3(*old(gpio_out), *old(gpio_dir), *old(irq_flags)), gpio_in, sm_id) is Some,
        ensures
            spec_instruction(old(self).state.model(), old(self).config, instruction, io3(*old(gpio_out), *old(gpio_dir), *old(irq_flags)), gpio_in, sm_id)
                == Some(Effect { m: final(self).state.model(), io: io3(*final(gpio_out), *final(gpio_dir), *final(irq_flags)), halted: r.0, advance: r.1 }),
            final(self).config == old(self).config,
            final(self).enabled == old(self).enabled,
            final(self).wf(),
    {
        match instruction {
            Instruction::Jmp { condition, address } => self.exec_jmp(condition, address, gpio_out, gpio_dir, gpio_in, irq_flags, sm_id),
            Instruction::Wait { polarity, source, index } => self.exec_wait(polarity, source, index, gpio_out, gpio_dir, gpio_in, irq_flags, sm_id),
            Instruction::In { source, bit_count } => self.exec_in(source, bit_count, gpio_out, gpio_dir, gpio_in, irq_flags, sm_id),
            Instruction::Out { destn, bit_count } => self.exec_out(destn, bit_count, gpio_out, gpio_dir, gpio_in, irq_flags, sm_id),
            Instruction::Push { if_full, block } => self.exec_push(if_full, block, gpio_out, gpio_dir, gpio_in, irq_flags, sm_id),
            Instruction::Pull { if_empty, block } => self.exec_pull(if_empty, block, gpio_out, gpio_dir, gpio_in, irq_flags, sm_id),
            Instruction::Mov { destn, op, source } => self.exec_mov(destn, op, source, gpio_out, gpio_dir, gpio_in, irq_flags, sm_id),
            Instruction::Irq { clear, wait, index } => self.exec_irq(clear, wait, index, gpio_out, gpio_dir, gpio_in, irq_flags, sm_id),
            Instruction::SetImmediate { destn, data } => self.exec_set(destn, data, gpio_out, gpio_dir, gpio_in, irq_flags, sm_id),
        }
    }

    /// Runs one clock of this state machine with `instr` at its program counter.
    pub(crate) fn execute_inner(&mut self, instr: &Instr, gpio_out: &mut u32, gpio_dir: &mut u32, gpio_in: u32, irq_flags: &mut u8, sm_id: u8)
        requires
            old(self).wf(),
            instr.wf(),
            sm_id < 4,
            spec_execute(old(self).state.model(), old(self).config, *instr, io3(*old(gpio_out), *old(gpio_dir), *old(irq_flags)), gpio_in, sm_id) is Some,
        ensures
            spec_execute(old(self).state.model(), old(self).config, *instr, io3(*old(gpio_out), *old(gpio_dir), *old(irq_flags)), gpio_in, sm_id)
                == Some((final(self).state.model(), io3(*final(gpio_out), *final(gpio_dir), *final(irq_flags)))),
            final(self).config == old(self).config,
            final(self).enabled == old(self).enabled,
            final(self).wf(),
    {
        if self.state.delay_counter > 0 && !self.state.stalled {
            self.state.delay_counter = self.state.delay_counter - 1;
            return;
        }
        self.state.stalled = false;
        let (halted, advance_pc) = self.run_instruction(instr.instruction, gpio_out, gpio_dir, gpio_in, irq_flags, sm_id);
        if halted {
            return;
        }
        if !matches!(instr.instruction, Instruction::Out { .. }) {
            if matches!(instr.instruction, Instruction::Mov { .. } | Instruction::Pull { .. }) {
                self.state.osr_shift_count = 0;
            }
            if self.config.autopull && self.state.osr_shift_count >= self.config.calc_pull_thresh() {
                if !self.state.tx_fifo.is_empty() {
                    self.state.osr = match self.state.tx_fifo.pop() {
                        Some(w) => w,
                        None => vstd::pervasive::unreached(),
                    };
                    self.state.osr_shift_count = 0;
                }
            }
        }
        self.state.delay_counter = instr.delay;
        if advance_pc {
            if self.state.pc == self.config.wrap_top {
                self.state.pc = self.config.wrap_bottom;
            } else {
                self.state.pc = self.state.pc + 1;
            }
        }
    }

    /// Runs one clock of this state machine and reports the word it pushed to
    /// the RX FIFO, the word it took from the TX FIFO and the IRQ flags if they changed.
    pub(crate) fn execute(&mut self, instr: &Instr, gpio_out: &mut u32, gpio_dir: &mut u32, gpio_in: u32, irq_flags: &mut u8, sm_id: u8) -> (ev: StepEvent)
        requires
            old(self).wf(),
            instr.wf(),
            sm_id < 4,
            spec_execute(old(self).state.model(), old(self).config, *instr, io3(*old(gpio_out), *old(gpio_dir), *old(irq_flags)), gpio_in, sm_id) is Some,
        ensures
            spec_execute(old(self).state.model(), old(self).config, *instr, io3(*old(gpio_out), *old(gpio_dir), *old(irq_flags)), gpio_in, sm_id)
                == Some((final(self).state.model(), io3(*final(gpio_out), *final(gpio_dir), *final(irq_flags)))),
            ev == spec_event(old(self).state.model(), final(self).state.model(), *old(irq_flags), *final(irq_flags)),
            final(self).config == old(self).config,
            final(self).enabled == old(self).enabled,
            final(self).wf(),
    {
        let irq_before = *irq_flags;
        let rx_before_len = self.state.rx_fifo.len();
        let tx_before_len = self.state.tx_fifo.len();
        let tx_front_before = self.state.tx_fifo.peek_front();

        self.execute_inner(instr, gpio_out, gpio_dir, gpio_in, irq_flags, sm_id);

        let irq_changed = if *irq_flags != irq_before { Some(*irq_flags) } else { None };
        let rx_pushed = if self.state.rx_fifo.len() > rx_before_len { self.state.rx_fifo.peek_back() } else { None };
        let tx_popped = if self.state.tx_fifo.len() < tx_before_len { tx_front_before } else { None };
        StepEvent { rx_pushed, tx_popped, irq_changed }
    }
}

} // verus!
