//! The block-level operations: reset, the clock, and SM0's setup and readout.
use vstd::prelude::*;
use super::model::{lemma_steps_prefix, merge_event, no_event, spec_step, step_sm, steps, then_force, then_pop, with_sm0, io3, spec_execute, BlockModel, SmModel};
use super::{lemma_low_five, decode_to_instr, delay_field, pio_decoded, spec_instr_from_pio, Block, Config, Fifo, PinRange, Range, ShiftDir, Sm0Setup, State, StateMachine, StatusSel, StepEvent, FIFO_DEPTH};
use crate::instr::Instruction;
use super::laws::{lemma_readout_registers, pc_walk};
use crate::instr::Instr;

verus! {

impl StateMachine {
    pub(crate) fn reset() -> (r: Self)
        ensures
            r.state.model() == State::spec_new(),
            r.config == Config::spec_new(),
            !r.enabled,
            r.wf(),
    {
        StateMachine { state: State::new(), config: Config::new(), enabled: false }
    }
}

impl Block {
    /// A block after reset: empty instruction memory, all state machines
    /// disabled and reset, GPIO registers, IRQ flags and cycle count zero.
    pub open spec fn spec_new() -> BlockModel {
        BlockModel {
            instr_mem: Seq::new(32, |i: int| None),
            sms: Seq::new(4, |i: int| State::spec_new()),
            configs: Seq::new(4, |i: int| Config::spec_new()),
            enabled: Seq::new(4, |i: int| false),
            gpio_out: 0,
            gpio_dir: 0,
            gpio_in: 0,
            irq: 0,
            cycle: 0,
        }
    }

    /// A block after reset.
    pub fn new() -> (r: Self)
        ensures
            r.model() == Block::spec_new(),
            r.wf(),
    {
        let r = Self {
            instr_mem: [None; 32],
            sms: [StateMachine::reset(), StateMachine::reset(), StateMachine::reset(), StateMachine::reset()],
            gpio_out: 0,
            gpio_dir: 0,
            gpio_in: 0,
            irq_flags: 0,
            cycle: 0,
        };
        proof {
            assert(r.model().instr_mem =~= Block::spec_new().instr_mem);
            assert(r.model().sms =~= Block::spec_new().sms);
            assert(r.model().configs =~= Block::spec_new().configs);
            assert(r.model().enabled =~= Block::spec_new().enabled);
        }
        r
    }

    /// One clock of the block: each enabled state machine, in order, runs one
    /// clock of the instruction at its program counter (they see the GPIO
    /// outputs and IRQ flags that earlier ones left); then the cycle count
    /// goes up. The event holds the latest report of each kind.
    pub fn step(&mut self) -> (event: StepEvent)
        requires
            old(self).wf(),
            spec_step(old(self).model()) is Some,
        ensures
            spec_step(old(self).model()) == Some((final(self).model(), event)),
            final(self).wf(),
    {
        let ghost b0 = self.model();
        let mut event = StepEvent { rx_pushed: None, tx_popped: None, irq_changed: None };
        let mut i: usize = 0;
        proof {
            lemma_steps_prefix(b0, 0, 4);
        }
        while i < 4
            invariant
                i <= 4,
                self.wf(),
                steps(b0, 4) is Some,
                steps(b0, i as nat) == Some((self.model(), event)),
            decreases 4 - i,
        {
            proof {
                lemma_steps_prefix(b0, (i + 1) as nat, 4);
            }
            let ghost before = self.model();
            if self.sms[i].enabled {
                assert(self.model().sms[i as int].wf());
                let pc = self.sms[i].state.pc as usize;
                let instr: Instr = match self.instr_mem[pc] {
                    Some(instr) => instr,
                    None => vstd::pervasive::unreached(),
                };
                let ev = self.sms[i].execute(&instr, &mut self.gpio_out, &mut self.gpio_dir, self.gpio_in, &mut self.irq_flags, i as u8);
                if ev.rx_pushed.is_some() {
                    event.rx_pushed = ev.rx_pushed;
                }
                if ev.tx_popped.is_some() {
                    event.tx_popped = ev.tx_popped;
                }
                if ev.irq_changed.is_some() {
                    event.irq_changed = ev.irq_changed;
                }
                proof {
                    let r = step_sm(before, i as int, event).unwrap();
                    assert(self.model().sms =~= step_sm(before, i as int, event).unwrap().0.sms) by {
                        assert(self.model().sms =~= before.sms.update(i as int, self.sms@[i as int].state.model()));
                    }
                    assert(self.model().configs =~= before.configs);
                    assert(self.model().enabled =~= before.enabled);
                }
            } else {
                proof {
                    assert(self.model() == before);
                }
            }
            i = i + 1;
        }
        self.cycle = self.cycle + 1;
        event
    }

    /// The IRQ flags.
    pub fn irq_flags(&self) -> (r: u8)
        ensures
            r == self.irq_flags,
    {
        self.irq_flags
    }
}


impl Block {
    /// The TX and RX FIFO depths that SM0's join settings give: a join hands
    /// one FIFO's four entries to the other.
    pub open spec fn spec_depths(prog: &Sm0Setup) -> (usize, usize) {
        if prog.fjoin_tx && !prog.fjoin_rx {
            ((FIFO_DEPTH * 2) as usize, 0)
        } else if !prog.fjoin_tx && prog.fjoin_rx {
            (0, (FIFO_DEPTH * 2) as usize)
        } else {
            (FIFO_DEPTH, FIFO_DEPTH)
        }
    }

    /// SM0's configuration registers for a setup: pin bases and the JMP pin,
    /// wrap addresses and thresholds keep their low five bits, OUT count is at
    /// most 32, SET count at most 5; side-set is off.
    pub open spec fn spec_sm0_config(prog: &Sm0Setup) -> Config {
        Config {
            out_base: Range(prog.out_base & 0x1f),
            out_count: Range(if prog.out_count < 32 { prog.out_count } else { 32 }),
            set_base: Range(prog.set_base & 0x1f),
            set_count: Range(if prog.set_count < 5 { prog.set_count } else { 5 }),
            in_base: Range(prog.in_base & 0x1f),
            sideset_base: Range(0),
            sideset_count: Range(0),
            sideset_en: false,
            side_pindir: false,
            jmp_pin: prog.jmp_pin & 0x1f,
            wrap_top: prog.wrap_top & 0x1f,
            wrap_bottom: prog.wrap_bottom & 0x1f,
            status_sel: StatusSel::TxLevel,
            status_n: Range(0),
            pull_thresh: Range(prog.pull_thresh & 0x1f),
            push_thresh: Range(prog.push_thresh & 0x1f),
            out_shiftdir: if prog.out_shiftdir_right { ShiftDir::Right } else { ShiftDir::Left },
            in_shiftdir: if prog.in_shiftdir_right { ShiftDir::Right } else { ShiftDir::Left },
            autopull: prog.autopull,
            autopush: prog.autopush,
            fjoin_rx: prog.fjoin_rx,
            fjoin_tx: prog.fjoin_tx,
        }
    }

    /// SM0's registers for a setup: the program counter at the origin (low
    /// five bits), the OSR empty, and, unless the RX join took the TX FIFO,
    /// X and Y preloaded and the TX FIFO seeded with as many words as it holds.
    pub open spec fn spec_sm0_state(prog: &Sm0Setup) -> SmModel {
        let (txd, rxd) = Block::spec_depths(prog);
        let seeded = if prog.tx_seed@.len() < txd { prog.tx_seed@.len() } else { txd as nat };
        SmModel {
            pc: prog.origin & 0x1f,
            x: if prog.fjoin_rx { 0 } else { prog.x_init },
            y: if prog.fjoin_rx { 0 } else { prog.y_init },
            isr: 0,
            osr: 0,
            isr_count: 0,
            osr_count: 32,
            tx: if prog.fjoin_rx { Seq::empty() } else { prog.tx_seed@.take(seeded as int) },
            tx_depth: txd as nat,
            rx: Seq::empty(),
            rx_depth: rxd as nat,
            delay: 0,
            stalled: false,
            irq_stalled: false,
        }
    }

    /// Instruction slot `a` after loading a setup: the word at `a - origin`,
    /// decoded, where there is one; otherwise empty.
    pub open spec fn spec_loaded(prog: &Sm0Setup, a: int) -> Option<Instr> {
        if prog.origin <= a < prog.origin + prog.instructions@.len() {
            let w = prog.instructions@[a - prog.origin];
            spec_instr_from_pio(pio_decoded(w), delay_field(w))
        } else {
            None
        }
    }

    /// The block after `configure_sm0(prog)`: everything reset, the program
    /// loaded, SM0 alone enabled and set up.
    pub open spec fn spec_configure_sm0(prog: &Sm0Setup) -> BlockModel {
        BlockModel {
            instr_mem: Seq::new(32, |a: int| Block::spec_loaded(prog, a)),
            sms: Seq::new(4, |i: int| if i == 0 { Block::spec_sm0_state(prog) } else { State::spec_new() }),
            configs: Seq::new(4, |i: int| if i == 0 { Block::spec_sm0_config(prog) } else { Config::spec_new() }),
            enabled: Seq::new(4, |i: int| i == 0),
            gpio_out: 0,
            gpio_dir: 0,
            gpio_in: 0,
            irq: 0,
            cycle: 0,
        }
    }

    /// The instruction memory for a setup: each word decoded into the slot
    /// `origin` places after the first; words past slot 31 are dropped.
    fn load_program(prog: &Sm0Setup) -> (mem: [Option<Instr>; 32])
        ensures
            forall|a: int| 0 <= a < 32 ==> #[trigger] mem@[a] == Block::spec_loaded(prog, a),
            forall|a: int| 0 <= a < 32 ==> (#[trigger] mem@[a] matches Some(ins) ==> ins.wf()),
    {
        let mut mem: [Option<Instr>; 32] = [None; 32];
        let n = prog.instructions.len();
        let origin = prog.origin as usize;
        let mut i: usize = 0;
        while i < n
            invariant
                i <= n,
                n == prog.instructions@.len(),
                origin == prog.origin,
                forall|a: int| 0 <= a < 32 ==> #[trigger] mem@[a] == (if origin <= a < origin + i { Block::spec_loaded(prog, a) } else { None::<Instr> }),
                forall|a: int| 0 <= a < 32 ==> (#[trigger] mem@[a] matches Some(ins) ==> ins.wf()),
            decreases n - i,
        {
            let word = prog.instructions[i];
            if i < 32 && origin + i < 32 {
                let addr = origin + i;
                mem[addr] = decode_to_instr(word);
            }
            i = i + 1;
        }
        mem
    }

    /// Pushes the seed words into an empty FIFO until it is full.
    fn seed_fifo(fifo: &mut Fifo, seed: &Vec<u32>)
        requires
            old(fifo).items() == Seq::<u32>::empty(),
        ensures
            final(fifo).capacity() == old(fifo).capacity(),
            final(fifo).items() == seed@.take(if seed@.len() < old(fifo).capacity() { seed@.len() as int } else { old(fifo).capacity() as int }),
    {
        let m = seed.len();
        let ghost cap = fifo.capacity();
        let mut j: usize = 0;
        proof {
            assert(seed@.take(0) =~= Seq::<u32>::empty());
        }
        while j < m
            invariant
                j <= m,
                m == seed@.len(),
                fifo.capacity() == cap,
                fifo.items() == seed@.take(if j < cap { j as int } else { cap as int }),
            decreases m - j,
        {
            let word = seed[j];
            fifo.push(word);
            proof {
                if j < cap {
                    assert(fifo.items() =~= seed@.take(j + 1));
                }
            }
            j = j + 1;
        }
    }

    /// SM0 set up from `prog`, starting from a reset state machine.
    fn sm0_from(prog: &Sm0Setup) -> (sm: StateMachine)
        ensures
            sm.state.model() == Block::spec_sm0_state(prog),
            sm.config == Block::spec_sm0_config(prog),
            sm.enabled,
            sm.wf(),
    {
        let mut sm = StateMachine::reset();
        sm.enabled = true;
        proof {
            lemma_low_five(prog.origin);
            lemma_low_five(prog.out_base);
            lemma_low_five(prog.set_base);
            lemma_low_five(prog.in_base);
            lemma_low_five(prog.jmp_pin);
            lemma_low_five(prog.wrap_top);
            lemma_low_five(prog.wrap_bottom);
            lemma_low_five(prog.pull_thresh);
            lemma_low_five(prog.push_thresh);
        }
        sm.state.pc = prog.origin & 0x1f;
        sm.config.out_base = PinRange::new(prog.out_base & 0x1f);
        sm.config.out_count = Range::new(if prog.out_count < 32 { prog.out_count } else { 32 });
        sm.config.set_base = PinRange::new(prog.set_base & 0x1f);
        sm.config.set_count = Range::new(if prog.set_count < 5 { prog.set_count } else { 5 });
        sm.config.in_base = PinRange::new(prog.in_base & 0x1f);
        sm.config.sideset_base = PinRange::new(0);
        sm.config.sideset_count = Range::new(0);
        sm.config.sideset_en = false;
        sm.config.side_pindir = false;
        sm.config.jmp_pin = prog.jmp_pin & 0x1f;
        sm.config.wrap_top = prog.wrap_top & 0x1f;
        sm.config.wrap_bottom = prog.wrap_bottom & 0x1f;
        sm.config.pull_thresh = Range::new(prog.pull_thresh & 0x1f);
        sm.config.push_thresh = Range::new(prog.push_thresh & 0x1f);
        sm.config.out_shiftdir = if prog.out_shiftdir_right { ShiftDir::Right } else { ShiftDir::Left };
        sm.config.in_shiftdir = if prog.in_shiftdir_right { ShiftDir::Right } else { ShiftDir::Left };
        sm.config.autopull = prog.autopull;
        sm.config.autopush = prog.autopush;
        sm.config.fjoin_tx = prog.fjoin_tx;
        sm.config.fjoin_rx = prog.fjoin_rx;

        let (tx_depth, rx_depth) = match (prog.fjoin_tx, prog.fjoin_rx) {
            (true, false) => (FIFO_DEPTH * 2, 0),
            (false, true) => (0, FIFO_DEPTH * 2),
            _ => (FIFO_DEPTH, FIFO_DEPTH),
        };
        sm.state.tx_fifo = Fifo::new(tx_depth);
        sm.state.rx_fifo = Fifo::new(rx_depth);

        if !prog.fjoin_rx {
            sm.state.x = prog.x_init;
            sm.state.y = prog.y_init;
            Block::seed_fifo(&mut sm.state.tx_fifo, &prog.tx_seed);
        }
        sm
    }

    /// Resets the block and sets SM0 up from `prog`, as the hardware reference
    /// does: the program is decoded and loaded from `origin` (words past slot
    /// 31 are dropped, words that do not decode leave their slot empty).
    pub fn configure_sm0(&mut self, prog: &Sm0Setup)
        ensures
            final(self).model() == Block::spec_configure_sm0(prog),
            final(self).wf(),
    {
        self.instr_mem = Block::load_program(prog);
        self.gpio_out = 0;
        self.gpio_dir = 0;
        self.gpio_in = 0;
        self.irq_flags = 0;
        self.cycle = 0;
        let ghost mem = self.instr_mem@;
        let mut k: usize = 0;
        while k < 4
            invariant
                k <= 4,
                forall|j: int| 0 <= j < k ==> (#[trigger] self.sms@[j]).state.model() == State::spec_new()
                    && self.sms@[j].config == Config::spec_new() && !self.sms@[j].enabled,
                self.instr_mem@ == mem,
                self.gpio_out == 0,
                self.gpio_dir == 0,
                self.gpio_in == 0,
                self.irq_flags == 0,
                self.cycle == 0,
            decreases 4 - k,
        {
            self.sms[k].enabled = false;
            self.sms[k].state = State::new();
            self.sms[k].config = Config::new();
            k = k + 1;
        }
        self.sms[0] = Block::sm0_from(prog);
        proof {
            let spec = Block::spec_configure_sm0(prog);
            assert(self.model().instr_mem =~= spec.instr_mem);
            assert(self.model().sms =~= spec.sms);
            assert(self.model().configs =~= spec.configs);
            assert(self.model().enabled =~= spec.enabled);
        }
    }

    /// SM0's FIFO levels packed as in the FLEVEL register: TX level in bits
    /// 0 to 3, RX level in bits 4 to 7.
    pub fn fifo_levels_sm0(&self) -> (r: u32)
        ensures
            r == self.model().sms[0].tx.len() % 16 + (self.model().sms[0].rx.len() % 16) * 16,
    {
        let tl = self.sms[0].state.tx_fifo.len();
        let rl = self.sms[0].state.rx_fifo.len();
        let tx0 = tl as u32;
        let rx0 = rl as u32;
        proof {
            assert((tx0 & 0xf) | ((rx0 & 0xf) << 4) == (tl % 16) + (rl % 16) * 16) by (bit_vector)
                requires
                    tx0 == tl as u32,
                    rx0 == rl as u32;
        }
        (tx0 & 0xf) | ((rx0 & 0xf) << 4)
    }
}


impl Block {
    /// Runs `instruction` (no delay, no side-set) on SM0 at once, without
    /// taking it from instruction memory and without waiting out a pending delay.
    fn force_sm0(&mut self, instruction: Instruction)
        requires
            old(self).wf(),
            instruction.wf(),
            then_force(Some((old(self).model(), Seq::empty())), instruction) is Some,
        ensures
            forall|v: Seq<u32>| #[trigger] then_force(Some((old(self).model(), v)), instruction) == Some((final(self).model(), v)),
            final(self).wf(),
    {
        let instr = Instr { instruction, delay: 0, side_set: None };
        let ghost before = self.model();
        proof {
            assert(before.sms[0].wf());
        }
        self.sms[0].state.delay_counter = 0;
        proof {
            assert(self.sms@[0].state.model() == SmModel { delay: 0, ..before.sms[0] });
        }
        let _ = self.sms[0].execute(&instr, &mut self.gpio_out, &mut self.gpio_dir, self.gpio_in, &mut self.irq_flags, 0);
        proof {
            let (m, io) = spec_execute(SmModel { delay: 0, ..before.sms[0] }, before.configs[0], instr, io3(before.gpio_out, before.gpio_dir, before.irq), before.gpio_in, 0).unwrap();
            assert(self.model().sms =~= with_sm0(before, m, io).sms);
            assert(self.model().configs =~= before.configs);
            assert(self.model().enabled =~= before.enabled);
        }
    }

    /// Takes the oldest word of SM0's RX FIFO, if any, onto `v`.
    fn pop_rx0_into(&mut self, v: &mut Vec<u32>)
        requires
            old(self).wf(),
        ensures
            then_pop(Some((old(self).model(), old(v)@))) == Some((final(self).model(), final(v)@)),
            final(self).wf(),
    {
        let ghost before = self.model();
        proof {
            assert(before.sms[0].wf());
            assert(before.sms[0] == self.sms@[0].state.model());
        }
        if let Some(w) = self.sms[0].state.rx_fifo.pop() {
            v.push(w);
        }
        proof {
            assert(self.model().sms[0] == self.sms@[0].state.model());
            assert(self.model().sms =~= then_pop(Some((before, old(v)@))).unwrap().0.sms);
            assert(self.model().configs =~= before.configs);
            assert(self.model().enabled =~= before.enabled);
        }
    }

    /// The block after draining SM0's RX FIFO, and the words drained.
    pub open spec fn spec_drain_rx0(b: BlockModel) -> (BlockModel, Seq<u32>) {
        let rx = b.sms[0].rx;
        let k = if rx.len() < 8 { rx.len() as int } else { 8 };
        (BlockModel { sms: b.sms.update(0, SmModel { rx: rx.skip(k), ..b.sms[0] }), ..b }, rx.take(k))
    }

    /// Drains SM0's RX FIFO (the words the program pushed), oldest first, at
    /// most 8 of them; since no FIFO holds more than 8, it is empty afterwards.
    /// Must run before `readout_suffix_sm0`.
    pub fn drain_rx0(&mut self) -> (v: Vec<u32>)
        requires
            old(self).wf(),
        ensures
            (final(self).model(), v@) == Block::spec_drain_rx0(old(self).model()),
            v@ == old(self).model().sms[0].rx,
            final(self).model().sms[0].rx.len() == 0,
            final(self).wf(),
    {
        let ghost b0 = self.model();
        proof {
            assert(b0.sms[0].wf());
            assert(b0.sms[0].rx.take(b0.sms[0].rx.len() as int) =~= b0.sms[0].rx);
        }
        let mut v: Vec<u32> = Vec::new();
        proof {
            assert(b0.sms[0].rx.skip(0) =~= b0.sms[0].rx);
            assert(b0.sms[0].rx.take(0) =~= v@);
            assert(b0.sms.update(0, SmModel { rx: b0.sms[0].rx.skip(0), ..b0.sms[0] }) =~= b0.sms);
        }
        while v.len() < 8
            invariant
                self.wf(),
                b0.wf(),
                v@.len() <= 8,
                v@.len() <= b0.sms[0].rx.len(),
                v@ == b0.sms[0].rx.take(v@.len() as int),
                self.model() == (BlockModel { sms: b0.sms.update(0, SmModel { rx: b0.sms[0].rx.skip(v@.len() as int), ..b0.sms[0] }), ..b0 }),
            ensures
                v@.len() <= 8,
                v@ == b0.sms[0].rx.take(v@.len() as int),
                v@.len() == 8 || v@.len() == b0.sms[0].rx.len(),
                self.wf(),
                self.model() == (BlockModel { sms: b0.sms.update(0, SmModel { rx: b0.sms[0].rx.skip(v@.len() as int), ..b0.sms[0] }), ..b0 }),
            decreases 8 - v@.len(),
        {
            let ghost before = self.model();
            let ghost pre = self.sms@;
            let ghost n = v@.len() as int;
            proof {
                assert(before.sms[0] == self.sms@[0].state.model());
                assert(self.sms@[0].state.rx_fifo.items() == b0.sms[0].rx.skip(n));
                assert(b0.sms[0].wf());
            }
            match self.sms[0].state.rx_fifo.pop() {
                Some(w) => {
                    v.push(w);
                    proof {
                        assert(self.model().sms[0] == self.sms@[0].state.model());
                        assert(b0.sms[0].rx.skip(n).drop_first() =~= b0.sms[0].rx.skip(n + 1));
                        assert(v@ =~= b0.sms[0].rx.take(n + 1));
                        assert(before.sms[0] == (SmModel { rx: b0.sms[0].rx.skip(n), ..b0.sms[0] }));
                        assert(self.sms@[0].state.model() =~= (SmModel { rx: b0.sms[0].rx.skip(n + 1), ..b0.sms[0] }));
                        let target = b0.sms.update(0, SmModel { rx: b0.sms[0].rx.skip(n + 1), ..b0.sms[0] });
                        assert forall|j: int| 0 <= j < 4 implies self.model().sms[j] == target[j] by {
                            if j != 0 {
                                assert(self.sms@[j] == pre[j]);
                                assert(before.sms[j] == pre[j].state.model());
                            }
                        }
                        assert(self.model().sms =~= target);
                        assert(self.model().configs =~= b0.configs);
                        assert(self.model().enabled =~= b0.enabled);
                    }
                },
                None => {
                    proof {
                        assert(self.model().sms[0] == self.sms@[0].state.model());
                        assert(self.model().sms =~= before.sms);
                        assert(self.model().configs =~= before.configs);
                        assert(self.model().enabled =~= before.enabled);
                    }
                    break;
                },
            }
        }
        v
    }

    /// The block with SM0's autopush and autopull switched off.
    pub open spec fn spec_manual_shift(b: BlockModel) -> BlockModel {
        BlockModel { configs: b.configs.update(0, Config { autopush: false, autopull: false, ..b.configs[0] }), ..b }
    }

    /// SM0 is made to run `prep` (if any) and then a non-blocking PUSH, and
    /// the oldest word of its RX FIFO is taken out, after the words read so far.
    #[verifier::opaque]
    pub open spec fn spec_push_out(r: Option<(BlockModel, Seq<u32>)>, prep: Option<Instruction>) -> Option<(BlockModel, Seq<u32>)> {
        let r1 = match prep {
            Some(ins) => then_force(r, ins),
            None => r,
        };
        then_pop(then_force(r1, Instruction::Push { if_full: 0, block: 0 }))
    }

    /// The readout: with autopush and autopull off, SM0 pushes its ISR, then
    /// X, then Y (each shifted whole into the ISR by IN), then the OSR (copied
    /// into the ISR by MOV); each pushed word is taken back out of the RX FIFO
    /// at once.
    pub open spec fn spec_readout(b: BlockModel) -> Option<(BlockModel, Seq<u32>)> {
        let start = Some((Block::spec_manual_shift(b), Seq::<u32>::empty()));
        let r1 = Block::spec_push_out(start, None);
        let r2 = Block::spec_push_out(r1, Some(Instruction::In { source: crate::instr::shift::Source::X, bit_count: 0 }));
        let r3 = Block::spec_push_out(r2, Some(Instruction::In { source: crate::instr::shift::Source::Y, bit_count: 0 }));
        Block::spec_push_out(r3, Some(Instruction::Mov { destn: crate::instr::mov::Destn::Isr, op: crate::instr::mov::Op::Identity, source: crate::instr::mov::Source::Osr }))
    }
}


impl Block {
    /// A readout step leaves the configurations as they were.
    proof fn lemma_push_out_configs(r: Option<(BlockModel, Seq<u32>)>, prep: Option<Instruction>)
        requires
            Block::spec_push_out(r, prep) is Some,
        ensures
            Block::spec_push_out(r, prep) matches Some((b2, _)) && r matches Some((b1, _)) && b2.configs == b1.configs,
    {
        reveal(Block::spec_push_out);
    }

    /// A readout step that succeeds started from a block.
    pub proof fn lemma_push_out_some(r: Option<(BlockModel, Seq<u32>)>, prep: Option<Instruction>)
        requires
            Block::spec_push_out(r, prep) is Some,
        ensures
            r is Some,
    {
        reveal(Block::spec_push_out);
    }

    /// SM0 runs `prep` (if any) and a non-blocking PUSH; the oldest RX word,
    /// if any, is moved onto `v`.
    fn push_out_sm0(&mut self, prep: Option<Instruction>, v: &mut Vec<u32>)
        requires
            old(self).wf(),
            prep matches Some(i) ==> i.wf(),
            Block::spec_push_out(Some((old(self).model(), old(v)@)), prep) is Some,
        ensures
            Block::spec_push_out(Some((old(self).model(), old(v)@)), prep) == Some((final(self).model(), final(v)@)),
            final(self).wf(),
    {
        reveal(Block::spec_push_out);
        if let Some(ins) = prep {
            self.force_sm0(ins);
        }
        self.force_sm0(Instruction::Push { if_full: 0, block: 0 });
        self.pop_rx0_into(v);
    }

    /// Reads SM0's hidden registers out through its RX FIFO, as the hardware
    /// reference does: with autopush and autopull off, SM0 is made to PUSH the
    /// ISR, then X and Y (each shifted into the ISR with IN), then the OSR
    /// (copied into the ISR with MOV); each pushed word is popped at once.
    /// The forced instructions run at once, whatever delay is pending. With
    /// the RX FIFO drained first (and room in it) and room for the program
    /// counter to advance seven times, the words are `[ISR, X, Y, OSR]`.
    pub fn readout_suffix_sm0(&mut self) -> (v: Vec<u32>)
        requires
            old(self).wf(),
            Block::spec_readout(old(self).model()) is Some,
        ensures
            Block::spec_readout(old(self).model()) == Some((final(self).model(), v@)),
            final(self).wf(),
            ({
                let m = old(self).model().sms[0];
                let cfg = old(self).model().configs[0];
                let after = final(self).model().sms[0];
                m.rx.len() == 0 && m.rx_depth >= 1 && pc_walk(m.pc, cfg.wrap_top, cfg.wrap_bottom, 7) is Some
                    ==> v@ == seq![m.isr, m.x, m.y, m.osr] && after.rx.len() == 0 && after.isr == 0
                        && after.x == m.x && after.y == m.y && after.osr == m.osr
            }),
            !final(self).model().configs[0].autopush,
            !final(self).model().configs[0].autopull,
    {
        let ghost b0 = self.model();
        proof {
            let m = b0.sms[0];
            let cfg = b0.configs[0];
            if m.rx.len() == 0 && m.rx_depth >= 1 && pc_walk(m.pc, cfg.wrap_top, cfg.wrap_bottom, 7) is Some {
                lemma_readout_registers(b0);
            }
        }
        proof {
            assert(b0.configs[0].wf());
        }
        self.sms[0].config.autopush = false;
        self.sms[0].config.autopull = false;
        proof {
            assert(self.model().configs =~= Block::spec_manual_shift(b0).configs);
            assert(self.model().sms =~= b0.sms);
            assert(self.model().enabled =~= b0.enabled);
            assert(self.model() == Block::spec_manual_shift(b0));
            assert(self.model().configs[0].wf());
            assert(self.model().sms[0].wf());
            assert forall|i: int| 0 <= i < 4 implies #[trigger] self.model().configs[i].wf() by {
                if i != 0 {
                    assert(self.model().configs[i] == b0.configs[i]);
                }
            }
        }
        let mut v: Vec<u32> = Vec::new();
        proof {
            let start = Some((Block::spec_manual_shift(b0), Seq::<u32>::empty()));
            let r1 = Block::spec_push_out(start, None);
            let r2 = Block::spec_push_out(r1, Some(Instruction::In { source: crate::instr::shift::Source::X, bit_count: 0 }));
            let r3 = Block::spec_push_out(r2, Some(Instruction::In { source: crate::instr::shift::Source::Y, bit_count: 0 }));
            Block::lemma_push_out_some(r3, Some(Instruction::Mov { destn: crate::instr::mov::Destn::Isr, op: crate::instr::mov::Op::Identity, source: crate::instr::mov::Source::Osr }));
            Block::lemma_push_out_some(r2, Some(Instruction::In { source: crate::instr::shift::Source::Y, bit_count: 0 }));
            Block::lemma_push_out_some(r1, Some(Instruction::In { source: crate::instr::shift::Source::X, bit_count: 0 }));
            let r4 = Block::spec_push_out(r3, Some(Instruction::Mov { destn: crate::instr::mov::Destn::Isr, op: crate::instr::mov::Op::Identity, source: crate::instr::mov::Source::Osr }));
            Block::lemma_push_out_configs(start, None);
            Block::lemma_push_out_configs(r1, Some(Instruction::In { source: crate::instr::shift::Source::X, bit_count: 0 }));
            Block::lemma_push_out_configs(r2, Some(Instruction::In { source: crate::instr::shift::Source::Y, bit_count: 0 }));
            Block::lemma_push_out_configs(r3, Some(Instruction::Mov { destn: crate::instr::mov::Destn::Isr, op: crate::instr::mov::Op::Identity, source: crate::instr::mov::Source::Osr }));
            assert(r4 matches Some((b4, _)) && b4.configs == Block::spec_manual_shift(b0).configs);
            assert(v@ =~= Seq::<u32>::empty());
        }
        self.push_out_sm0(None, &mut v);
        self.push_out_sm0(Some(Instruction::In { source: crate::instr::shift::Source::X, bit_count: 0 }), &mut v);
        self.push_out_sm0(Some(Instruction::In { source: crate::instr::shift::Source::Y, bit_count: 0 }), &mut v);
        self.push_out_sm0(Some(Instruction::Mov { destn: crate::instr::mov::Destn::Isr, op: crate::instr::mov::Op::Identity, source: crate::instr::mov::Source::Osr }), &mut v);
        v
    }
}

} // verus!
