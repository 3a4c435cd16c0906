//! What every clock keeps, and what the readout gives back.
use vstd::prelude::*;
use vstd::arithmetic::power2::{pow2, lemma2_to64};
use super::model::{
    next_pc, no_event, spec_step, step_sm, steps, spec_execute, spec_instruction, then_force, then_pop, BlockModel, Io, SmModel,
};
use super::{bit_of, lemma_low_five, lemma_rotate_whole, spec_to_mask, Block, Config, ShiftDir, Sm0Setup, State, FIFO_DEPTH};
use crate::instr::{mov, shift, Condition, Instr, Instruction};

verus! {

/// A pending delay only counts down: nothing else changes, and the
/// instruction does not run.
pub proof fn lemma_delay_counts_down(m: SmModel, cfg: Config, instr: Instr, io: Io, gpio_in: u32, sm_id: u8)
    requires
        m.delay > 0,
        !m.stalled,
    ensures
        spec_execute(m, cfg, instr, io, gpio_in, sm_id) == Some((SmModel { delay: (m.delay - 1) as u8, ..m }, io)),
{
}

/// A clock that leaves the state machine stalled leaves its program counter
/// and delay where they were, so the same instruction runs again next clock.
pub proof fn lemma_stall_holds_pc(m: SmModel, cfg: Config, instr: Instr, io: Io, gpio_in: u32, sm_id: u8)
    requires
        spec_execute(m, cfg, instr, io, gpio_in, sm_id) matches Some((m2, _)) && m2.stalled,
    ensures
        spec_execute(m, cfg, instr, io, gpio_in, sm_id) matches Some((m2, _)) && m2.pc == m.pc && m2.delay == m.delay,
{
    let m0 = SmModel { stalled: false, ..m };
    match spec_instruction(m0, cfg, instr.instruction, io, gpio_in, sm_id) {
        Some(e) => {
            assert(e.m.pc == m.pc || !e.halted);
            assert(e.m.delay == m.delay || !e.halted);
            assert(e.halted || !e.m.stalled);
        },
        None => {},
    }
}

/// The program counter after `k` instructions that do not jump, when the
/// program wraps from `wrap_top` to `wrap_bottom`, if the walk stays inside
/// the instruction memory.
pub open spec fn pc_walk(pc: u8, wrap_top: u8, wrap_bottom: u8, k: nat) -> Option<u8>
    decreases k,
{
    if k == 0 {
        Some(pc)
    } else if pc == wrap_top {
        pc_walk(wrap_bottom, wrap_top, wrap_bottom, (k - 1) as nat)
    } else if pc < 31 {
        pc_walk((pc + 1) as u8, wrap_top, wrap_bottom, (k - 1) as nat)
    } else {
        None
    }
}

/// State machine 0 can take `k` more forced instructions of the readout
/// without anything else getting in the way: its RX FIFO is empty and has
/// room, autopush and autopull are off, and the program counter can advance
/// `k` times.
pub open spec fn readout_ready(b: BlockModel, k: nat) -> bool {
    let m = b.sms[0];
    let cfg = b.configs[0];
    &&& b.wf()
    &&& m.rx.len() == 0
    &&& m.rx_depth >= 1
    &&& !cfg.autopush
    &&& !cfg.autopull
    &&& pc_walk(m.pc, cfg.wrap_top, cfg.wrap_bottom, k) is Some
}

/// The word that one push-out step of the readout delivers.
pub open spec fn readout_word(m: SmModel, prep: Option<Instruction>) -> u32 {
    match prep {
        Some(Instruction::In { source: shift::Source::X, .. }) => m.x,
        Some(Instruction::In { source: shift::Source::Y, .. }) => m.y,
        Some(Instruction::Mov { .. }) => m.osr,
        _ => m.isr,
    }
}

/// One forced non-blocking PUSH moves the ISR into the RX FIFO and the next
/// pop takes it back out; X, Y, the OSR and the rest of the block stay.
proof fn lemma_push_then_pop(b: BlockModel, v: Seq<u32>, k: nat)
    requires
        readout_ready(b, k),
        k >= 1,
    ensures
        then_pop(then_force(Some((b, v)), Instruction::Push { if_full: 0, block: 0 })) matches Some((b2, v2)) && {
            &&& readout_ready(b2, (k - 1) as nat)
            &&& v2 == v.push(b.sms[0].isr)
            &&& b2.sms[0].x == b.sms[0].x
            &&& b2.sms[0].y == b.sms[0].y
            &&& b2.sms[0].osr == b.sms[0].osr
            &&& b2.sms[0].isr == 0
            &&& b2.sms[0].isr_count == 0
            &&& b2.configs == b.configs
        },
{
    let m = b.sms[0];
    let cfg = b.configs[0];
    assert(b.sms[0].wf());
    assert(b.configs[0].wf());
    let p = next_pc(m.pc, cfg)->0;
    let m1 = SmModel { rx: seq![m.isr], isr: 0, isr_count: 0, stalled: false, delay: 0, pc: p, ..m };
    assert(spec_execute(SmModel { delay: 0, ..m }, cfg, Instr { instruction: Instruction::Push { if_full: 0, block: 0 }, delay: 0, side_set: None }, super::model::io3(b.gpio_out, b.gpio_dir, b.irq), b.gpio_in, 0)
        == Some((m1, super::model::io3(b.gpio_out, b.gpio_dir, b.irq)))) by {
        assert(m.rx.push(m.isr) =~= seq![m.isr]);
    }
    let b1 = super::model::with_sm0(b, m1, super::model::io3(b.gpio_out, b.gpio_dir, b.irq));
    let m2 = SmModel { rx: Seq::empty(), ..m1 };
    let b2 = BlockModel { sms: b1.sms.update(0, m2), ..b1 };
    assert(seq![m.isr].drop_first() =~= Seq::<u32>::empty());
    assert(then_pop(then_force(Some((b, v)), Instruction::Push { if_full: 0, block: 0 })) == Some((b2, v.push(m.isr))));
    assert(b2.sms[0] == m2);
    assert forall|i: int| 0 <= i < 4 implies #[trigger] b2.sms[i].wf() by {
        if i != 0 {
            assert(b2.sms[i] == b.sms[i]);
        }
    }
}

/// X, Y or the OSR brought into the ISR by the readout's IN or MOV: the ISR
/// then holds that word, and nothing else the readout reads changes.
proof fn lemma_prep(b: BlockModel, v: Seq<u32>, k: nat, prep: Instruction)
    requires
        readout_ready(b, k),
        k >= 1,
        b.sms[0].isr == 0,
        b.sms[0].isr_count == 0,
        prep == (Instruction::In { source: shift::Source::X, bit_count: 0 })
            || prep == (Instruction::In { source: shift::Source::Y, bit_count: 0 })
            || prep == (Instruction::Mov { destn: mov::Destn::Isr, op: mov::Op::Identity, source: mov::Source::Osr }),
    ensures
        then_force(Some((b, v)), prep) matches Some((b2, v2)) && {
            &&& readout_ready(b2, (k - 1) as nat)
            &&& v2 == v
            &&& b2.sms[0].x == b.sms[0].x
            &&& b2.sms[0].y == b.sms[0].y
            &&& b2.sms[0].osr == b.sms[0].osr
            &&& b2.sms[0].isr == readout_word(b.sms[0], Some(prep))
            &&& b2.configs == b.configs
        },
{
    let m = b.sms[0];
    let cfg = b.configs[0];
    assert(b.sms[0].wf());
    assert(b.configs[0].wf());
    let io = super::model::io3(b.gpio_out, b.gpio_dir, b.irq);
    let w = readout_word(m, Some(prep));
    let p = next_pc(m.pc, cfg)->0;
    lemma2_to64();
    assert(spec_to_mask(32) == 0xffff_ffffnat);
    assert((0u32 | (w & 0xffff_ffffu32)) == w) by (bit_vector);
    assert(super::spec_shl(0, 32) == 0) by {
        assert(0nat * pow2(32) == 0);
    }
    assert(super::spec_shr(0, 32) == 0);
    lemma_rotate_whole(w & 0xffff_ffffu32);
    assert((w & 0xffff_ffffu32) == w) by (bit_vector);
    let m1 = if prep is Mov {
        SmModel { isr: w, isr_count: 0, stalled: false, delay: 0, pc: p, osr_count: 0, ..m }
    } else {
        SmModel { isr: w, isr_count: 32, stalled: false, delay: 0, pc: p, ..m }
    };
    assert(spec_execute(SmModel { delay: 0, ..m }, cfg, Instr { instruction: prep, delay: 0, side_set: None }, io, b.gpio_in, 0) == Some((m1, io)));
    let b2 = super::model::with_sm0(b, m1, io);
    assert(then_force(Some((b, v)), prep) == Some((b2, v)));
    assert(b2.sms[0] == m1);
    assert forall|i: int| 0 <= i < 4 implies #[trigger] b2.sms[i].wf() by {
        if i != 0 {
            assert(b2.sms[i] == b.sms[i]);
        }
    }
}

/// One push-out step of the readout (the preparing instruction, if any, then
/// a PUSH and a pop) delivers `readout_word` and keeps what the later steps read.
proof fn lemma_push_out_step(b: BlockModel, v: Seq<u32>, k: nat, prep: Option<Instruction>)
    requires
        readout_ready(b, k),
        k >= 2 || (k >= 1 && prep is None),
        prep is Some ==> b.sms[0].isr == 0 && b.sms[0].isr_count == 0,
        prep matches Some(ins) ==> (ins == (Instruction::In { source: shift::Source::X, bit_count: 0 })
            || ins == (Instruction::In { source: shift::Source::Y, bit_count: 0 })
            || ins == (Instruction::Mov { destn: mov::Destn::Isr, op: mov::Op::Identity, source: mov::Source::Osr })),
    ensures
        Block::spec_push_out(Some((b, v)), prep) matches Some((b2, v2)) && {
            &&& readout_ready(b2, (k - if prep is Some { 2int } else { 1int }) as nat)
            &&& v2 == v.push(readout_word(b.sms[0], prep))
            &&& b2.sms[0].x == b.sms[0].x
            &&& b2.sms[0].y == b.sms[0].y
            &&& b2.sms[0].osr == b.sms[0].osr
            &&& b2.sms[0].isr == 0
            &&& b2.sms[0].isr_count == 0
            &&& b2.configs == b.configs
        },
{
    reveal(Block::spec_push_out);
    let push = Instruction::Push { if_full: 0, block: 0 };
    match prep {
        None => {
            lemma_push_then_pop(b, v, k);
        },
        Some(ins) => {
            lemma_prep(b, v, k, ins);
            let (b1, v1) = then_force(Some((b, v)), ins)->0;
            lemma_push_then_pop(b1, v1, (k - 1) as nat);
        },
    }
}

/// The readout gives back `[ISR, X, Y, OSR]` as they stood before it, in
/// either shift direction, whatever delay is pending and whatever the TX FIFO
/// holds, as long as state machine 0's RX FIFO is empty and has room and its
/// program counter can advance seven times. Afterwards autopush and autopull
/// are off, the RX FIFO is empty, the ISR is 0, and X, Y and the OSR are as
/// they were.
pub proof fn lemma_readout_registers(b: BlockModel)
    requires
        b.wf(),
        b.sms[0].rx.len() == 0,
        b.sms[0].rx_depth >= 1,
        pc_walk(b.sms[0].pc, b.configs[0].wrap_top, b.configs[0].wrap_bottom, 7) is Some,
    ensures
        Block::spec_readout(b) matches Some((b2, v)) && {
            &&& v == seq![b.sms[0].isr, b.sms[0].x, b.sms[0].y, b.sms[0].osr]
            &&& b2.configs == Block::spec_manual_shift(b).configs
            &&& !b2.configs[0].autopush
            &&& !b2.configs[0].autopull
            &&& b2.sms[0].rx.len() == 0
            &&& b2.sms[0].isr == 0
            &&& b2.sms[0].x == b.sms[0].x
            &&& b2.sms[0].y == b.sms[0].y
            &&& b2.sms[0].osr == b.sms[0].osr
        },
{
    let m = b.sms[0];
    let b0 = Block::spec_manual_shift(b);
    assert(b.configs[0].wf());
    assert forall|i: int| 0 <= i < 4 implies #[trigger] b0.configs[i].wf() by {
        if i != 0 {
            assert(b0.configs[i] == b.configs[i]);
        }
    }
    assert(readout_ready(b0, 7));
    let in_x = Instruction::In { source: shift::Source::X, bit_count: 0 };
    let in_y = Instruction::In { source: shift::Source::Y, bit_count: 0 };
    let mov_osr = Instruction::Mov { destn: mov::Destn::Isr, op: mov::Op::Identity, source: mov::Source::Osr };
    let e = Seq::<u32>::empty();
    lemma_push_out_step(b0, e, 7, None);
    let (b1, v1) = Block::spec_push_out(Some((b0, e)), None)->0;
    lemma_push_out_step(b1, v1, 6, Some(in_x));
    let (b2, v2) = Block::spec_push_out(Some((b1, v1)), Some(in_x))->0;
    lemma_push_out_step(b2, v2, 4, Some(in_y));
    let (b3, v3) = Block::spec_push_out(Some((b2, v2)), Some(in_y))->0;
    lemma_push_out_step(b3, v3, 2, Some(mov_osr));
    let (b4, v4) = Block::spec_push_out(Some((b3, v3)), Some(mov_osr))->0;
    assert(v4 =~= seq![m.isr, m.x, m.y, m.osr]);
}

/// The first `k` state machines' clocks leave the program, the configurations,
/// the enable bits, the GPIO inputs and the cycle count alone, and leave every
/// disabled state machine as it was; with none of them enabled, nothing changes
/// and nothing is reported.
proof fn lemma_steps_frame(b: BlockModel, k: nat)
    requires
        k <= 4,
        b.wf(),
        steps(b, k) is Some,
    ensures
        steps(b, k) matches Some((b2, ev)) && {
            &&& b2.instr_mem == b.instr_mem
            &&& b2.configs == b.configs
            &&& b2.enabled == b.enabled
            &&& b2.gpio_in == b.gpio_in
            &&& b2.cycle == b.cycle
            &&& b2.sms.len() == 4
            &&& forall|i: int| 0 <= i < 4 && !b.enabled[i] ==> #[trigger] b2.sms[i] == b.sms[i]
            &&& (forall|i: int| 0 <= i < k ==> !#[trigger] b.enabled[i]) ==> b2 == b && ev == no_event()
        },
    decreases k,
{
    if k > 0 {
        lemma_steps_frame(b, (k - 1) as nat);
    }
}

/// One clock of the block leaves the program, the configurations, the
/// enable bits and the GPIO inputs alone, advances the cycle count by one and
/// leaves every disabled state machine as it was. A block with no state
/// machine enabled only counts the cycle, and reports nothing.
pub proof fn lemma_step_frame(b: BlockModel)
    requires
        b.wf(),
        spec_step(b) is Some,
    ensures
        spec_step(b) matches Some((b2, ev)) && {
            &&& b2.instr_mem == b.instr_mem
            &&& b2.configs == b.configs
            &&& b2.enabled == b.enabled
            &&& b2.gpio_in == b.gpio_in
            &&& b2.cycle == b.cycle + 1
            &&& forall|i: int| 0 <= i < 4 && !b.enabled[i] ==> #[trigger] b2.sms[i] == b.sms[i]
            &&& (forall|i: int| 0 <= i < 4 ==> !#[trigger] b.enabled[i]) ==> b2 == (BlockModel { cycle: (b.cycle + 1) as u64, ..b }) && ev == no_event()
        },
{
    lemma_steps_frame(b, 4);
}

/// One clock of a JMP (with no delay pending): the jump is taken exactly
/// when its condition holds on the registers as they were (always; X zero;
/// X non-zero, then X decremented; Y zero; Y non-zero, then Y decremented;
/// X differs from Y; the JMP pin high; the OSR shift count below the pull
/// threshold). A taken jump sets the PC to the address; otherwise the PC
/// advances, wrapping from `wrap_top` to `wrap_bottom`, and a PC at slot 31
/// that is not the wrap top has nowhere to go. X and Y change only by the
/// decrements, the GPIO registers and IRQ flags not at all, and the
/// instruction's delay is loaded.
pub proof fn lemma_jmp_semantics(
    m: SmModel,
    cfg: Config,
    condition: Condition,
    address: u8,
    delay: u8,
    side_set: Option<u8>,
    io: Io,
    gpio_in: u32,
    sm_id: u8,
)
    requires
        m.delay == 0 || m.stalled,
    ensures
        ({
            let taken = match condition {
                Condition::Always => true,
                Condition::XZero => m.x == 0,
                Condition::XDec => m.x != 0,
                Condition::YZero => m.y == 0,
                Condition::YDec => m.y != 0,
                Condition::XNeqY => m.x != m.y,
                Condition::Pin => bit_of(gpio_in as nat, cfg.jmp_pin as nat),
                Condition::OsrNotEmpty => m.osr_count < (if cfg.pull_thresh.0 == 0 { 32 } else { cfg.pull_thresh.0 }),
            };
            let x2 = if condition == Condition::XDec { if m.x == 0 { 0xffff_ffffu32 } else { (m.x - 1) as u32 } } else { m.x };
            let y2 = if condition == Condition::YDec { if m.y == 0 { 0xffff_ffffu32 } else { (m.y - 1) as u32 } } else { m.y };
            let r = spec_execute(m, cfg, Instr { instruction: Instruction::Jmp { condition, address }, delay, side_set }, io, gpio_in, sm_id);
            &&& r is Some <==> (taken || m.pc == cfg.wrap_top || m.pc < 31)
            &&& r matches Some((m2, io2)) ==> {
                &&& m2.pc == (if taken { address } else if m.pc == cfg.wrap_top { cfg.wrap_bottom } else { (m.pc + 1) as u8 })
                &&& m2.x == x2
                &&& m2.y == y2
                &&& m2.isr == m.isr
                &&& m2.rx == m.rx
                &&& m2.delay == delay
                &&& !m2.stalled
                &&& io2 == io
            }
        }),
{
}

/// After `configure_sm0(prog)`, only SM0 is enabled, and its configuration
/// and registers are read off the setup: pin bases, the JMP pin, the wrap
/// addresses and the thresholds keep their value modulo 32, the OUT count is
/// capped at 32 and the SET count at 5, each shift direction is right exactly
/// when the setup asks for right, autopull, autopush and the joins are as
/// asked; the PC is the origin modulo 32, the OSR is empty, and X, Y and the
/// TX FIFO are preloaded unless the RX join took the TX FIFO. The other state
/// machines are as after reset.
pub proof fn lemma_configure_sm0_fields(prog: &Sm0Setup)
    ensures
        ({
            let b = Block::spec_configure_sm0(prog);
            let c = b.configs[0];
            let m = b.sms[0];
            &&& b.enabled[0] && !b.enabled[1] && !b.enabled[2] && !b.enabled[3]
            &&& c.out_shiftdir == (if prog.out_shiftdir_right { ShiftDir::Right } else { ShiftDir::Left })
            &&& c.in_shiftdir == (if prog.in_shiftdir_right { ShiftDir::Right } else { ShiftDir::Left })
            &&& c.autopull == prog.autopull
            &&& c.autopush == prog.autopush
            &&& c.fjoin_tx == prog.fjoin_tx
            &&& c.fjoin_rx == prog.fjoin_rx
            &&& c.wrap_top == prog.wrap_top % 32
            &&& c.wrap_bottom == prog.wrap_bottom % 32
            &&& c.jmp_pin == prog.jmp_pin % 32
            &&& c.in_base.0 == prog.in_base % 32
            &&& c.out_base.0 == prog.out_base % 32
            &&& c.set_base.0 == prog.set_base % 32
            &&& c.out_count.0 == (if prog.out_count <= 32 { prog.out_count } else { 32 })
            &&& c.set_count.0 == (if prog.set_count <= 5 { prog.set_count } else { 5 })
            &&& c.pull_thresh.0 == prog.pull_thresh % 32
            &&& c.push_thresh.0 == prog.push_thresh % 32
            &&& m.pc == prog.origin % 32
            &&& m.x == (if prog.fjoin_rx { 0 } else { prog.x_init })
            &&& m.y == (if prog.fjoin_rx { 0 } else { prog.y_init })
            &&& m.osr_count == 32
            &&& m.isr == 0 && m.isr_count == 0
            &&& m.rx.len() == 0
            &&& m.tx_depth == (if prog.fjoin_tx && !prog.fjoin_rx { 8nat } else if prog.fjoin_rx && !prog.fjoin_tx { 0nat } else { 4nat })
            &&& m.rx_depth == (if prog.fjoin_rx && !prog.fjoin_tx { 8nat } else if prog.fjoin_tx && !prog.fjoin_rx { 0nat } else { 4nat })
            &&& (!prog.fjoin_rx ==> m.tx.len() <= prog.tx_seed@.len() && m.tx.len() <= m.tx_depth
                && (m.tx.len() == prog.tx_seed@.len() || m.tx.len() == m.tx_depth)
                && forall|i: int| 0 <= i < m.tx.len() ==> #[trigger] m.tx[i] == prog.tx_seed@[i])
            &&& forall|i: int| 1 <= i < 4 ==> #[trigger] b.sms[i] == State::spec_new()
        }),
{
    let p = prog;
    lemma_low_five(p.wrap_top);
    lemma_low_five(p.wrap_bottom);
    lemma_low_five(p.jmp_pin);
    lemma_low_five(p.in_base);
    lemma_low_five(p.out_base);
    lemma_low_five(p.set_base);
    lemma_low_five(p.pull_thresh);
    lemma_low_five(p.push_thresh);
    lemma_low_five(p.origin);
}

} // verus!
