//! What each kind of instruction does in one clock, stated directly over the
//! registers it reads and writes. Each law assumes no delay is pending (or the
//! state machine was stalled, which retries the instruction).
use vstd::prelude::*;
use vstd::arithmetic::power2::{lemma2_to64, lemma_pow2_adds, lemma_pow2_pos, lemma_pow2_strictly_increases, pow2};
use vstd::arithmetic::div_mod::{lemma_mod_mod, lemma_mod_multiples_basic, lemma_small_mod};
use vstd::bits::{lemma_u32_low_bits_mask_is_mod, lemma_u32_shl_is_mul, low_bits_mask};
use super::model::{min63, spec_execute, Io, SmModel};
use super::{lemma_reverse_exists, reverses, spec_irq_index, spec_rotate_right, spec_shl, spec_shr, spec_to_mask, bit_of, Config, ShiftDir, StatusSel};
use crate::instr::{mov, shift, wait, Instr, Instruction};

verus! {

/// Where the PC goes after an instruction that does not jump: from the wrap
/// top back to the wrap bottom, otherwise one on; past slot 31 there is nowhere.
pub open spec fn pc_after(pc: u8, cfg: Config) -> Option<u8> {
    if pc == cfg.wrap_top {
        Some(cfg.wrap_bottom)
    } else if pc < 31 {
        Some((pc + 1) as u8)
    } else {
        None
    }
}

/// A clock runs the instruction: no delay pending, or a stall being retried.
pub open spec fn runs(m: SmModel) -> bool {
    m.delay == 0 || m.stalled
}

/// SET writes its five-bit value to X or Y (leaving the other alone), or to
/// the output or direction pins (leaving the other pin register and X and Y
/// alone); the reserved destinations give no result. The PC then moves on.
pub proof fn lemma_set_semantics(m: SmModel, cfg: Config, destn: crate::instr::set::Destn, data: u8, delay: u8, io: Io, gpio_in: u32, sm_id: u8)
    requires
        runs(m),
    ensures
        ({
            let r = spec_execute(m, cfg, Instr { instruction: Instruction::SetImmediate { destn, data }, delay, side_set: None }, io, gpio_in, sm_id);
            let modelled = destn == crate::instr::set::Destn::X || destn == crate::instr::set::Destn::Y
                || destn == crate::instr::set::Destn::Pins || destn == crate::instr::set::Destn::PinDirs;
            &&& r is Some <==> modelled && pc_after(m.pc, cfg) is Some
            &&& r matches Some((m2, io2)) ==> {
                &&& m2.pc == pc_after(m.pc, cfg)->0
                &&& m2.delay == delay && !m2.stalled
                &&& io2.irq == io.irq
                &&& destn == crate::instr::set::Destn::X ==> m2.x == data as u32 && m2.y == m.y && io2 == io
                &&& destn == crate::instr::set::Destn::Y ==> m2.y == data as u32 && m2.x == m.x && io2 == io
                &&& destn == crate::instr::set::Destn::Pins ==> m2.x == m.x && m2.y == m.y && io2.dir == io.dir
                &&& destn == crate::instr::set::Destn::PinDirs ==> m2.x == m.x && m2.y == m.y && io2.out == io.out
            }
        }),
{
}

/// The value MOV reads from a register source (or the all-ones/zero STATUS).
pub open spec fn mov_register_value(m: SmModel, cfg: Config, source: mov::Source) -> u32 {
    match source {
        mov::Source::X => m.x,
        mov::Source::Y => m.y,
        mov::Source::Null => 0,
        mov::Source::Isr => m.isr,
        mov::Source::Osr => m.osr,
        mov::Source::Status => {
            let level = if cfg.status_sel == StatusSel::TxLevel { m.tx.len() } else { m.rx.len() };
            if level < cfg.status_n.0 { 0xffff_ffffu32 } else { 0u32 }
        },
        _ => 0,
    }
}

/// `w` is what MOV's operation makes of `v`: `v` itself, its bitwise
/// complement, or its bits in reverse order.
pub open spec fn mov_result(op: mov::Op, v: u32, w: u32) -> bool {
    match op {
        mov::Op::Identity => w == v,
        mov::Op::Invert => w == !v,
        mov::Op::BitReverse => reverses(w, v),
        mov::Op::Reserved => false,
    }
}

/// MOV from a register (X, Y, null, ISR, OSR or STATUS) to X, Y, the ISR or
/// the OSR: the destination gets the value, complemented or reversed as the
/// operation says, and the other registers stay; a MOV into the ISR or OSR
/// leaves it counted full (shift count 0). A reserved operation gives no result.
pub proof fn lemma_mov_semantics(m: SmModel, cfg: Config, destn: mov::Destn, op: mov::Op, source: mov::Source, delay: u8, io: Io, gpio_in: u32, sm_id: u8)
    requires
        runs(m),
        source != mov::Source::Pins && source != mov::Source::Reserved,
        destn == mov::Destn::X || destn == mov::Destn::Y || destn == mov::Destn::Isr || destn == mov::Destn::Osr,
    ensures
        ({
            let r = spec_execute(m, cfg, Instr { instruction: Instruction::Mov { destn, op, source }, delay, side_set: None }, io, gpio_in, sm_id);
            let v = mov_register_value(m, cfg, source);
            &&& r is Some <==> op != mov::Op::Reserved && pc_after(m.pc, cfg) is Some
            &&& r matches Some((m2, io2)) ==> {
                &&& io2 == io
                &&& m2.pc == pc_after(m.pc, cfg)->0
                &&& m2.delay == delay && !m2.stalled
                &&& destn == mov::Destn::X ==> mov_result(op, v, m2.x) && m2.y == m.y && m2.isr == m.isr && m2.osr == m.osr
                &&& destn == mov::Destn::Y ==> mov_result(op, v, m2.y) && m2.x == m.x && m2.isr == m.isr && m2.osr == m.osr
                &&& destn == mov::Destn::Isr ==> mov_result(op, v, m2.isr) && m2.isr_count == 0 && m2.x == m.x && m2.y == m.y && m2.osr == m.osr
                &&& destn == mov::Destn::Osr ==> mov_result(op, v, m2.osr) && m2.osr_count == 0 && m2.x == m.x && m2.y == m.y && m2.isr == m.isr
            }
        }),
{
    lemma_reverse_exists(mov_register_value(m, cfg, source));
}

/// PUSH: unless `iffull` holds it back (ISR below the push threshold), the
/// ISR goes to the end of the RX FIFO and is cleared. On a full RX FIFO a
/// blocking PUSH stalls with nothing changed, and a non-blocking one clears
/// the ISR and drops it.
pub proof fn lemma_push_semantics(m: SmModel, cfg: Config, if_full: u8, block: u8, delay: u8, io: Io, gpio_in: u32, sm_id: u8)
    requires
        runs(m),
        if_full < 2,
        block < 2,
        pc_after(m.pc, cfg) is Some,
    ensures
        ({
            let r = spec_execute(m, cfg, Instr { instruction: Instruction::Push { if_full, block }, delay, side_set: None }, io, gpio_in, sm_id);
            let threshold = if cfg.push_thresh.0 == 0 { 32 } else { cfg.push_thresh.0 };
            let goes = if_full == 0 || m.isr_count >= threshold;
            r matches Some((m2, io2)) && io2 == io && m2.x == m.x && m2.y == m.y && {
                if !goes {
                    m2.rx == m.rx && m2.isr == m.isr && !m2.stalled && m2.pc == pc_after(m.pc, cfg)->0
                } else if m.rx.len() < m.rx_depth {
                    m2.rx == m.rx.push(m.isr) && m2.isr == 0 && m2.isr_count == 0 && !m2.stalled && m2.pc == pc_after(m.pc, cfg)->0
                } else if block == 1 {
                    m2.stalled && m2.pc == m.pc && m2.rx == m.rx && m2.isr == m.isr
                } else {
                    m2.rx == m.rx && m2.isr == 0 && !m2.stalled && m2.pc == pc_after(m.pc, cfg)->0
                }
            }
        }),
{
}

/// PULL: unless `ifempty` holds it back (OSR not yet shifted to the pull
/// threshold), the OSR takes the oldest TX word and is counted full. On an
/// empty TX FIFO a blocking PULL stalls with nothing changed, and a
/// non-blocking one copies X into the OSR.
pub proof fn lemma_pull_semantics(m: SmModel, cfg: Config, if_empty: u8, block: u8, delay: u8, io: Io, gpio_in: u32, sm_id: u8)
    requires
        runs(m),
        if_empty < 2,
        block < 2,
        pc_after(m.pc, cfg) is Some,
    ensures
        ({
            let r = spec_execute(m, cfg, Instr { instruction: Instruction::Pull { if_empty, block }, delay, side_set: None }, io, gpio_in, sm_id);
            let threshold = if cfg.pull_thresh.0 == 0 { 32 } else { cfg.pull_thresh.0 };
            let goes = if_empty == 0 || m.osr_count >= threshold;
            r matches Some((m2, io2)) && io2 == io && m2.x == m.x && m2.y == m.y && m2.rx == m.rx && {
                if !goes {
                    m2.tx == m.tx && m2.osr == m.osr && !m2.stalled && m2.pc == pc_after(m.pc, cfg)->0
                } else if m.tx.len() > 0 {
                    m2.osr == m.tx[0] && m2.tx == m.tx.drop_first() && m2.osr_count == 0 && !m2.stalled
                        && m2.pc == pc_after(m.pc, cfg)->0
                } else if block == 1 {
                    m2.stalled && m2.pc == m.pc && m2.tx == m.tx && m2.osr == m.osr
                } else {
                    m2.osr == m.x && m2.osr_count == 0 && !m2.stalled && m2.pc == pc_after(m.pc, cfg)->0
                }
            }
        }),
{
}

/// WAIT on a GPIO or an IRQ flag: it stalls, PC held, until the level equals
/// the polarity; then it moves on, and a WAIT for a set IRQ flag clears it.
pub proof fn lemma_wait_semantics(m: SmModel, cfg: Config, polarity: u8, source: wait::Source, index: u8, delay: u8, io: Io, gpio_in: u32, sm_id: u8)
    requires
        runs(m),
        polarity < 2,
        index < 32,
        source == wait::Source::Gpio || (source == wait::Source::Irq && index <= 7),
        pc_after(m.pc, cfg) is Some,
    ensures
        ({
            let r = spec_execute(m, cfg, Instr { instruction: Instruction::Wait { polarity, source, index }, delay, side_set: None }, io, gpio_in, sm_id);
            let flag = spec_irq_index(index as nat, sm_id as nat);
            let level = if source == wait::Source::Gpio { bit_of(gpio_in as nat, index as nat) } else { bit_of(io.irq as nat, flag) };
            let met = level == (polarity == 1);
            r matches Some((m2, io2)) && m2.x == m.x && m2.y == m.y && io2.out == io.out && io2.dir == io.dir && {
                if met {
                    &&& !m2.stalled
                    &&& m2.pc == pc_after(m.pc, cfg)->0
                    &&& io2.irq == (if source == wait::Source::Irq && polarity == 1 { io.irq & !(1u8 << (flag as u8)) } else { io.irq })
                } else {
                    m2.stalled && m2.pc == m.pc && io2.irq == io.irq
                }
            }
        }),
{
}

/// IRQ (not waiting from an earlier clock): `clear` clears the flag; otherwise
/// the flag is raised, and with `wait` the state machine then stalls, PC held.
pub proof fn lemma_irq_semantics(m: SmModel, cfg: Config, clear: u8, wait: u8, index: u8, delay: u8, io: Io, gpio_in: u32, sm_id: u8)
    requires
        runs(m),
        !m.irq_stalled,
        clear < 2,
        wait < 2,
        pc_after(m.pc, cfg) is Some,
    ensures
        ({
            let r = spec_execute(m, cfg, Instr { instruction: Instruction::Irq { clear, wait, index }, delay, side_set: None }, io, gpio_in, sm_id);
            let bit = 1u8 << (spec_irq_index(index as nat, sm_id as nat) as u8);
            r matches Some((m2, io2)) && m2.x == m.x && m2.y == m.y && io2.out == io.out && io2.dir == io.dir && {
                if clear == 1 {
                    io2.irq == io.irq & !bit && !m2.stalled && m2.pc == pc_after(m.pc, cfg)->0
                } else if wait == 1 {
                    io2.irq == io.irq | bit && m2.stalled && m2.irq_stalled && m2.pc == m.pc
                } else {
                    io2.irq == io.irq | bit && !m2.stalled && m2.pc == pc_after(m.pc, cfg)->0
                }
            }
        }),
{
}

/// OR of two words with no bit in common is their sum: `a` below `2^t`
/// and `b` a multiple of `2^t`.
proof fn lemma_or_disjoint(a: u32, b: u32, t: nat)
    requires
        t < 32,
        (a as nat) < pow2(t),
        (b as nat) % pow2(t) == 0,
    ensures
        (a | b) as nat == a as nat + b as nat,
{
    let tt = t as u32;
    lemma2_to64();
    lemma_pow2_pos(t);
    lemma_pow2_strictly_increases(t, 32);
    lemma_u32_shl_is_mul(1, tt);
    lemma_u32_low_bits_mask_is_mod(b, t);
    let mask: u32 = ((1u32 << tt) - 1) as u32;
    assert(low_bits_mask(t) as u32 == mask);
    assert(b & mask == 0);
    assert(a < (1u32 << tt));
    assert((a | b) as int == a + b) by (bit_vector)
        requires
            tt < 32,
            a < (1u32 << tt),
            mask == ((1u32 << tt) - 1) as u32,
            b & mask == 0,
    ;
}

/// The low `n` bits of a word, taken with the mask the emulator uses.
proof fn lemma_mask_is_mod(v: u32, n: nat)
    requires
        1 <= n <= 32,
    ensures
        (v & (spec_to_mask(n) as u32)) as nat == (v as nat) % pow2(n),
        (v as nat) % pow2(n) < pow2(n),
{
    lemma2_to64();
    lemma_pow2_pos(n);
    if n == 32 {
        assert(v & 0xffff_ffffu32 == v) by (bit_vector);
        lemma_small_mod(v as nat, pow2(32));
    } else {
        lemma_pow2_strictly_increases(n, 32);
        lemma_u32_low_bits_mask_is_mod(v, n);
    }
}

/// The value IN reads from a register source.
pub open spec fn in_register_value(m: SmModel, source: shift::Source) -> u32 {
    match source {
        shift::Source::X => m.x,
        shift::Source::Y => m.y,
        shift::Source::Null => 0,
        shift::Source::Isr => m.isr,
        shift::Source::Osr => m.osr,
        _ => 0,
    }
}

/// What IN of `n` bits leaves in the ISR: shifting left, the ISR moves up
/// `n` places (bits past 31 are lost) and `low` fills the bottom; shifting
/// right, it moves down `n` places and `low` comes in at the top.
pub open spec fn shifted_in(isr: u32, low: nat, n: nat, dir: ShiftDir) -> nat {
    match dir {
        ShiftDir::Left => (isr as nat * pow2(n)) % pow2(32) + low,
        ShiftDir::Right => isr as nat / pow2(n) + low * pow2((32 - n) as nat),
    }
}

proof fn lemma_shifted_in(isr: u32, low: u32, n: nat, dir: ShiftDir)
    requires
        1 <= n <= 32,
        (low as nat) < pow2(n),
    ensures
        ({
            let isr2: u32 = match dir {
                ShiftDir::Left => (spec_shl(isr as nat, n) as u32) | low,
                ShiftDir::Right => (spec_shr(isr as nat, n) as u32) | (spec_rotate_right(low as nat, n) as u32),
            };
            isr2 as nat == shifted_in(isr, low as nat, n, dir)
        }),
{
    lemma2_to64();
    lemma_pow2_pos(n);
    let p = pow2(n);
    let q = pow2((32 - n) as nat);
    lemma_pow2_pos((32 - n) as nat);
    lemma_pow2_adds(n, (32 - n) as nat);
    assert(p * q == pow2(32));
    match dir {
        ShiftDir::Left => {
            let s = (isr as nat * p) % pow2(32);
            assert(s < pow2(32));
            if n == 32 {
                lemma_mod_multiples_basic(isr as int, pow2(32) as int);
                assert(s == 0);
                assert((0u32 | low) == low) by (bit_vector);
            } else {
                lemma_mod_mod((isr as nat * p) as int, p as int, q as int);
                lemma_mod_multiples_basic(isr as int, p as int);
                assert(s % p == 0);
                let su = s as u32;
                lemma_or_disjoint(low, su, n);
                assert((low | su) == (su | low)) by (bit_vector);
            }
        },
        ShiftDir::Right => {
            let a = isr as nat / p;
            lemma_small_mod(low as nat, p);
            assert(low as nat / p == 0) by (nonlinear_arith)
                requires
                    (low as nat) < p,
            ;
            let b = low as nat * q;
            assert(spec_rotate_right(low as nat, n) == b);
            vstd::arithmetic::mul::lemma_mul_strict_inequality(low as int, p as int, q as int);
            assert(b < pow2(32));
            if n == 32 {
                assert(p == 0x1_0000_0000nat);
                assert((isr as nat) / 0x1_0000_0000nat == 0) by (nonlinear_arith)
                    requires
                        (isr as nat) < 0x1_0000_0000nat,
                ;
                assert(a == 0);
                let bu = b as u32;
                assert((0u32 | bu) == bu) by (bit_vector);
            } else {
                assert(a < q) by (nonlinear_arith)
                    requires
                        (isr as nat) < p * q,
                        p > 0,
                        a == isr as nat / p,
                ;
                lemma_mod_multiples_basic(low as int, q as int);
                lemma_or_disjoint(a as u32, b as u32, (32 - n) as nat);
            }
        },
    }
}

/// IN of `n` bits (1 to 32) from a register, autopush off: the ISR becomes
/// `shifted_in` of the source's low `n` bits, the shift count grows by `n`
/// (capped at 63), and nothing else the state machine holds changes.
pub proof fn lemma_in_semantics(m: SmModel, cfg: Config, source: shift::Source, bit_count: u8, delay: u8, io: Io, gpio_in: u32, sm_id: u8)
    requires
        runs(m),
        !cfg.autopush,
        bit_count < 32,
        m.isr_count <= 63,
        source == shift::Source::X || source == shift::Source::Y || source == shift::Source::Null
            || source == shift::Source::Isr || source == shift::Source::Osr,
        pc_after(m.pc, cfg) is Some,
    ensures
        ({
            let r = spec_execute(m, cfg, Instr { instruction: Instruction::In { source, bit_count }, delay, side_set: None }, io, gpio_in, sm_id);
            let n: nat = if bit_count == 0 { 32 } else { bit_count as nat };
            let low = (in_register_value(m, source) as nat) % pow2(n);
            r matches Some((m2, io2)) && io2 == io && m2.x == m.x && m2.y == m.y && m2.rx == m.rx && !m2.stalled
                && m2.pc == pc_after(m.pc, cfg)->0 && m2.isr_count == min63(m.isr_count + n)
                && m2.isr as nat == shifted_in(m.isr, low, n, cfg.in_shiftdir)
        }),
{
    let n: nat = if bit_count == 0 { 32 } else { bit_count as nat };
    let v = in_register_value(m, source);
    lemma_mask_is_mod(v, n);
    let low = v & (spec_to_mask(n) as u32);
    lemma_shifted_in(m.isr, low, n, cfg.in_shiftdir);
}

/// What OUT of `n` bits shifts out of the OSR, and the OSR left behind:
/// shifting right, the low `n` bits go out and the OSR moves down `n` places;
/// shifting left, the top `n` bits go out and the OSR moves up `n` places
/// (bits past 31 are lost).
pub open spec fn shifted_out(osr: u32, n: nat, dir: ShiftDir) -> (nat, nat) {
    match dir {
        ShiftDir::Right => ((osr as nat) % pow2(n), (osr as nat) / pow2(n)),
        ShiftDir::Left => ((osr as nat) / pow2((32 - n) as nat), ((osr as nat) * pow2(n)) % pow2(32)),
    }
}

/// OUT of `n` bits (1 to 32) to X, Y, the ISR or nowhere, autopull off: the
/// bits `shifted_out` gives go to the destination (the ISR then counts `n`
/// bits), the OSR keeps what is left, its shift count grows by `n` (capped
/// at 63), and the other registers stay.
pub proof fn lemma_out_semantics(m: SmModel, cfg: Config, destn: shift::Destn, bit_count: u8, delay: u8, io: Io, gpio_in: u32, sm_id: u8)
    requires
        runs(m),
        !cfg.autopull,
        bit_count < 32,
        m.osr_count <= 63,
        destn == shift::Destn::X || destn == shift::Destn::Y || destn == shift::Destn::Isr || destn == shift::Destn::Null,
        pc_after(m.pc, cfg) is Some,
    ensures
        ({
            let r = spec_execute(m, cfg, Instr { instruction: Instruction::Out { destn, bit_count }, delay, side_set: None }, io, gpio_in, sm_id);
            let n: nat = if bit_count == 0 { 32 } else { bit_count as nat };
            let (data, rest) = shifted_out(m.osr, n, cfg.out_shiftdir);
            r matches Some((m2, io2)) && io2 == io && m2.tx == m.tx && m2.rx == m.rx && !m2.stalled
                && m2.pc == pc_after(m.pc, cfg)->0 && m2.osr as nat == rest && m2.osr_count == min63(m.osr_count + n) && {
                &&& destn == shift::Destn::X ==> m2.x as nat == data && m2.y == m.y && m2.isr == m.isr
                &&& destn == shift::Destn::Y ==> m2.y as nat == data && m2.x == m.x && m2.isr == m.isr
                &&& destn == shift::Destn::Isr ==> m2.isr as nat == data && m2.isr_count == n && m2.x == m.x && m2.y == m.y
                &&& destn == shift::Destn::Null ==> m2.x == m.x && m2.y == m.y && m2.isr == m.isr
            }
        }),
{
    let n: nat = if bit_count == 0 { 32 } else { bit_count as nat };
    let osr = m.osr;
    lemma2_to64();
    lemma_pow2_pos(n);
    lemma_pow2_pos((32 - n) as nat);
    lemma_pow2_adds(n, (32 - n) as nat);
    let p = pow2(n);
    let q = pow2((32 - n) as nat);
    match cfg.out_shiftdir {
        ShiftDir::Right => {
            lemma_mask_is_mod(osr, n);
            assert((osr as nat) / p <= osr as nat) by (nonlinear_arith)
                requires
                    p > 0,
            ;
        },
        ShiftDir::Left => {
            let y = (osr as nat) / q;
            assert(y < p) by (nonlinear_arith)
                requires
                    (osr as nat) < q * p,
                    q > 0,
                    y == (osr as nat) / q,
            ;
            assert(y <= osr as nat) by (nonlinear_arith)
                requires
                    q > 0,
                    y == (osr as nat) / q,
            ;
            let yu = y as u32;
            lemma_mask_is_mod(yu, n);
            lemma_small_mod(y, p);
            assert(((osr as nat) * p) % pow2(32) < pow2(32));
        },
    }
}

} // verus!
