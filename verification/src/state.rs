use vstd::prelude::*;
use vstd::arithmetic::power2::{pow2, lemma2_to64, lemma_pow2_pos};
use vstd::bits::{
    lemma_u32_shl_is_mul, lemma_u32_shr_is_div, lemma_u64_shl_is_mul, lemma_u64_shr_is_div,
    lemma_u32_low_bits_mask_is_mod, lemma_u8_shr_is_div, low_bits_mask,
};

use crate::instr::{Instr, Instruction};
use std::collections::VecDeque;

pub mod model;
mod machine;
mod block;
mod decode;
pub mod encoding;
pub mod laws;
pub mod render;
pub mod semantics;

pub use self::decode::{decode_to_instr, delay_field, instr_from_pio, pio_decoded, spec_instr_from_pio, PioOperands};

pub use self::model::{BlockModel, Effect, Io, SmModel};

verus! {

/// What one clock step of the block left in the FIFOs and IRQ flags.
#[derive(Clone, Debug, PartialEq, Eq, Structural)]
pub struct StepEvent {
    pub rx_pushed: Option<u32>,
    pub tx_popped: Option<u32>,
    pub irq_changed: Option<u8>,
}

/// A configuration value that must lie in `[MIN, MAX]`.
#[derive(Clone, Copy, Debug)]
pub struct Range<const MIN: u8, const MAX: u8>(pub u8);

impl<const MIN: u8, const MAX: u8> Range<MIN, MAX> {
    pub open spec fn wf(&self) -> bool {
        MIN <= self.0 <= MAX
    }

    pub(crate) fn new(val: u8) -> (r: Self)
        requires
            MIN <= val <= MAX,
        ensures
            r.0 == val,
            r.wf(),
    {
        Self(val)
    }

    pub(crate) fn get(self) -> (r: u8)
        ensures
            r == self.0,
    {
        self.0
    }
}

pub type PinRange = Range<0, 31>;

/// Entries of a FIFO that is not joined with the other one.
pub const FIFO_DEPTH: usize = 4;

/// A bounded queue of words (four entries, eight when joined, none when the
/// other FIFO took its entries).
#[derive(Debug)]
pub struct Fifo {
    pub(crate) data: VecDeque<u32>,
    pub(crate) depth: usize,
}

impl Fifo {
    /// The words queued, oldest first.
    pub closed spec fn items(&self) -> Seq<u32> {
        self.data@
    }

    /// How many words the FIFO can hold.
    pub closed spec fn capacity(&self) -> nat {
        self.depth as nat
    }

    /// The FIFO holds no more than its capacity.
    pub open spec fn wf(&self) -> bool {
        self.items().len() <= self.capacity()
    }

    pub(crate) fn new(depth: usize) -> (r: Self)
        ensures
            r.items() == Seq::<u32>::empty(),
            r.capacity() == depth,
            r.wf(),
    {
        Self { data: VecDeque::with_capacity(depth), depth }
    }

    pub(crate) fn is_full(&self) -> (r: bool)
        ensures
            r == (self.items().len() >= self.capacity()),
    {
        self.data.len() >= self.depth
    }

    pub(crate) fn is_empty(&self) -> (r: bool)
        ensures
            r == (self.items().len() == 0),
    {
        self.data.len() == 0
    }

    /// Appends `val` unless the FIFO is full; says whether it did.
    pub(crate) fn push(&mut self, val: u32) -> (r: bool)
        ensures
            r == (old(self).items().len() < old(self).capacity()),
            r ==> final(self).items() == old(self).items().push(val),
            !r ==> final(self).items() == old(self).items(),
            final(self).capacity() == old(self).capacity(),
    {
        if self.is_full() {
            return false;
        }
        self.data.push_back(val);
        true
    }

    /// Removes and returns the oldest word, if any.
    pub(crate) fn pop(&mut self) -> (r: Option<u32>)
        ensures
            old(self).items().len() == 0 ==> r is None && final(self).items() == old(self).items(),
            old(self).items().len() > 0 ==> r == Some(old(self).items()[0])
                && final(self).items() == old(self).items().drop_first(),
            final(self).capacity() == old(self).capacity(),
    {
        self.data.pop_front()
    }

    pub(crate) fn len(&self) -> (r: usize)
        ensures
            r == self.items().len(),
    {
        self.data.len()
    }

    /// The oldest word, if any.
    pub fn peek_front(&self) -> (r: Option<u32>)
        ensures
            r == (if self.items().len() > 0 { Some(self.items()[0]) } else { None::<u32> }),
    {
        if self.data.len() == 0 {
            None
        } else {
            Some(self.data[0])
        }
    }

    /// The newest word, if any.
    pub fn peek_back(&self) -> (r: Option<u32>)
        ensures
            r == (if self.items().len() > 0 { Some(self.items().last()) } else { None::<u32> }),
    {
        let n = self.data.len();
        if n == 0 {
            None
        } else {
            Some(self.data[n - 1])
        }
    }
}

/// Direction in which a shift register shifts.
#[derive(Clone, Copy, Debug, PartialEq, Eq, Structural)]
pub enum ShiftDir {
    Left,
    Right,
}

/// Which FIFO level the MOV STATUS source compares.
#[derive(Clone, Copy, Debug, PartialEq, Eq, Structural)]
pub enum StatusSel {
    TxLevel,
    RxLevel,
}

/// The configuration registers of one state machine (pin mapping, execution
/// control and shift control).
#[derive(Clone, Copy, Debug)]
pub struct Config {
    pub out_base: PinRange,
    pub out_count: Range<0, 32>,
    pub set_base: PinRange,
    pub set_count: Range<0, 5>,
    pub in_base: PinRange,
    pub sideset_base: PinRange,
    pub sideset_count: Range<0, 5>,
    pub sideset_en: bool,
    pub side_pindir: bool,
    pub jmp_pin: u8,
    pub wrap_top: u8,
    pub wrap_bottom: u8,
    pub status_sel: StatusSel,
    pub status_n: Range<0, 15>,
    pub pull_thresh: Range<0, 31>,
    pub push_thresh: Range<0, 31>,
    pub out_shiftdir: ShiftDir,
    pub in_shiftdir: ShiftDir,
    pub autopull: bool,
    pub autopush: bool,
    pub fjoin_rx: bool,
    pub fjoin_tx: bool,
}

impl Config {
    /// Every field lies in the range its register allows.
    pub open spec fn wf(&self) -> bool {
        &&& self.out_base.wf()
        &&& self.out_count.wf()
        &&& self.set_base.wf()
        &&& self.set_count.wf()
        &&& self.in_base.wf()
        &&& self.sideset_base.wf()
        &&& self.sideset_count.wf()
        &&& self.jmp_pin < 32
        &&& self.wrap_top < 32
        &&& self.wrap_bottom < 32
        &&& self.status_n.wf()
        &&& self.pull_thresh.wf()
        &&& self.push_thresh.wf()
    }

    /// The reset configuration.
    pub open spec fn spec_new() -> Config {
        Config {
            out_base: Range(0),
            out_count: Range(0),
            set_base: Range(0),
            set_count: Range(5),
            in_base: Range(0),
            sideset_base: Range(0),
            sideset_count: Range(0),
            sideset_en: false,
            side_pindir: false,
            jmp_pin: 0,
            wrap_top: 0x1f,
            wrap_bottom: 0,
            status_sel: StatusSel::TxLevel,
            status_n: Range(0),
            pull_thresh: Range(0),
            push_thresh: Range(0),
            out_shiftdir: ShiftDir::Right,
            in_shiftdir: ShiftDir::Right,
            autopull: false,
            autopush: false,
            fjoin_rx: false,
            fjoin_tx: false,
        }
    }

    pub(crate) fn new() -> (r: Self)
        ensures
            r == Config::spec_new(),
            r.wf(),
    {
        Self {
            out_base: PinRange::new(0),
            out_count: Range::new(0),
            set_base: PinRange::new(0),
            set_count: Range::new(5),
            in_base: PinRange::new(0),
            sideset_base: PinRange::new(0),
            sideset_count: Range::new(0),
            sideset_en: false,
            side_pindir: false,
            jmp_pin: 0,
            wrap_top: 0x1f,
            wrap_bottom: 0,
            status_sel: StatusSel::TxLevel,
            status_n: Range::new(0),
            pull_thresh: Range::new(0),
            push_thresh: Range::new(0),
            out_shiftdir: ShiftDir::Right,
            in_shiftdir: ShiftDir::Right,
            autopull: false,
            autopush: false,
            fjoin_rx: false,
            fjoin_tx: false,
        }
    }

    /// The pull threshold, with 0 standing for 32.
    pub(crate) fn calc_pull_thresh(&self) -> (r: u8)
        ensures
            r == model::pull_threshold(*self),
    {
        if self.pull_thresh.get() == 0 {
            32
        } else {
            self.pull_thresh.get()
        }
    }

    /// The push threshold, with 0 standing for 32.
    pub(crate) fn calc_push_thresh(&self) -> (r: u8)
        ensures
            r == model::push_threshold(*self),
    {
        if self.push_thresh.get() == 0 {
            32
        } else {
            self.push_thresh.get()
        }
    }
}

/// The registers of one state machine.
#[derive(Debug)]
pub struct State {
    pub pc: u8,
    pub x: u32,
    pub y: u32,
    pub isr: u32,
    pub osr: u32,
    pub isr_shift_count: u8,
    pub osr_shift_count: u8,
    pub tx_fifo: Fifo,
    pub rx_fifo: Fifo,
    pub delay_counter: u8,
    pub stalled: bool,
    pub irq_stalled: bool,
}

impl State {
    /// The registers as plain values.
    pub open spec fn model(&self) -> SmModel {
        SmModel {
            pc: self.pc,
            x: self.x,
            y: self.y,
            isr: self.isr,
            osr: self.osr,
            isr_count: self.isr_shift_count,
            osr_count: self.osr_shift_count,
            tx: self.tx_fifo.items(),
            tx_depth: self.tx_fifo.capacity(),
            rx: self.rx_fifo.items(),
            rx_depth: self.rx_fifo.capacity(),
            delay: self.delay_counter,
            stalled: self.stalled,
            irq_stalled: self.irq_stalled,
        }
    }

    /// The program counter addresses instruction memory and the FIFOs hold
    /// no more than their capacity.
    pub open spec fn wf(&self) -> bool {
        self.model().wf()
    }

    /// The registers after reset.
    pub open spec fn spec_new() -> SmModel {
        SmModel {
            pc: 0,
            x: 0,
            y: 0,
            isr: 0,
            osr: 0,
            isr_count: 0,
            osr_count: 32,
            tx: Seq::empty(),
            tx_depth: FIFO_DEPTH as nat,
            rx: Seq::empty(),
            rx_depth: FIFO_DEPTH as nat,
            delay: 0,
            stalled: false,
            irq_stalled: false,
        }
    }

    pub(crate) fn new() -> (r: Self)
        ensures
            r.model() == State::spec_new(),
            r.wf(),
    {
        Self {
            pc: 0,
            x: 0,
            y: 0,
            osr: 0,
            isr: 0,
            osr_shift_count: 32,
            isr_shift_count: 0,
            tx_fifo: Fifo::new(FIFO_DEPTH),
            rx_fifo: Fifo::new(FIFO_DEPTH),
            delay_counter: 0,
            stalled: false,
            irq_stalled: false,
        }
    }
}

/// One of the four state machines of a block.
#[derive(Debug)]
pub struct StateMachine {
    pub state: State,
    pub config: Config,
    pub enabled: bool,
}

/// A PIO block: shared instruction memory, four state machines, the GPIO
/// registers they drive and read, and the IRQ flags.
#[derive(Debug)]
pub struct Block {
    pub instr_mem: [Option<Instr>; 32],
    pub sms: [StateMachine; 4],
    pub gpio_out: u32,
    pub gpio_dir: u32,
    pub gpio_in: u32,
    pub irq_flags: u8,
    pub cycle: u64,
}

impl Block {
    /// The block as plain values.
    pub open spec fn model(&self) -> BlockModel {
        BlockModel {
            instr_mem: self.instr_mem@,
            sms: Seq::new(4, |i: int| self.sms@[i].state.model()),
            configs: Seq::new(4, |i: int| self.sms@[i].config),
            enabled: Seq::new(4, |i: int| self.sms@[i].enabled),
            gpio_out: self.gpio_out,
            gpio_dir: self.gpio_dir,
            gpio_in: self.gpio_in,
            irq: self.irq_flags,
            cycle: self.cycle,
        }
    }

    /// Every instruction in memory and every state machine is well formed.
    pub open spec fn wf(&self) -> bool {
        self.model().wf()
    }
}

/// How to set up state machine 0 for a run: the assembled program and the
/// configuration registers, the initial X and Y, and words to preload into
/// the TX FIFO.
#[derive(Clone, Debug, Default)]
pub struct Sm0Setup {
    pub instructions: Vec<u16>,
    pub origin: u8,
    pub wrap_top: u8,
    pub wrap_bottom: u8,
    pub in_base: u8,
    pub out_base: u8,
    pub out_count: u8,
    pub set_base: u8,
    pub set_count: u8,
    pub jmp_pin: u8,
    pub pull_thresh: u8,
    pub push_thresh: u8,
    pub out_shiftdir_right: bool,
    pub in_shiftdir_right: bool,
    pub autopull: bool,
    pub autopush: bool,
    pub fjoin_tx: bool,
    pub fjoin_rx: bool,
    pub x_init: u32,
    pub y_init: u32,
    pub tx_seed: Vec<u32>,
}

impl StateMachine {
    pub open spec fn wf(&self) -> bool {
        self.state.wf() && self.config.wf()
    }
}


/// The mask with the low `n` bits set.
pub open spec fn spec_to_mask(n: nat) -> nat {
    (pow2(n) - 1) as nat
}

/// Bit `i` of `x`.
pub open spec fn bit_of(x: nat, i: nat) -> bool {
    (x / pow2(i)) % 2 == 1
}

/// `x` rotated right by `s` places within a 32-bit word.
pub open spec fn spec_rotate_right(x: nat, s: nat) -> nat {
    x / pow2(s) + (x % pow2(s)) * pow2((32 - s) as nat)
}

/// `x` shifted left by `n`, keeping the low 32 bits (a shift by 32 gives 0).
pub open spec fn spec_shl(x: nat, n: nat) -> nat {
    (x * pow2(n)) % pow2(32)
}

/// `x` shifted right by `n` (a shift by 32 gives 0).
pub open spec fn spec_shr(x: nat, n: nat) -> nat {
    x / pow2(n)
}

/// The IRQ flag that an index field selects: with bit 4 set, the low two bits
/// are taken relative to the state machine number (modulo 4) and bit 2 is kept;
/// otherwise the low three bits name the flag directly.
pub open spec fn spec_irq_index(index: nat, sm_id: nat) -> nat {
    if (index / 16) % 2 == 1 {
        ((index / 4) % 2) * 4 + (index + sm_id) % 4
    } else {
        index % 8
    }
}

/// `r` holds the bits of `x` in the opposite order.
pub open spec fn reverses(r: u32, x: u32) -> bool {
    forall|i: nat| i < 32 ==> #[trigger] bit_of(r as nat, i) == bit_of(x as nat, (31 - i) as nat)
}

/// The 32-bit word whose bit `i` is bit `31 - i` of `x`.
pub open spec fn spec_reverse(x: u32) -> u32 {
    choose|r: u32| #[trigger] reverses(r, x)
}

/// Bit `i` of `x`, read with a shift and a mask.
pub open spec fn bit32(x: u32, i: u32) -> bool {
    (x >> i) & 1 == 1
}

/// A mask with the low `val` bits set.
pub fn to_mask(val: u8) -> (r: u32)
    requires
        val <= 32,
    ensures
        r == spec_to_mask(val as nat),
{
    proof {
        lemma2_to64();
    }
    if val == 32 {
        u32::MAX
    } else {
        proof {
            lemma_u32_shl_is_mul(1, val as u32);
            lemma_pow2_pos(val as nat);
            vstd::arithmetic::power2::lemma_pow2_strictly_increases(val as nat, 32);
        }
        (1u32 << val) - 1
    }
}


/// The low five bits of a byte are below 32.
pub proof fn lemma_low_five(v: u8)
    ensures
        v & 0x1f < 32,
        v & 0x1f == v % 32,
{
    assert(v & 0x1f < 32 && v & 0x1f == v % 32) by (bit_vector);
}

/// Reading bit `i` with a shift and a mask gives the arithmetic bit.
pub proof fn lemma_bit32_is_bit_of(x: u32, i: u32)
    requires
        i < 32,
    ensures
        bit32(x, i) == bit_of(x as nat, i as nat),
{
    lemma_u32_shr_is_div(x, i);
    let v = x >> i;
    assert((v & 1 == 1) == (v % 2 == 1)) by (bit_vector);
}

/// Two numbers below `2^32` whose bits from `k` upwards agree have the same
/// quotient by `2^k`.
proof fn lemma_high_bits_agree(a: nat, b: nat, k: nat)
    requires
        a < pow2(32),
        b < pow2(32),
        k <= 32,
        forall|i: nat| k <= i < 32 ==> #[trigger] bit_of(a, i) == bit_of(b, i),
    ensures
        a / pow2(k) == b / pow2(k),
    decreases 32 - k,
{
    lemma_pow2_pos(k);
    if k == 32 {
        assert(a / pow2(32) == 0 && b / pow2(32) == 0) by (nonlinear_arith)
            requires
                a < pow2(32),
                b < pow2(32),
        ;
    } else {
        lemma_high_bits_agree(a, b, k + 1);
        vstd::arithmetic::power2::lemma_pow2_unfold(k + 1);
        vstd::arithmetic::div_mod::lemma_div_denominator(a as int, pow2(k) as int, 2);
        vstd::arithmetic::div_mod::lemma_div_denominator(b as int, pow2(k) as int, 2);
        assert(bit_of(a, k) == bit_of(b, k));
        let qa = a / pow2(k);
        let qb = b / pow2(k);
        vstd::arithmetic::div_mod::lemma_fundamental_div_mod(qa as int, 2);
        vstd::arithmetic::div_mod::lemma_fundamental_div_mod(qb as int, 2);
        assert(qa / 2 == qb / 2);
        assert(qa % 2 == qb % 2);
    }
}

/// Two words with the same 32 bits are equal.
pub proof fn lemma_eq_from_bit_of(a: u32, b: u32)
    requires
        forall|i: nat| i < 32 ==> #[trigger] bit_of(a as nat, i) == bit_of(b as nat, i),
    ensures
        a == b,
{
    lemma2_to64();
    lemma_high_bits_agree(a as nat, b as nat, 0);
}

proof fn lemma_rotate_parts(x: u32, s: u32, t: u32, m: u32)
    by (bit_vector)
    requires
        0 < s < 32,
        t == 32 - s,
        m == (1u32 << s) - 1u32,
    ensures
        ((x >> s) | ((x & m) << t)) == (x >> s) + ((x & m) << t),
        (x & m) <= (0xffff_ffffu32 >> t),
{
}

/// Rotating by no places or by a whole word leaves the word as it is.
pub proof fn lemma_rotate_whole(x: u32)
    ensures
        spec_rotate_right(x as nat, 0) == x,
        spec_rotate_right(x as nat, 32) == x,
{
    lemma2_to64();
    let n = x as nat;
    assert(n / 1 == n && n % 1 == 0) by (nonlinear_arith);
    assert(n / 0x1_0000_0000 == 0 && n % 0x1_0000_0000 == n) by (nonlinear_arith)
        requires
            n < 0x1_0000_0000,
    ;
    assert(spec_rotate_right(n, 0) == n / 1 + (n % 1) * 0x1_0000_0000);
    assert(spec_rotate_right(n, 32) == n / 0x1_0000_0000 + (n % 0x1_0000_0000) * 1);
}

/// `x` rotated right by `shift` places (by 0 or 32 places, `x` itself).
pub fn wrap_shiftr(x: u32, shift: u8) -> (r: u32)
    requires
        shift <= 32,
    ensures
        r == spec_rotate_right(x as nat, shift as nat),
{
    if shift == 0 || shift == 32 {
        proof {
            lemma_rotate_whole(x);
        }
        return x;
    }
    let m = to_mask(shift);
    let lift = (x & m) << (32 - shift);
    let r = (x >> shift) | lift;
    proof {
        let s = shift as u32;
        lemma2_to64();
        lemma_pow2_pos(s as nat);
        vstd::arithmetic::power2::lemma_pow2_strictly_increases(s as nat, 32);
        lemma_u32_shl_is_mul(1, s);
        assert(m == (1u32 << s) - 1u32);
        lemma_rotate_parts(x, s, (32 - s) as u32, m);
        lemma_u32_shr_is_div(x, s);
        lemma_u32_low_bits_mask_is_mod(x, s as nat);
        assert(low_bits_mask(s as nat) as u32 == m);
        vstd::bits::lemma_u32_mul_pow2_le_max_iff_max_shr(x & m, (32 - s) as u32, 0xffff_ffffu32);
        lemma_u32_shl_is_mul(x & m, (32 - s) as u32);
    }
    r
}

proof fn lemma_reverse_step(a: u32, b: u32, j: u32, jm: u32)
    by (bit_vector)
    requires
        b <= 1,
        1 <= j < 32,
        jm == j - 1,
    ensures
        (((a << 1u32) | b) >> j) & 1 == (a >> jm) & 1,
        (((a << 1u32) | b) >> 0u32) & 1 == b,
{
}

proof fn lemma_shift_step(x0: u32, k: u32, k1: u32)
    by (bit_vector)
    requires
        k < 32,
        k1 == k + 1,
    ensures
        (x0 >> k) >> 1u32 == x0 >> k1,
        (x0 >> k) & 1 <= 1,
        ((x0 >> k) & 1) == (x0 >> k) & 1,
{
}

/// `x` with its 32 bits in the opposite order.
pub fn reverse(x: u32) -> (r: u32)
    ensures
        reverses(r, x),
        r == spec_reverse(x),
{
    let x0 = x;
    let mut x = x;
    let mut ans: u32 = 0;
    let mut k: u32 = 0;
    assert(x0 >> 0u32 == x0) by (bit_vector);
    while k < 32
        invariant
            k <= 32,
            k < 32 ==> x == x0 >> k,
            forall|j: u32| j < k ==> #[trigger] bit32(ans, j) == bit32(x0, (k - 1 - j) as u32),
        decreases 32 - k,
    {
        let b = x & 0x1;
        proof {
            lemma_shift_step(x0, k, (k + 1) as u32);
        }
        let next = ans << 1 | b;
        proof {
            assert forall|j: u32| j < k + 1 implies #[trigger] bit32(next, j) == bit32(x0, (k - j) as u32) by {
                if j >= 1 { lemma_reverse_step(ans, b, j, (j - 1) as u32); }
                if j == 0 {
                    lemma_reverse_step(ans, b, 1, 0);
                    assert(b == (x0 >> k) & 1);
                } else {
                    assert(bit32(ans, (j - 1) as u32) == bit32(x0, (k - 1 - (j - 1)) as u32));
                }
            }
        }
        ans = next;
        x = x >> 1;
        k = k + 1;
    }
    proof {
        assert forall|i: nat| i < 32 implies #[trigger] bit_of(ans as nat, i) == bit_of(x0 as nat, (31 - i) as nat) by {
            lemma_bit32_is_bit_of(ans, i as u32);
            lemma_bit32_is_bit_of(x0, (31 - i) as u32);
            assert(bit32(ans, i as u32) == bit32(x0, (31 - i) as u32));
        }
        assert(reverses(ans, x0));
        let c = spec_reverse(x0);
        assert(reverses(c, x0));
        assert forall|i: nat| i < 32 implies #[trigger] bit_of(ans as nat, i) == bit_of(c as nat, i) by {
            assert(bit_of(ans as nat, i) == bit_of(x0 as nat, (31 - i) as nat));
            assert(bit_of(c as nat, i) == bit_of(x0 as nat, (31 - i) as nat));
        }
        lemma_eq_from_bit_of(ans, c);
    }
    ans
}

/// Reversing the bits of a word twice gives the word back.
pub proof fn lemma_reverse_involution(x: u32)
    ensures
        spec_reverse(spec_reverse(x)) == x,
{
    let r = spec_reverse(x);
    lemma_reverse_exists(x);
    let rr = spec_reverse(r);
    lemma_reverse_exists(r);
    assert forall|i: nat| i < 32 implies #[trigger] bit_of(rr as nat, i) == bit_of(x as nat, i) by {
        assert(bit_of(rr as nat, i) == bit_of(r as nat, (31 - i) as nat));
        assert(bit_of(r as nat, (31 - i) as nat) == bit_of(x as nat, (31 - (31 - i)) as nat));
    }
    lemma_eq_from_bit_of(rr, x);
}

/// Every word has a bit reversal.
pub proof fn lemma_reverse_exists(x: u32)
    ensures
        reverses(spec_reverse(x), x),
{
    let r = reverse_witness(x);
    assert(reverses(r, x));
}

proof fn reverse_prefix(x: u32, k: u32) -> (ans: u32)
    requires
        k <= 32,
    ensures
        forall|j: u32| j < k ==> #[trigger] bit32(ans, j) == bit32(x, (k - 1 - j) as u32),
    decreases k,
{
    if k == 0 {
        0
    } else {
        let km = (k - 1) as u32;
        let a = reverse_prefix(x, km);
        let b = (x >> km) & 0x1;
        lemma_shift_step(x, km, k);
        let next = a << 1 | b;
        assert forall|j: u32| j < k implies #[trigger] bit32(next, j) == bit32(x, (k - 1 - j) as u32) by {
            if j >= 1 {
                lemma_reverse_step(a, b, j, (j - 1) as u32);
                assert(bit32(a, (j - 1) as u32) == bit32(x, (km - 1 - (j - 1)) as u32));
            } else {
                lemma_reverse_step(a, b, 1, 0);
            }
        }
        next
    }
}

proof fn reverse_witness(x: u32) -> (r: u32)
    ensures
        reverses(r, x),
{
    let ans = reverse_prefix(x, 32);
    assert forall|i: nat| i < 32 implies #[trigger] bit_of(ans as nat, i) == bit_of(x as nat, (31 - i) as nat) by {
        lemma_bit32_is_bit_of(ans, i as u32);
        lemma_bit32_is_bit_of(x, (31 - i) as u32);
        assert(bit32(ans, i as u32) == bit32(x, (31 - i) as u32));
    }
    ans
}

/// Bit `index` of `x`.
pub fn bit_at(x: u8, index: u8) -> (r: bool)
    requires
        index < 8,
    ensures
        r == bit_of(x as nat, index as nat),
{
    proof {
        lemma_u8_shr_is_div(x, index);
        let v = x >> index;
        assert((v & 1 == 1) == (v % 2 == 1)) by (bit_vector);
    }
    ((x >> index) & 0x1) == 1
}

/// The IRQ flag selected by an IRQ or WAIT index field for state machine `sm_id`.
pub fn calc_irq_index(index: u8, sm_id: u8) -> (r: u8)
    requires
        (index / 16) % 2 == 1 ==> index + sm_id < 256,
    ensures
        r == spec_irq_index(index as nat, sm_id as nat),
        r < 8,
{
    if index & 0x10 != 0 {
        assert((index / 16) % 2 == 1) by (bit_vector)
            requires
                index & 0x10 != 0;
        let r = (index & 0x04) | ((index + sm_id) & 0x03);
        let t = index + sm_id;
        assert(r == ((index / 4) % 2) * 4 + t % 4 && (index / 16) % 2 == 1 && r < 8) by (bit_vector)
            requires
                index & 0x10 != 0,
                r == (index & 0x04) | (t & 0x03);
        r
    } else {
        let r = index & 0x07;
        assert(r == index % 8 && (index / 16) % 2 == 0) by (bit_vector)
            requires
                index & 0x10 == 0,
                r == index & 0x07;
        r
    }
}

/// `x` shifted left by `n` places, low 32 bits kept; a shift by 32 gives 0.
pub fn sat_shl(x: u32, n: u8) -> (r: u32)
    requires
        n <= 32,
    ensures
        r == spec_shl(x as nat, n as nat),
{
    proof {
        lemma2_to64();
        let nn = n as u64;
        let xx = x as u64;
        assert(xx <= (0xffff_ffff_ffff_ffffu64 >> nn)) by (bit_vector)
            requires
                nn <= 32,
                xx <= 0xffff_ffffu64;
        vstd::bits::lemma_u64_mul_pow2_le_max_iff_max_shr(xx, nn, 0xffff_ffff_ffff_ffffu64);
        lemma_u64_shl_is_mul(xx, nn);
        let v = xx << nn;
        assert((v as u32) == v % 0x1_0000_0000) by (bit_vector);
    }
    ((x as u64) << n) as u32
}

/// `x` shifted right by `n` places; a shift by 32 gives 0.
pub fn sat_shr(x: u32, n: u8) -> (r: u32)
    requires
        n <= 32,
    ensures
        r == spec_shr(x as nat, n as nat),
{
    proof {
        lemma_u64_shr_is_div(x as u64, n as u64);
        lemma_pow2_pos(n as nat);
        vstd::arithmetic::div_mod::lemma_div_is_ordered_by_denominator(x as int, 1, pow2(n as nat) as int);
    }
    ((x as u64) >> n) as u32
}

} // verus!
