//! The emulator's state written out as text, for traces and debugging.
use vstd::prelude::*;
use super::{Block, Config, Fifo, ShiftDir, State, StateMachine};
use crate::instr::render::instr_text;
use crate::instr::Instr;
use crate::text::{dec_text, hex_text, push_dec, push_hex, push_str};

verus! {

/// A word as eight lower-case hexadecimal digits.
pub open spec fn hex8(w: u32) -> Seq<char> {
    hex_text(w as nat, 8)
}

/// A number below 100 in decimal, padded with a zero to two digits.
pub open spec fn dec2_text(n: nat) -> Seq<char> {
    if n < 10 { "0"@ + dec_text(n) } else { dec_text(n) }
}

/// The words of `items` as hexadecimal, separated by `, `.
pub open spec fn hex_list(items: Seq<u32>) -> Seq<char>
    decreases items.len(),
{
    if items.len() == 0 {
        Seq::empty()
    } else if items.len() == 1 {
        hex8(items[0])
    } else {
        hex_list(items.drop_last()) + ", "@ + hex8(items.last())
    }
}

/// A FIFO as `[empty]`, or as its words followed by `(len/capacity)`.
pub open spec fn fifo_text(items: Seq<u32>, capacity: nat) -> Seq<char> {
    if items.len() == 0 {
        "[empty]"@
    } else {
        "["@ + hex_list(items) + "] ("@ + dec_text(items.len()) + "/"@ + dec_text(capacity) + ")"@
    }
}

/// A shift register as `label` and its value in hexadecimal, followed by
/// its shift count in brackets.
pub open spec fn shift_reg_text(label: Seq<char>, v: u32, count: u8) -> Seq<char> {
    label + hex8(v) + "("@ + dec_text(count as nat) + ")"@
}

/// The registers of a state machine on one line.
pub open spec fn regs_text(s: State) -> Seq<char> {
    "pc="@ + dec2_text(s.pc as nat) + " x="@ + hex8(s.x) + " y="@ + hex8(s.y)
        + shift_reg_text(" osr="@, s.osr, s.osr_shift_count)
        + shift_reg_text(" isr="@, s.isr, s.isr_shift_count)
}

/// A state machine's registers on one line, its FIFOs on the next.
pub open spec fn state_text(s: State) -> Seq<char> {
    regs_text(s) + "\n"@
        + "    tx: "@ + fifo_text(s.tx_fifo.items(), s.tx_fifo.capacity())
        + "  rx: "@ + fifo_text(s.rx_fifo.items(), s.rx_fifo.capacity())
}

pub open spec fn shift_dir_text(d: ShiftDir) -> Seq<char> {
    match d {
        ShiftDir::Left => "L"@,
        ShiftDir::Right => "R"@,
    }
}

pub open spec fn on_off(b: bool) -> Seq<char> {
    if b { "on"@ } else { "off"@ }
}

/// The configuration on three lines: wrap and JMP pin, pin mapping, shift control.
pub open spec fn config_text(c: Config) -> Seq<char> {
    "  wrap="@ + dec_text(c.wrap_bottom as nat) + ".."@ + dec_text(c.wrap_top as nat)
        + " jmp_pin="@ + dec_text(c.jmp_pin as nat) + "\n"@
        + "  pins: out="@ + dec_text(c.out_base.0 as nat) + "+"@ + dec_text(c.out_count.0 as nat)
        + " set="@ + dec_text(c.set_base.0 as nat) + "+"@ + dec_text(c.set_count.0 as nat)
        + " in="@ + dec_text(c.in_base.0 as nat)
        + " sideset="@ + dec_text(c.sideset_base.0 as nat) + "+"@ + dec_text(c.sideset_count.0 as nat) + "\n"@
        + "  shift: out="@ + shift_dir_text(c.out_shiftdir) + " in="@ + shift_dir_text(c.in_shiftdir)
        + " autopull="@ + on_off(c.autopull) + " autopush="@ + on_off(c.autopush)
        + " pull_thresh="@ + dec_text(c.pull_thresh.0 as nat) + " push_thresh="@ + dec_text(c.push_thresh.0 as nat)
}

/// A state machine as `[off]`, or as `[on]` followed by its registers.
pub open spec fn sm_text(sm: StateMachine) -> Seq<char> {
    if sm.enabled { "[on]  "@ + state_text(sm.state) } else { "[off]"@ }
}

/// The lines `smN: ...` for the state machines `0..k`.
pub open spec fn sms_text(sms: Seq<StateMachine>, k: nat) -> Seq<char>
    decreases k,
{
    if k == 0 {
        Seq::empty()
    } else {
        sms_text(sms, (k - 1) as nat) + "sm"@ + dec_text((k - 1) as nat) + ": "@ + sm_text(sms[k - 1]) + "\n"@
    }
}

/// The block: a heading with the cycle count, the GPIO registers, then one
/// line per state machine.
pub open spec fn block_text(b: Block) -> Seq<char> {
    "=== PIO Block (cycle "@ + dec_text(b.cycle as nat) + ") ===\n"@
        + "gpio: out="@ + hex8(b.gpio_out) + " dir="@ + hex8(b.gpio_dir) + " in="@ + hex8(b.gpio_in) + "\n"@
        + sms_text(b.sms@, 4)
}

/// The lines `  NN: instruction` for the occupied slots among `0..k`.
pub open spec fn program_lines(mem: Seq<Option<Instr>>, k: nat) -> Seq<char>
    decreases k,
{
    if k == 0 {
        Seq::empty()
    } else {
        program_lines(mem, (k - 1) as nat) + match mem[k - 1] {
            Some(instr) => "  "@ + dec2_text((k - 1) as nat) + ": "@ + instr_text(instr) + "\n"@,
            None => Seq::empty(),
        }
    }
}

/// Appends `n` (below 100) in decimal, padded with a zero to two digits.
fn push_dec2(s: &mut String, n: u64)
    requires
        n < 100,
    ensures
        final(s)@ == old(s)@ + dec2_text(n as nat),
{
    if n < 10 {
        push_str(s, "0");
    }
    push_dec(s, n);
    proof {
        if n < 10 {
            assert(final(s)@ =~= old(s)@ + ("0"@ + dec_text(n as nat)));
        }
    }
}

impl Fifo {
    /// Appends the FIFO as `[empty]`, or as `[w0, w1, ...] (len/capacity)`
    /// with each word in eight hexadecimal digits.
    pub fn write_text(&self, s: &mut String)
        ensures
            final(s)@ == old(s)@ + fifo_text(self.items(), self.capacity()),
    {
        let ghost s0 = s@;
        let n = self.data.len();
        if n == 0 {
            push_str(s, "[empty]");
            return;
        }
        push_str(s, "[");
        let ghost s1 = s@;
        let mut i: usize = 0;
        while i < n
            invariant
                i <= n,
                n == self.items().len(),
                n > 0,
                s@ == s1 + hex_list(self.items().take(i as int)),
            decreases n - i,
        {
            let ghost before = s@;
            if i > 0 {
                push_str(s, ", ");
            }
            push_hex(s, self.data[i], 8);
            proof {
                let t = self.items().take(i + 1);
                assert(t.drop_last() =~= self.items().take(i as int));
                assert(t.last() == self.items()[i as int]);
                if i == 0 {
                    assert(self.items().take(0) =~= Seq::<u32>::empty());
                    assert(s@ =~= s1 + hex_list(t));
                } else {
                    assert(s@ =~= s1 + hex_list(t));
                }
            }
            i = i + 1;
        }
        push_str(s, "] (");
        push_dec(s, n as u64);
        push_str(s, "/");
        push_dec(s, self.depth as u64);
        push_str(s, ")");
        proof {
            assert(self.items().take(n as int) =~= self.items());
            assert(s@ =~= s0 + fifo_text(self.items(), self.capacity()));
        }
    }

    /// The FIFO as text; see `write_text`.
    pub fn to_string(&self) -> (r: String)
        ensures
            r@ == fifo_text(self.items(), self.capacity()),
    {
        let mut s = String::new();
        self.write_text(&mut s);
        proof {
            assert(s@ =~= fifo_text(self.items(), self.capacity()));
        }
        s
    }
}

fn push_shift_reg(s: &mut String, label: &str, v: u32, count: u8)
    ensures
        final(s)@ == old(s)@ + shift_reg_text(label@, v, count),
{
    let ghost s0 = s@;
    push_str(s, label);
    push_hex(s, v, 8);
    push_str(s, "(");
    push_dec(s, count as u64);
    push_str(s, ")");
    proof {
        assert(s@ =~= s0 + shift_reg_text(label@, v, count));
    }
}

impl State {
    fn write_regs(&self, s: &mut String)
        requires
            self.pc < 100,
        ensures
            final(s)@ == old(s)@ + regs_text(*self),
    {
        let ghost s0 = s@;
        push_str(s, "pc=");
        push_dec2(s, self.pc as u64);
        push_str(s, " x=");
        push_hex(s, self.x, 8);
        push_str(s, " y=");
        push_hex(s, self.y, 8);
        let ghost s1 = s@;
        push_shift_reg(s, " osr=", self.osr, self.osr_shift_count);
        push_shift_reg(s, " isr=", self.isr, self.isr_shift_count);
        proof {
            assert(s1 =~= s0 + ("pc="@ + dec2_text(self.pc as nat) + " x="@ + hex8(self.x) + " y="@ + hex8(self.y)));
            assert(s@ =~= s0 + regs_text(*self));
        }
    }

    /// Appends the registers (`pc=NN x=... y=... osr=...(count) isr=...(count)`)
    /// and, on a second line, the TX and RX FIFOs.
    pub fn write_text(&self, s: &mut String)
        requires
            self.pc < 100,
        ensures
            final(s)@ == old(s)@ + state_text(*self),
    {
        let ghost s0 = s@;
        self.write_regs(s);
        push_str(s, "\n");
        push_str(s, "    tx: ");
        self.tx_fifo.write_text(s);
        push_str(s, "  rx: ");
        self.rx_fifo.write_text(s);
        proof {
            assert(s@ =~= s0 + state_text(*self));
        }
    }

    /// The registers and FIFOs as text; see `write_text`.
    pub fn to_string(&self) -> (r: String)
        requires
            self.pc < 100,
        ensures
            r@ == state_text(*self),
    {
        let mut s = String::new();
        self.write_text(&mut s);
        proof {
            assert(s@ =~= state_text(*self));
        }
        s
    }
}

impl ShiftDir {
    /// `L` or `R`.
    pub fn to_string(&self) -> (r: String)
        ensures
            r@ == shift_dir_text(*self),
    {
        let mut s = String::new();
        push_str(&mut s, shift_dir_str(*self));
        proof {
            assert(s@ =~= shift_dir_text(*self));
        }
        s
    }
}

fn on_off_str(b: bool) -> (r: &'static str)
    ensures
        r@ == on_off(b),
{
    if b { "on" } else { "off" }
}

fn shift_dir_str(d: ShiftDir) -> (r: &'static str)
    ensures
        r@ == shift_dir_text(d),
{
    match d {
        ShiftDir::Left => "L",
        ShiftDir::Right => "R",
    }
}

impl Config {
    /// The configuration on three lines: the wrap range and JMP pin, the pin
    /// mapping, and the shift control.
    pub fn to_string(&self) -> (r: String)
        ensures
            r@ == config_text(*self),
    {
        let mut s = String::new();
        push_str(&mut s, "  wrap=");
        push_dec(&mut s, self.wrap_bottom as u64);
        push_str(&mut s, "..");
        push_dec(&mut s, self.wrap_top as u64);
        push_str(&mut s, " jmp_pin=");
        push_dec(&mut s, self.jmp_pin as u64);
        push_str(&mut s, "\n");
        push_str(&mut s, "  pins: out=");
        push_dec(&mut s, self.out_base.0 as u64);
        push_str(&mut s, "+");
        push_dec(&mut s, self.out_count.0 as u64);
        push_str(&mut s, " set=");
        push_dec(&mut s, self.set_base.0 as u64);
        push_str(&mut s, "+");
        push_dec(&mut s, self.set_count.0 as u64);
        push_str(&mut s, " in=");
        push_dec(&mut s, self.in_base.0 as u64);
        push_str(&mut s, " sideset=");
        push_dec(&mut s, self.sideset_base.0 as u64);
        push_str(&mut s, "+");
        push_dec(&mut s, self.sideset_count.0 as u64);
        push_str(&mut s, "\n");
        push_str(&mut s, "  shift: out=");
        push_str(&mut s, shift_dir_str(self.out_shiftdir));
        push_str(&mut s, " in=");
        push_str(&mut s, shift_dir_str(self.in_shiftdir));
        push_str(&mut s, " autopull=");
        push_str(&mut s, on_off_str(self.autopull));
        push_str(&mut s, " autopush=");
        push_str(&mut s, on_off_str(self.autopush));
        push_str(&mut s, " pull_thresh=");
        push_dec(&mut s, self.pull_thresh.0 as u64);
        push_str(&mut s, " push_thresh=");
        push_dec(&mut s, self.push_thresh.0 as u64);
        proof {
            assert(s@ =~= config_text(*self));
        }
        s
    }
}

impl StateMachine {
    /// Appends `[off]`, or `[on]` and the registers.
    pub fn write_text(&self, s: &mut String)
        requires
            self.state.pc < 100,
        ensures
            final(s)@ == old(s)@ + sm_text(*self),
    {
        let ghost s0 = s@;
        if self.enabled {
            push_str(s, "[on]  ");
            self.state.write_text(s);
        } else {
            push_str(s, "[off]");
        }
        proof {
            assert(s@ =~= s0 + sm_text(*self));
        }
    }

    /// The state machine as text; see `write_text`.
    pub fn to_string(&self) -> (r: String)
        requires
            self.state.pc < 100,
        ensures
            r@ == sm_text(*self),
    {
        let mut s = String::new();
        self.write_text(&mut s);
        proof {
            assert(s@ =~= sm_text(*self));
        }
        s
    }
}

impl Block {
    /// The block as text: a heading with the cycle count, the GPIO registers,
    /// then a line `smN: ...` per state machine.
    pub fn to_string(&self) -> (r: String)
        requires
            self.wf(),
        ensures
            r@ == block_text(*self),
    {
        let mut s = String::new();
        push_str(&mut s, "=== PIO Block (cycle ");
        push_dec(&mut s, self.cycle);
        push_str(&mut s, ") ===\n");
        push_str(&mut s, "gpio: out=");
        push_hex(&mut s, self.gpio_out, 8);
        push_str(&mut s, " dir=");
        push_hex(&mut s, self.gpio_dir, 8);
        push_str(&mut s, " in=");
        push_hex(&mut s, self.gpio_in, 8);
        push_str(&mut s, "\n");
        let ghost head = s@;
        let mut i: usize = 0;
        while i < 4
            invariant
                i <= 4,
                self.wf(),
                s@ == head + sms_text(self.sms@, i as nat),
            decreases 4 - i,
        {
            proof {
                assert(self.model().sms[i as int].wf());
            }
            push_str(&mut s, "sm");
            push_dec(&mut s, i as u64);
            push_str(&mut s, ": ");
            self.sms[i].write_text(&mut s);
            push_str(&mut s, "\n");
            proof {
                assert(s@ =~= head + sms_text(self.sms@, (i + 1) as nat));
            }
            i = i + 1;
        }
        proof {
            assert(s@ =~= block_text(*self));
        }
        s
    }

    /// The program: a line `program:`, then `  NN: instruction` for each
    /// occupied slot of instruction memory.
    pub fn instr_mem_text(&self) -> (r: String)
        ensures
            r@ == "program:\n"@ + program_lines(self.instr_mem@, 32),
    {
        let mut s = String::new();
        push_str(&mut s, "program:\n");
        let ghost head = s@;
        let mut i: usize = 0;
        while i < 32
            invariant
                i <= 32,
                s@ == head + program_lines(self.instr_mem@, i as nat),
            decreases 32 - i,
        {
            let ghost before = s@;
            if let Some(instr) = self.instr_mem[i] {
                push_str(&mut s, "  ");
                push_dec2(&mut s, i as u64);
                push_str(&mut s, ": ");
                instr.write_text(&mut s);
                push_str(&mut s, "\n");
            }
            proof {
                assert(s@ =~= head + program_lines(self.instr_mem@, (i + 1) as nat));
            }
            i = i + 1;
        }
        s
    }
}

} // verus!
