//! The request line that carries a PIO program to the hardware reference:
//! `RUN1 ticks origin wrap_target wrap_source side_bits side_flags word_count
//! hex_words...`, newline terminated, metadata in decimal and instruction
//! words in hexadecimal.
use vstd::prelude::*;
use crate::text::{ascii_chars, dec_digits, hex_digits, lemma_ascii_chars_add, push_ascii, push_dec, push_hex};
use self::parse::{parsed_as, run1_word, spec_parse};
use vstd::string::StringSliceAdditionalSpecFns;
use vstd::utf8::valid_utf8;

pub mod parse;
pub mod laws;
pub mod program;
pub mod trace;



verus! {

/// Most instruction words a request carries (slots 30 and 31 hold the clock marker).
pub const MAX_WORDS: usize = 30;
/// Most ticks a request asks for.
pub const MAX_TICKS: u32 = 1000;
/// Longest request line, in bytes, without its newline.
pub const MAX_REQUEST: usize = 256;
/// The header line of the trace that answers a request.
pub const CSV_HEADER: &'static str = "ticks_elapsed,test_pc,marker_pc,stalled,padout,padoe,irq,flevel,fdebug,rx_count,rx0,rx1,rx2,rx3,x,y,isr,osr";

/// A request to run a program for some ticks. Addresses, including those
/// that JMP words encode, are absolute.
#[derive(Debug, PartialEq, Eq)]
pub struct Request {
    pub ticks: u32,
    pub origin: u8,
    pub wrap_target: u8,
    pub wrap_source: u8,
    pub side_bits: u8,
    pub side_optional: bool,
    pub side_pindirs: bool,
    pub len: usize,
    pub code: [u16; MAX_WORDS],
}

/// A request as plain values.
#[verifier::ext_equal]
pub struct RequestModel {
    pub ticks: u32,
    pub origin: u8,
    pub wrap_target: u8,
    pub wrap_source: u8,
    pub side_bits: u8,
    pub side_optional: bool,
    pub side_pindirs: bool,
    pub len: usize,
    pub code: Seq<u16>,
}

impl View for Request {
    type V = RequestModel;

    open spec fn view(&self) -> RequestModel {
        RequestModel {
            ticks: self.ticks,
            origin: self.origin,
            wrap_target: self.wrap_target,
            wrap_source: self.wrap_source,
            side_bits: self.side_bits,
            side_optional: self.side_optional,
            side_pindirs: self.side_pindirs,
            len: self.len,
            code: self.code@,
        }
    }
}

/// An unconditional-class JMP word (top three bits zero) whose target is one
/// of the clock marker's slots, 30 or 31.
pub open spec fn targets_marker(w: u16) -> bool {
    w / 8192 == 0 && w % 32 >= 30
}

/// Whether a request may run, and the first rule it breaks if not.
pub open spec fn spec_validate(r: RequestModel) -> Result<(), &'static str> {
    if r.ticks == 0 || r.ticks > MAX_TICKS {
        Err("ticks must be 1..1000")
    } else if r.len == 0 || r.len > MAX_WORDS || r.origin + r.len > MAX_WORDS {
        Err("program must fit in instruction slots 0..29")
    } else if r.wrap_target < r.origin || r.wrap_target >= r.origin + r.len || r.wrap_source < r.origin
        || r.wrap_source >= r.origin + r.len {
        Err("wrap outside program")
    } else if r.side_bits > 5 || (r.side_optional && r.side_bits == 0) {
        Err("invalid side-set")
    } else if exists|i: int| 0 <= i < r.len && #[trigger] targets_marker(r.code[i]) {
        Err("JMP targets reserved marker slots")
    } else {
        Ok(())
    }
}

impl Request {
    /// Checks that the request may run: 1 to 1000 ticks, a program of 1 to 30
    /// words inside slots 0..29, wrap addresses inside the program, a side-set
    /// of at most 5 bits (at least 1 when optional), and no JMP to the clock
    /// marker's slots.
    #[verifier::loop_isolation(false)]
    pub fn validate(&self) -> (r: Result<(), &'static str>)
        ensures
            r == spec_validate(self@),
    {
        if self.ticks == 0 || self.ticks > MAX_TICKS {
            return Err("ticks must be 1..1000");
        }
        if self.len == 0 || self.len > MAX_WORDS || self.origin as usize + self.len > MAX_WORDS {
            return Err("program must fit in instruction slots 0..29");
        }
        let end = self.origin as usize + self.len;
        if self.wrap_target < self.origin || self.wrap_target as usize >= end || self.wrap_source < self.origin
            || self.wrap_source as usize >= end {
            return Err("wrap outside program");
        }
        if self.side_bits > 5 || (self.side_optional && self.side_bits == 0) {
            return Err("invalid side-set");
        }
        // JMPs may target unused slots, but never the clock marker.
        let mut i: usize = 0;
        while i < self.len
            invariant
                i <= self.len <= MAX_WORDS,
                forall|j: int| 0 <= j < i ==> !#[trigger] targets_marker(self.code@[j]),
            decreases self.len - i,
        {
            let w = self.code[i];
            proof {
                assert((w >> 13 == 0 && w & 31 >= 30) == (w / 8192 == 0 && w % 32 >= 30)) by (bit_vector);
            }
            if w >> 13 == 0 && w & 31 >= 30 {
                assert(targets_marker(self.code@[i as int]));
                assert(self@.code[i as int] == self.code@[i as int]);
                assert(targets_marker(self@.code[i as int]));
                return Err("JMP targets reserved marker slots");
            }
            i = i + 1;
        }
        Ok(())
    }
}

} // verus!

verus! {

/// A space followed by `n` in decimal.
pub open spec fn field_text(n: nat) -> Seq<u8> {
    seq![0x20u8] + dec_digits(n)
}

/// The first `n` instruction words, each as a space and four lower-case
/// hexadecimal digits.
pub open spec fn words_text(code: Seq<u16>, n: nat) -> Seq<u8>
    decreases n,
{
    if n == 0 {
        Seq::empty()
    } else {
        words_text(code, (n - 1) as nat) + seq![0x20u8] + hex_digits(code[n - 1] as nat, 4)
    }
}

/// The side-set flags field: bit 0 optional, bit 1 pin directions.
pub open spec fn flags_of(m: RequestModel) -> nat {
    (if m.side_optional { 1nat } else { 0nat }) + (if m.side_pindirs { 2nat } else { 0nat })
}

/// The request line for a request, newline included.
pub open spec fn spec_write(m: RequestModel) -> Seq<u8> {
    run1_word() + field_text(m.ticks as nat) + field_text(m.origin as nat) + field_text(m.wrap_target as nat)
        + field_text(m.wrap_source as nat) + field_text(m.side_bits as nat) + field_text(flags_of(m))
        + field_text(m.len as nat) + words_text(m.code, m.len as nat) + seq![0x0au8]
}

/// Appends a space and `n` in decimal to `out`.
fn push_field(out: &mut String, n: u64, Ghost(acc): Ghost<Seq<u8>>, Ghost(start): Ghost<Seq<char>>)
    requires
        old(out)@ == start + ascii_chars(acc),
    ensures
        final(out)@ == start + ascii_chars(acc + field_text(n as nat)),
{
    push_ascii(out, 0x20);
    push_dec(out, n);
    proof {
        lemma_ascii_chars_add(acc, seq![0x20u8]);
        lemma_ascii_chars_add(acc + seq![0x20u8], dec_digits(n as nat));
        assert(acc + seq![0x20u8] + dec_digits(n as nat) =~= acc + field_text(n as nat));
        assert(start + ascii_chars(acc) + ascii_chars(seq![0x20u8]) + ascii_chars(dec_digits(n as nat))
            =~= start + ascii_chars(acc + field_text(n as nat)));
    }
}

impl Request {
    /// Appends the request line for this request to `output`, newline included.
    pub fn write(&self, output: &mut String)
        requires
            self.len <= MAX_WORDS,
        ensures
            final(output)@ == old(output)@ + ascii_chars(spec_write(self@)),
    {
        let ghost start = output@;
        push_ascii(output, 0x52);
        push_ascii(output, 0x55);
        push_ascii(output, 0x4e);
        push_ascii(output, 0x31);
        let ghost a0 = run1_word();
        proof {
            assert(output@ =~= start + ascii_chars(a0));
        }
        let flags: u64 = (if self.side_optional { 1 } else { 0 }) + (if self.side_pindirs { 2 } else { 0 });
        push_field(output, self.ticks as u64, Ghost(a0), Ghost(start));
        let ghost a1 = a0 + field_text(self.ticks as nat);
        push_field(output, self.origin as u64, Ghost(a1), Ghost(start));
        let ghost a2 = a1 + field_text(self.origin as nat);
        push_field(output, self.wrap_target as u64, Ghost(a2), Ghost(start));
        let ghost a3 = a2 + field_text(self.wrap_target as nat);
        push_field(output, self.wrap_source as u64, Ghost(a3), Ghost(start));
        let ghost a4 = a3 + field_text(self.wrap_source as nat);
        push_field(output, self.side_bits as u64, Ghost(a4), Ghost(start));
        let ghost a5 = a4 + field_text(self.side_bits as nat);
        push_field(output, flags, Ghost(a5), Ghost(start));
        let ghost a6 = a5 + field_text(flags_of(self@));
        push_field(output, self.len as u64, Ghost(a6), Ghost(start));
        let ghost head = a6 + field_text(self.len as nat);
        let ghost mut acc = head;
        let mut i: usize = 0;
        proof {
            assert(head + words_text(self.code@, 0) =~= head);
        }
        while i < self.len
            invariant
                i <= self.len <= MAX_WORDS,
                output@ == start + ascii_chars(acc),
                acc == head + words_text(self.code@, i as nat),
            decreases self.len - i,
        {
            push_ascii(output, 0x20);
            push_hex(output, self.code[i] as u32, 4);
            proof {
                lemma_ascii_chars_add(acc, seq![0x20u8]);
                lemma_ascii_chars_add(acc + seq![0x20u8], hex_digits(self.code@[i as int] as nat, 4));
                assert(start + ascii_chars(acc) + ascii_chars(seq![0x20u8]) + ascii_chars(hex_digits(self.code@[i as int] as nat, 4))
                    =~= start + ascii_chars(acc + seq![0x20u8] + hex_digits(self.code@[i as int] as nat, 4)));
                assert(acc + seq![0x20u8] + hex_digits(self.code@[i as int] as nat, 4) =~= head + words_text(self.code@, (i + 1) as nat));
                acc = head + words_text(self.code@, (i + 1) as nat);
            }
            i = i + 1;
        }
        push_ascii(output, 0x0a);
        proof {
            lemma_ascii_chars_add(acc, seq![0x0au8]);
            assert(acc + seq![0x0au8] =~= spec_write(self@));
            assert(start + ascii_chars(acc) + ascii_chars(seq![0x0au8]) =~= start + ascii_chars(spec_write(self@)));
        }
    }
}

} // verus!

verus! {

/// A decoder's state: the bytes of the line so far, and whether the line
/// grew past `MAX_REQUEST` bytes.
pub struct DecoderModel {
    pub buf: Seq<u8>,
    pub overflow: bool,
}

/// Collects the bytes of request lines as they arrive in packets of any size;
/// a line longer than `MAX_REQUEST` bytes is dropped up to its newline.
pub struct Decoder {
    bytes: [u8; MAX_REQUEST],
    len: usize,
    overflow: bool,
}

impl Decoder {
    #[verifier::type_invariant]
    spec fn inv(&self) -> bool {
        self.len <= MAX_REQUEST
    }
}

impl View for Decoder {
    type V = DecoderModel;

    closed spec fn view(&self) -> DecoderModel {
        DecoderModel { buf: self.bytes@.take(self.len as int), overflow: self.overflow }
    }
}

impl Default for Decoder {
    fn default() -> (r: Self)
        ensures
            r@.buf == Seq::<u8>::empty(),
            !r@.overflow,
    {
        let r = Self { bytes: [0; MAX_REQUEST], len: 0, overflow: false };
        proof {
            assert(r@.buf =~= Seq::<u8>::empty());
        }
        r
    }
}

/// What the decoder does with one byte: a newline ends the line (too long,
/// not UTF-8, or parsed) and empties the buffer; any other byte is kept if
/// there is room and marks the line too long otherwise.
pub open spec fn spec_push(d: DecoderModel, byte: u8) -> (DecoderModel, Option<Result<RequestModel, &'static str>>) {
    if byte == 0x0a {
        let result = if d.overflow {
            Err("request too long")
        } else if !valid_utf8(d.buf) {
            Err("invalid UTF-8")
        } else {
            spec_parse(d.buf)
        };
        (DecoderModel { buf: Seq::empty(), overflow: false }, Some(result))
    } else if d.buf.len() >= MAX_REQUEST {
        (DecoderModel { overflow: true, ..d }, None)
    } else {
        (DecoderModel { buf: d.buf.push(byte), ..d }, None)
    }
}

/// `r` is the outcome that `s` names.
pub open spec fn pushed_as(r: Option<Result<Request, &'static str>>, s: Option<Result<RequestModel, &'static str>>) -> bool {
    match (r, s) {
        (None, None) => true,
        (Some(x), Some(y)) => parsed_as(x, y),
        _ => false,
    }
}

/// Calls `core::str::from_utf8`; the contract claims that it succeeds exactly
/// when the bytes are valid UTF-8 (as vstd's `valid_utf8` states it) and that
/// the string it gives has those bytes.
#[verifier::external_body]
fn str_from_utf8(b: &[u8]) -> (r: Option<&str>)
    ensures
        r is Some <==> valid_utf8(b@),
        r matches Some(s) ==> s.spec_bytes() == b@,
{
    core::str::from_utf8(b).ok()
}

impl Decoder {
    /// Takes one byte; at a newline, hands back the line's outcome.
    pub fn push(&mut self, byte: u8) -> (r: Option<Result<Request, &'static str>>)
        ensures
            final(self)@ == spec_push(old(self)@, byte).0,
            pushed_as(r, spec_push(old(self)@, byte).1),
    {
        proof {
            use_type_invariant(&*self);
        }
        if byte == 0x0a {
            let result = if self.overflow {
                Err("request too long")
            } else {
                let (line, _) = self.bytes.as_slice().split_at(self.len);
                match str_from_utf8(line) {
                    None => Err("invalid UTF-8"),
                    Some(s) => Request::parse(s),
                }
            };
            self.len = 0;
            self.overflow = false;
            proof {
                assert(self@.buf =~= Seq::<u8>::empty());
            }
            Some(result)
        } else {
            if self.len == MAX_REQUEST {
                self.overflow = true;
            } else {
                let ghost before = self@.buf;
                self.bytes[self.len] = byte;
                self.len = self.len + 1;
                proof {
                    assert(self@.buf =~= before.push(byte));
                }
            }
            None
        }
    }
}

} // verus!
