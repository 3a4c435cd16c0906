//! Turning an assembled PIO program into a request.
use vstd::prelude::*;
use super::{spec_validate, spec_write, Request, RequestModel, MAX_WORDS};
use super::laws::lemma_write_text_parse_roundtrip;
use super::parse::spec_parse;
use crate::text::ascii_chars;

verus! {

/// An assembled program as an assembler hands it out: the instruction words
/// (JMP addresses relative to the program's start), where it should be
/// loaded, its wrap range relative to its start, and its side-set settings.
pub struct AssembledProgram {
    pub code: Vec<u16>,
    pub origin: Option<u8>,
    pub wrap_source: u8,
    pub wrap_target: u8,
    pub side_bits: u8,
    pub side_optional: bool,
    pub side_pindirs: bool,
}

/// The load address: the origin, or slot 0 when the program gives none.
pub open spec fn load_origin(p: &AssembledProgram) -> u8 {
    match p.origin {
        Some(o) => o,
        None => 0,
    }
}

/// `w` loaded at `origin`: a JMP word (top three bits zero) gets `origin`
/// added to its address, which must stay below slot 30; other words stay.
pub open spec fn relocate(w: u16, origin: u8) -> Option<u16> {
    if w / 8192 == 0 {
        let a = w % 32 + origin;
        if a >= MAX_WORDS { None } else { Some((w - w % 32 + a) as u16) }
    } else {
        Some(w)
    }
}

/// The request that runs `p` for `ticks` ticks, or the reason it cannot be
/// built: the program must fit below slot 30, every JMP must stay below slot
/// 30 once loaded, and the request must pass `validate`.
pub open spec fn spec_make_request(p: &AssembledProgram, ticks: u32) -> Result<RequestModel, &'static str> {
    let origin = load_origin(p);
    let n = p.code@.len();
    if n > MAX_WORDS || origin + n > MAX_WORDS {
        Err("Program must fit in instruction slots 0..29")
    } else if exists|i: int| 0 <= i < n && #[trigger] relocate(p.code@[i], origin) is None {
        Err("JMP targets reserved or out-of-range instruction slot")
    } else {
        let r = RequestModel {
            ticks,
            origin,
            wrap_target: (origin + p.wrap_target) as u8,
            wrap_source: (origin + p.wrap_source) as u8,
            side_bits: p.side_bits,
            side_optional: p.side_optional,
            side_pindirs: p.side_pindirs,
            len: n as usize,
            code: Seq::new(MAX_WORDS as nat, |i: int| if i < n { relocate(p.code@[i], origin)->0 } else { 0u16 }),
        };
        match spec_validate(r) {
            Err(e) => Err(e),
            Ok(()) => Ok(r),
        }
    }
}

/// Builds the request that runs `program` for `ticks` ticks: the program is
/// placed at its origin (slot 0 if it has none), its wrap range and JMP
/// addresses are made absolute, and the request is validated.
pub fn make_request(program: &AssembledProgram, ticks: u32) -> (r: Result<Request, &'static str>)
    requires
        program.code@.len() <= MAX_WORDS && load_origin(program) + program.code@.len() <= MAX_WORDS
            ==> load_origin(program) + program.wrap_target < 256 && load_origin(program) + program.wrap_source < 256,
    ensures
        match (r, spec_make_request(program, ticks)) {
            (Ok(req), Ok(m)) => req@ == m,
            (Err(e), Err(f)) => e == f,
            _ => false,
        },
{
    let origin = match program.origin {
        Some(o) => o,
        None => 0,
    };
    if program.code.len() > MAX_WORDS || origin as usize + program.code.len() > MAX_WORDS {
        return Err("Program must fit in instruction slots 0..29");
    }
    let mut request = Request {
        ticks,
        origin,
        wrap_target: origin + program.wrap_target,
        wrap_source: origin + program.wrap_source,
        side_bits: program.side_bits,
        side_optional: program.side_optional,
        side_pindirs: program.side_pindirs,
        len: program.code.len(),
        code: [0; MAX_WORDS],
    };
    let n = program.code.len();
    let mut i: usize = 0;
    while i < n
        invariant
            i <= n,
            n == program.code@.len(),
            n <= MAX_WORDS,
            origin == load_origin(program),
            origin + n <= MAX_WORDS,
            request.code@.len() == MAX_WORDS,
            forall|j: int| 0 <= j < i ==> #[trigger] relocate(program.code@[j], origin) == Some(request.code@[j]),
            forall|j: int| i <= j < MAX_WORDS ==> #[trigger] request.code@[j] == 0,
            request.ticks == ticks,
            request.origin == origin,
            request.wrap_target == origin + program.wrap_target,
            request.wrap_source == origin + program.wrap_source,
            request.side_bits == program.side_bits,
            request.side_optional == program.side_optional,
            request.side_pindirs == program.side_pindirs,
            request.len == n,
        decreases n - i,
    {
        let word = program.code[i];
        // The assembler emits relative JMP addresses even with an origin.
        proof {
            assert(word & 31 <= 31) by (bit_vector);
        }
        let loaded = if word >> 13 == 0 {
            let address = (word & 31) + origin as u16;
            if address >= MAX_WORDS as u16 {
                proof {
                    assert((word >> 13 == 0) == (word / 8192 == 0)) by (bit_vector);
                    assert(word & 31 == word % 32) by (bit_vector);
                    assert(relocate(program.code@[i as int], origin) is None);
                }
                return Err("JMP targets reserved or out-of-range instruction slot");
            }
            proof {
                assert((word >> 13 == 0) == (word / 8192 == 0)) by (bit_vector);
                assert(word & 31 == word % 32) by (bit_vector);
                assert(address < 32 ==> ((word & !31u16) | address) == word - word % 32 + address) by (bit_vector);
            }
            (word & !31) | address
        } else {
            proof {
                assert((word >> 13 == 0) == (word / 8192 == 0)) by (bit_vector);
            }
            word
        };
        request.code[i] = loaded;
        i = i + 1;
    }
    let ghost m = request@;
    proof {
        let origin_ = load_origin(program);
        assert(!(exists|j: int| 0 <= j < n && #[trigger] relocate(program.code@[j], origin_) is None));
        assert(m.code =~= Seq::new(MAX_WORDS as nat, |j: int| if j < n { relocate(program.code@[j], origin_)->0 } else { 0u16 }));
    }
    match request.validate() {
        Err(e) => Err(e),
        Ok(()) => Ok(request),
    }
}

/// Every request built from a program passes `validate`, and written out
/// and read back it is the same request.
pub proof fn lemma_made_request_round_trip(p: &AssembledProgram, ticks: u32)
    requires
        spec_make_request(p, ticks) is Ok,
    ensures
        spec_make_request(p, ticks) matches Ok(m) && {
            &&& spec_validate(m) is Ok
            &&& spec_parse(vstd::utf8::encode_utf8(ascii_chars(spec_write(m)))) == Ok::<RequestModel, &'static str>(m)
        },
{
    let m = spec_make_request(p, ticks)->Ok_0;
    lemma_write_text_parse_roundtrip(m);
}

/// How a program becomes a request: the origin defaults to slot 0; the
/// program is refused when it does not fit below slot 30, then when a JMP
/// word (top three bits zero) would target slot 30 or beyond once its
/// address is moved by the origin. Otherwise the request carries the ticks,
/// the origin, the wrap addresses moved by the origin, the side-set settings
/// and the words: each JMP with the origin added to its address and its other
/// bits kept, every other word as it was, and zeros after the program.
pub proof fn lemma_make_request_relocates(p: &AssembledProgram, ticks: u32)
    requires
        load_origin(p) + p.wrap_target < 256,
        load_origin(p) + p.wrap_source < 256,
    ensures
        ({
            let origin: nat = match p.origin { Some(o) => o as nat, None => 0 };
            let n = p.code@.len();
            let fits = n <= 30 && origin + n <= 30;
            let jmp_out = exists|i: int| 0 <= i < n && #[trigger] p.code@[i] < 8192 && p.code@[i] % 32 + origin >= 30;
            let r = spec_make_request(p, ticks);
            &&& !fits ==> r == Err::<RequestModel, &'static str>("Program must fit in instruction slots 0..29")
            &&& fits && jmp_out ==> r == Err::<RequestModel, &'static str>("JMP targets reserved or out-of-range instruction slot")
            &&& r matches Ok(m) ==> {
                &&& fits && !jmp_out
                &&& m.ticks == ticks && m.origin == origin && m.len == n
                &&& m.wrap_target == origin + p.wrap_target && m.wrap_source == origin + p.wrap_source
                &&& m.side_bits == p.side_bits && m.side_optional == p.side_optional && m.side_pindirs == p.side_pindirs
                &&& m.code.len() == 30
                &&& forall|i: int| 0 <= i < n ==> {
                    let w = #[trigger] p.code@[i];
                    if w < 8192 {
                        m.code[i] / 32 == w / 32 && m.code[i] % 32 == w % 32 + origin
                    } else {
                        m.code[i] == w
                    }
                }
                &&& forall|i: int| n <= i < 30 ==> #[trigger] m.code[i] == 0
            }
        }),
{
    let origin = load_origin(p);
    let n = p.code@.len();
    assert forall|i: int| 0 <= i < n implies (#[trigger] relocate(p.code@[i], origin) is None
        <==> (p.code@[i] < 8192 && p.code@[i] % 32 + origin >= 30)) by {}
    if n <= 30 && origin + n <= 30 {
        if exists|i: int| 0 <= i < n && #[trigger] p.code@[i] < 8192 && p.code@[i] % 32 + origin >= 30 {
            let i = choose|i: int| 0 <= i < n && #[trigger] p.code@[i] < 8192 && p.code@[i] % 32 + origin >= 30;
            assert(relocate(p.code@[i], origin) is None);
        } else {
            assert forall|i: int| 0 <= i < n implies !(#[trigger] relocate(p.code@[i], origin) is None) by {
                assert(!(p.code@[i] < 8192 && p.code@[i] % 32 + origin >= 30));
            }
            let r = spec_make_request(p, ticks);
            if r is Ok {
                let m = r->Ok_0;
                assert forall|i: int| 0 <= i < n implies ({
                    let w = #[trigger] p.code@[i];
                    if w < 8192 {
                        m.code[i] / 32 == w / 32 && m.code[i] % 32 == w % 32 + origin
                    } else {
                        m.code[i] == w
                    }
                }) by {
                    let w = p.code@[i];
                    assert(m.code[i] == relocate(w, origin)->0);
                    if w < 8192 {
                        assert(w / 8192 == 0);
                        assert(w % 32 + origin < 30);
                        let v = (w - w % 32 + (w % 32 + origin)) as u16;
                        assert(m.code[i] == v);
                        assert(v / 32 == w / 32 && v % 32 == w % 32 + origin);
                    } else {
                        assert(w / 8192 != 0);
                    }
                }
                assert forall|i: int| n <= i < 30 implies #[trigger] m.code[i] == 0 by {}
            }
        }
    }
}

} // verus!
