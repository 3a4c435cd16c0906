//! Reading a request line: splitting it into whitespace-separated words and
//! reading decimal and hexadecimal numbers, each stated over the line's bytes.
use vstd::prelude::*;
use super::{spec_validate, Request, RequestModel, MAX_WORDS};
use vstd::string::StringSliceAdditionalSpecFns;

verus! {

/// ASCII whitespace: space, tab, line feed, form feed, carriage return.
pub open spec fn is_ascii_ws(c: u8) -> bool {
    c == 0x20 || c == 0x09 || c == 0x0a || c == 0x0c || c == 0x0d
}

/// The length of the word at the start of `s`, up to the first whitespace.
pub open spec fn word_len(s: Seq<u8>) -> nat
    decreases s.len(),
{
    if s.len() == 0 || is_ascii_ws(s[0]) {
        0
    } else {
        1 + word_len(s.drop_first())
    }
}

pub proof fn lemma_word_len_bounds(s: Seq<u8>)
    ensures
        word_len(s) <= s.len(),
        s.len() > 0 && !is_ascii_ws(s[0]) ==> word_len(s) >= 1,
    decreases s.len(),
{
    if s.len() > 0 && !is_ascii_ws(s[0]) {
        lemma_word_len_bounds(s.drop_first());
    }
}

/// The whitespace-separated words of `s`, in order.
pub open spec fn tokens(s: Seq<u8>) -> Seq<Seq<u8>>
    decreases s.len(),
{
    if s.len() == 0 {
        Seq::empty()
    } else if is_ascii_ws(s[0]) {
        tokens(s.drop_first())
    } else {
        proof {
            lemma_word_len_bounds(s);
        }
        seq![s.take(word_len(s) as int)] + tokens(s.skip(word_len(s) as int))
    }
}

/// The words that `spans` cut out of `b`.
pub open spec fn span_words(b: Seq<u8>, spans: Seq<(usize, usize)>) -> Seq<Seq<u8>> {
    spans.map_values(|sp: (usize, usize)| b.subrange(sp.0 as int, sp.1 as int))
}

pub(crate) proof fn lemma_tokens_skip_ws(s: Seq<u8>, i: int)
    requires
        0 <= i < s.len(),
        is_ascii_ws(s[i]),
    ensures
        tokens(s.skip(i)) == tokens(s.skip(i + 1)),
{
    assert(s.skip(i).drop_first() =~= s.skip(i + 1));
}

proof fn lemma_word_len_run(s: Seq<u8>, i: int, e: int)
    requires
        0 <= i <= e <= s.len(),
        forall|k: int| i <= k < e ==> !is_ascii_ws(#[trigger] s[k]),
        e == s.len() || is_ascii_ws(s[e]),
    ensures
        word_len(s.skip(i)) == e - i,
    decreases e - i,
{
    if i < e {
        assert(s.skip(i).drop_first() =~= s.skip(i + 1));
        lemma_word_len_run(s, i + 1, e);
    }
}

pub(crate) proof fn lemma_tokens_word(s: Seq<u8>, i: int, e: int)
    requires
        0 <= i < e <= s.len(),
        forall|k: int| i <= k < e ==> !is_ascii_ws(#[trigger] s[k]),
        e == s.len() || is_ascii_ws(s[e]),
    ensures
        tokens(s.skip(i)) == seq![s.subrange(i, e)] + tokens(s.skip(e)),
{
    lemma_word_len_run(s, i, e);
    assert(s.skip(i).take(e - i) =~= s.subrange(i, e));
    assert(s.skip(i).skip(e - i) =~= s.skip(e));
}

pub fn is_ws_byte(c: u8) -> (r: bool)
    ensures
        r == is_ascii_ws(c),
{
    c == 0x20 || c == 0x09 || c == 0x0a || c == 0x0c || c == 0x0d
}

/// Where the whitespace-separated words of `b` start and end.
pub fn split_tokens(b: &[u8]) -> (spans: Vec<(usize, usize)>)
    ensures
        span_words(b@, spans@) == tokens(b@),
        forall|k: int| 0 <= k < spans@.len() ==> #[trigger] spans@[k].0 <= spans@[k].1 <= b@.len(),
{
    let n = b.len();
    let mut spans: Vec<(usize, usize)> = Vec::new();
    let mut pos: usize = 0;
    proof {
        assert(b@.skip(0) =~= b@);
        assert(span_words(b@, spans@) =~= Seq::<Seq<u8>>::empty());
    }
    while pos < n
        invariant
            pos <= n,
            n == b@.len(),
            tokens(b@) == span_words(b@, spans@) + tokens(b@.skip(pos as int)),
            forall|k: int| 0 <= k < spans@.len() ==> #[trigger] spans@[k].0 <= spans@[k].1 <= b@.len(),
        decreases n - pos,
    {
        if is_ws_byte(b[pos]) {
            proof {
                lemma_tokens_skip_ws(b@, pos as int);
            }
            pos = pos + 1;
        } else {
            let start = pos;
            while pos < n && !is_ws_byte(b[pos])
                invariant
                    start <= pos <= n,
                    n == b@.len(),
                    forall|k: int| start <= k < pos ==> !is_ascii_ws(#[trigger] b@[k]),
                decreases n - pos,
            {
                pos = pos + 1;
            }
            let ghost before = spans@;
            spans.push((start, pos));
            proof {
                lemma_tokens_word(b@, start as int, pos as int);
                assert(span_words(b@, spans@) =~= span_words(b@, before).push(b@.subrange(start as int, pos as int)));
                assert(tokens(b@) =~= span_words(b@, spans@) + tokens(b@.skip(pos as int)));
            }
        }
    }
    proof {
        assert(b@.skip(n as int) =~= Seq::<u8>::empty());
        assert(tokens(b@) =~= span_words(b@, spans@));
    }
    spans
}

} // verus!

verus! {

pub open spec fn is_digit(c: u8) -> bool {
    0x30 <= c <= 0x39
}

/// The value of a hexadecimal digit (either case), if `c` is one.
pub open spec fn hex_digit(c: u8) -> Option<nat> {
    if 0x30 <= c <= 0x39 {
        Some((c - 0x30) as nat)
    } else if 0x61 <= c <= 0x66 {
        Some((c - 0x61 + 10) as nat)
    } else if 0x41 <= c <= 0x46 {
        Some((c - 0x41 + 10) as nat)
    } else {
        None
    }
}

/// The value of a string of decimal digits.
pub open spec fn dec_value(d: Seq<u8>) -> nat
    decreases d.len(),
{
    if d.len() == 0 {
        0
    } else {
        dec_value(d.drop_last()) * 10 + (d.last() - 0x30) as nat
    }
}

/// The value of a string of hexadecimal digits.
pub open spec fn hex_value(d: Seq<u8>) -> nat
    decreases d.len(),
{
    if d.len() == 0 {
        0
    } else {
        hex_value(d.drop_last()) * 16 + hex_digit(d.last()).unwrap_or(0)
    }
}

/// The digits of an unsigned number: an optional leading `+` is dropped.
pub open spec fn unsigned_digits(t: Seq<u8>) -> Seq<u8> {
    if t.len() > 0 && t[0] == 0x2b { t.drop_first() } else { t }
}

/// A decimal `u32` as Rust reads one from a string: an optional `+`, then
/// one or more digits, with a value that fits.
pub open spec fn spec_parse_u32(t: Seq<u8>) -> Option<u32> {
    let d = unsigned_digits(t);
    if d.len() > 0 && (forall|i: int| 0 <= i < d.len() ==> #[trigger] is_digit(d[i])) && dec_value(d) <= u32::MAX {
        Some(dec_value(d) as u32)
    } else {
        None
    }
}

/// A hexadecimal `u16` as Rust reads one from a string: an optional `+`,
/// then one or more hexadecimal digits, with a value that fits.
pub open spec fn spec_parse_hex16(t: Seq<u8>) -> Option<u16> {
    let d = unsigned_digits(t);
    if d.len() > 0 && (forall|i: int| 0 <= i < d.len() ==> #[trigger] hex_digit(d[i]) is Some) && hex_value(d) <= u16::MAX {
        Some(hex_value(d) as u16)
    } else {
        None
    }
}

proof fn lemma_dec_prefix(d: Seq<u8>, k: int)
    requires
        0 <= k <= d.len(),
        forall|i: int| 0 <= i < d.len() ==> #[trigger] is_digit(d[i]),
    ensures
        dec_value(d.take(k)) <= dec_value(d),
    decreases d.len() - k,
{
    if k < d.len() {
        lemma_dec_prefix(d, k + 1);
        assert(d.take(k + 1).drop_last() =~= d.take(k));
    } else {
        assert(d.take(k) =~= d);
    }
}

proof fn lemma_hex_prefix(d: Seq<u8>, k: int)
    requires
        0 <= k <= d.len(),
    ensures
        hex_value(d.take(k)) <= hex_value(d),
    decreases d.len() - k,
{
    if k < d.len() {
        lemma_hex_prefix(d, k + 1);
        assert(d.take(k + 1).drop_last() =~= d.take(k));
    } else {
        assert(d.take(k) =~= d);
    }
}

/// Reads `b[start..end]` as a decimal `u32`.
pub fn parse_u32(b: &[u8], start: usize, end: usize) -> (r: Option<u32>)
    requires
        start <= end <= b@.len(),
    ensures
        r == spec_parse_u32(b@.subrange(start as int, end as int)),
{
    let ghost t = b@.subrange(start as int, end as int);
    let mut k = start;
    if k < end && b[k] == 0x2b {
        k = k + 1;
    }
    let ghost d = unsigned_digits(t);
    proof {
        if start < end && b@[start as int] == 0x2b {
            assert(d =~= b@.subrange(start + 1, end as int));
        } else {
            assert(d =~= b@.subrange(start as int, end as int));
        }
    }
    if k == end {
        return None;
    }
    let first = k;
    let mut acc: u32 = 0;
    proof {
        assert(d.take(0) =~= Seq::<u8>::empty());
    }
    while k < end
        invariant
            first <= k <= end <= b@.len(),
            start <= first,
            t == b@.subrange(start as int, end as int),
            d == unsigned_digits(t),
            d =~= b@.subrange(first as int, end as int),
            forall|i: int| 0 <= i < k - first ==> #[trigger] is_digit(d[i]),
            acc == dec_value(d.take(k - first)),
        decreases end - k,
    {
        let c = b[k];
        if c < 0x30 || c > 0x39 {
            proof {
                assert(!is_digit(d[k - first]));
            }
            return None;
        }
        let v = acc as u64 * 10 + (c - 0x30) as u64;
        proof {
            assert(d.take(k - first + 1).drop_last() =~= d.take(k - first));
        }
        if v > 0xffff_ffff {
            proof {
                if forall|i: int| 0 <= i < d.len() ==> #[trigger] is_digit(d[i]) {
                    lemma_dec_prefix(d, k - first + 1);
                }
            }
            return None;
        }
        acc = v as u32;
        k = k + 1;
    }
    proof {
        assert(d.take(d.len() as int) =~= d);
    }
    Some(acc)
}

fn hex_digit_of(c: u8) -> (r: Option<u16>)
    ensures
        r is Some <==> hex_digit(c) is Some,
        r matches Some(v) ==> v == hex_digit(c).unwrap() && v < 16,
{
    if 0x30 <= c && c <= 0x39 {
        Some((c - 0x30) as u16)
    } else if 0x61 <= c && c <= 0x66 {
        Some((c - 0x61 + 10) as u16)
    } else if 0x41 <= c && c <= 0x46 {
        Some((c - 0x41 + 10) as u16)
    } else {
        None
    }
}

/// Reads `b[start..end]` as a hexadecimal `u16`.
pub fn parse_hex16(b: &[u8], start: usize, end: usize) -> (r: Option<u16>)
    requires
        start <= end <= b@.len(),
    ensures
        r == spec_parse_hex16(b@.subrange(start as int, end as int)),
{
    let ghost t = b@.subrange(start as int, end as int);
    let mut k = start;
    if k < end && b[k] == 0x2b {
        k = k + 1;
    }
    let ghost d = unsigned_digits(t);
    proof {
        if start < end && b@[start as int] == 0x2b {
            assert(d =~= b@.subrange(start + 1, end as int));
        } else {
            assert(d =~= b@.subrange(start as int, end as int));
        }
    }
    if k == end {
        return None;
    }
    let first = k;
    let mut acc: u16 = 0;
    proof {
        assert(d.take(0) =~= Seq::<u8>::empty());
    }
    while k < end
        invariant
            first <= k <= end <= b@.len(),
            start <= first,
            t == b@.subrange(start as int, end as int),
            d == unsigned_digits(t),
            d =~= b@.subrange(first as int, end as int),
            forall|i: int| 0 <= i < k - first ==> #[trigger] hex_digit(d[i]) is Some,
            acc == hex_value(d.take(k - first)),
        decreases end - k,
    {
        let c = b[k];
        let h = match hex_digit_of(c) {
            Some(h) => h,
            None => {
                proof {
                    assert(hex_digit(d[k - first]) is None);
                }
                return None;
            },
        };
        let v = acc as u32 * 16 + h as u32;
        proof {
            assert(d.take(k - first + 1).drop_last() =~= d.take(k - first));
        }
        if v > 0xffff {
            proof {
                lemma_hex_prefix(d, k - first + 1);
            }
            return None;
        }
        acc = v as u16;
        k = k + 1;
    }
    proof {
        assert(d.take(d.len() as int) =~= d);
    }
    Some(acc)
}

} // verus!

verus! {

/// The bytes of the word `RUN1`.
pub open spec fn run1_word() -> Seq<u8> {
    seq![0x52u8, 0x55u8, 0x4eu8, 0x31u8]
}

/// Word `k` of a request read as a decimal `u32`.
pub open spec fn field_u32(toks: Seq<Seq<u8>>, k: int) -> Result<u32, &'static str> {
    if k >= toks.len() {
        Err("missing field")
    } else {
        match spec_parse_u32(toks[k]) {
            Some(v) => Ok(v),
            None => Err("invalid number"),
        }
    }
}

/// Word `k` of a request read as a decimal byte.
pub open spec fn field_u8(toks: Seq<Seq<u8>>, k: int) -> Result<u8, &'static str> {
    match field_u32(toks, k) {
        Err(e) => Err(e),
        Ok(v) => if v <= 255 { Ok(v as u8) } else { Err("field out of range") },
    }
}

/// The first `n` instruction words of a request (words 8 onwards) read as
/// hexadecimal, or the error for the first that is missing or unreadable.
pub open spec fn spec_words(toks: Seq<Seq<u8>>, n: nat) -> Result<Seq<u16>, &'static str>
    decreases n,
{
    if n == 0 {
        Ok(Seq::empty())
    } else {
        match spec_words(toks, (n - 1) as nat) {
            Err(e) => Err(e),
            Ok(ws) => {
                let k = 8 + n - 1;
                if k >= toks.len() {
                    Err("missing instruction")
                } else {
                    match spec_parse_hex16(toks[k]) {
                        None => Err("invalid instruction"),
                        Some(w) => Ok(ws.push(w)),
                    }
                }
            },
        }
    }
}

/// The seven decimal fields after `RUN1`: ticks, origin, wrap target, wrap
/// source, side-set bits, side-set flags and word count, read in that order.
pub open spec fn spec_header(toks: Seq<Seq<u8>>) -> Result<(u32, u8, u8, u8, u8, u8, u8), &'static str> {
    if toks.len() == 0 || toks[0] != run1_word() {
        Err("expected RUN1")
    } else {
        match field_u32(toks, 1) {
            Err(e) => Err(e),
            Ok(ticks) => match field_u8(toks, 2) {
                Err(e) => Err(e),
                Ok(origin) => match field_u8(toks, 3) {
                    Err(e) => Err(e),
                    Ok(wrap_target) => match field_u8(toks, 4) {
                        Err(e) => Err(e),
                        Ok(wrap_source) => match field_u8(toks, 5) {
                            Err(e) => Err(e),
                            Ok(side_bits) => match field_u8(toks, 6) {
                                Err(e) => Err(e),
                                Ok(flags) => match field_u8(toks, 7) {
                                    Err(e) => Err(e),
                                    Ok(len) => Ok((ticks, origin, wrap_target, wrap_source, side_bits, flags, len)),
                                },
                            },
                        },
                    },
                },
            },
        }
    }
}

/// A request line read as a request, or the first error found.
pub open spec fn spec_parse(b: Seq<u8>) -> Result<RequestModel, &'static str> {
    let toks = tokens(b);
    match spec_header(toks) {
        Err(e) => Err(e),
        Ok((ticks, origin, wrap_target, wrap_source, side_bits, flags, len)) => if flags > 3 || len > MAX_WORDS {
            Err("invalid flags or length")
        } else {
            match spec_words(toks, len as nat) {
                Err(e) => Err(e),
                Ok(words) => if toks.len() > 8 + len {
                    Err("extra fields")
                } else {
                    let m = RequestModel {
                        ticks,
                        origin,
                        wrap_target,
                        wrap_source,
                        side_bits,
                        side_optional: flags % 2 == 1,
                        side_pindirs: (flags / 2) % 2 == 1,
                        len: len as usize,
                        code: words + Seq::new((MAX_WORDS - len) as nat, |i: int| 0u16),
                    };
                    match spec_validate(m) {
                        Err(e) => Err(e),
                        Ok(_) => Ok(m),
                    }
                },
            }
        },
    }
}

/// `r` is the request or the error that `s` names.
pub open spec fn parsed_as(r: Result<Request, &'static str>, s: Result<RequestModel, &'static str>) -> bool {
    match (r, s) {
        (Ok(a), Ok(m)) => a@ =~= m,
        (Err(x), Err(y)) => x == y,
        _ => false,
    }
}

fn is_run1(b: &[u8], sp: (usize, usize)) -> (r: bool)
    requires
        sp.0 <= sp.1 <= b@.len(),
    ensures
        r == (b@.subrange(sp.0 as int, sp.1 as int) == run1_word()),
{
    let (s, e) = sp;
    let r = e - s == 4 && b[s] == 0x52 && b[s + 1] == 0x55 && b[s + 2] == 0x4e && b[s + 3] == 0x31;
    proof {
        let t = b@.subrange(s as int, e as int);
        if r {
            assert(t =~= run1_word());
        } else if t.len() == 4 {
            assert(t[0] == b@[s as int] && t[1] == b@[s + 1] && t[2] == b@[s + 2] && t[3] == b@[s + 3]);
            assert(t != run1_word()) by {
                if t == run1_word() {
                    assert(t[0] == run1_word()[0] && t[1] == run1_word()[1] && t[2] == run1_word()[2] && t[3] == run1_word()[3]);
                }
            }
        }
    }
    r
}

fn field_u32_at(b: &[u8], spans: &Vec<(usize, usize)>, k: usize) -> (r: Result<u32, &'static str>)
    requires
        forall|j: int| 0 <= j < spans@.len() ==> #[trigger] spans@[j].0 <= spans@[j].1 <= b@.len(),
    ensures
        r == field_u32(span_words(b@, spans@), k as int),
{
    if k >= spans.len() {
        return Err("missing field");
    }
    let (s, e) = spans[k];
    match parse_u32(b, s, e) {
        Some(v) => Ok(v),
        None => Err("invalid number"),
    }
}

fn field_u8_at(b: &[u8], spans: &Vec<(usize, usize)>, k: usize) -> (r: Result<u8, &'static str>)
    requires
        forall|j: int| 0 <= j < spans@.len() ==> #[trigger] spans@[j].0 <= spans@[j].1 <= b@.len(),
    ensures
        r == field_u8(span_words(b@, spans@), k as int),
{
    match field_u32_at(b, spans, k) {
        Err(e) => Err(e),
        Ok(v) => if v <= 255 { Ok(v as u8) } else { Err("field out of range") },
    }
}

proof fn lemma_words_err_persists(toks: Seq<Seq<u8>>, i: nat, n: nat)
    requires
        i <= n,
        spec_words(toks, i) is Err,
    ensures
        spec_words(toks, n) == spec_words(toks, i),
    decreases n - i,
{
    if i < n {
        lemma_words_err_persists(toks, i, (n - 1) as nat);
    }
}

#[verifier::loop_isolation(false)]
fn parse_bytes(b: &[u8]) -> (r: Result<Request, &'static str>)
    ensures
        parsed_as(r, spec_parse(b@)),
{
    let spans = split_tokens(b);
    let ghost toks = span_words(b@, spans@);
    if spans.len() == 0 || !is_run1(b, spans[0]) {
        return Err("expected RUN1");
    }
    let ticks = match field_u32_at(b, &spans, 1) {
        Ok(v) => v,
        Err(e) => return Err(e),
    };
    let origin = match field_u8_at(b, &spans, 2) {
        Ok(v) => v,
        Err(e) => return Err(e),
    };
    let wrap_target = match field_u8_at(b, &spans, 3) {
        Ok(v) => v,
        Err(e) => return Err(e),
    };
    let wrap_source = match field_u8_at(b, &spans, 4) {
        Ok(v) => v,
        Err(e) => return Err(e),
    };
    let side_bits = match field_u8_at(b, &spans, 5) {
        Ok(v) => v,
        Err(e) => return Err(e),
    };
    let flags = match field_u8_at(b, &spans, 6) {
        Ok(v) => v,
        Err(e) => return Err(e),
    };
    let len = match field_u8_at(b, &spans, 7) {
        Ok(v) => v as usize,
        Err(e) => return Err(e),
    };
    if flags > 3 || len > MAX_WORDS {
        return Err("invalid flags or length");
    }
    let mut code = [0u16; MAX_WORDS];
    let mut i: usize = 0;
    proof {
        assert(code@.take(0) =~= Seq::<u16>::empty());
    }
    while i < len
        invariant
            i <= len <= MAX_WORDS,
            toks == span_words(b@, spans@),
            spec_words(toks, i as nat) == Ok::<Seq<u16>, &'static str>(code@.take(i as int)),
            forall|j: int| i <= j < MAX_WORDS ==> #[trigger] code@[j] == 0,
        decreases len - i,
    {
        let k = 8 + i;
        if k >= spans.len() {
            proof {
                lemma_words_err_persists(toks, (i + 1) as nat, len as nat);
            }
            return Err("missing instruction");
        }
        let (s, e) = spans[k];
        match parse_hex16(b, s, e) {
            None => {
                proof {
                    lemma_words_err_persists(toks, (i + 1) as nat, len as nat);
                }
                return Err("invalid instruction");
            },
            Some(w) => {
                let ghost before = code@;
                code[i] = w;
                proof {
                    assert(code@.take(i + 1) =~= before.take(i as int).push(w));
                }
            },
        }
        i = i + 1;
    }
    if spans.len() > 8 + len {
        return Err("extra fields");
    }
    let request = Request {
        ticks,
        origin,
        wrap_target,
        wrap_source,
        side_bits,
        side_optional: flags & 1 != 0,
        side_pindirs: flags & 2 != 0,
        len,
        code,
    };
    proof {
        assert((flags & 1 != 0) == (flags % 2 == 1) && (flags & 2 != 0) == ((flags / 2) % 2 == 1)) by (bit_vector);
        assert(code@ =~= code@.take(len as int) + Seq::new((MAX_WORDS - len) as nat, |i: int| 0u16));
    }
    match request.validate() {
        Err(e) => Err(e),
        Ok(()) => Ok(request),
    }
}

impl Request {
    /// Reads a request line (`RUN1` and the fields, separated by ASCII
    /// whitespace) and checks it with `validate`.
    pub fn parse(line: &str) -> (r: Result<Self, &'static str>)
        ensures
            parsed_as(r, spec_parse(line.spec_bytes())),
    {
        parse_bytes(line.as_bytes())
    }
}

} // verus!
