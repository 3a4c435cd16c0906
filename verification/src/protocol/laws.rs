//! What reading a request line gives back of writing one, and how the
//! decoder frames lines.
use vstd::prelude::*;
use super::parse::{
    dec_value, field_u32, field_u8, hex_digit, hex_value, is_ascii_ws, is_digit, lemma_tokens_skip_ws,
    lemma_tokens_word, run1_word, spec_header, spec_parse, spec_parse_hex16, spec_parse_u32, spec_words,
    tokens, unsigned_digits,
};
use super::{targets_marker, spec_push, DecoderModel, MAX_REQUEST, field_text, flags_of, spec_validate, spec_write, words_text, RequestModel, MAX_WORDS};
use crate::text::{ascii_chars, dec_char, dec_digits, hex_char, hex_digits};
use vstd::arithmetic::power::pow;

verus! {

/// The words, each after a space.
pub open spec fn join(ws: Seq<Seq<u8>>) -> Seq<u8>
    decreases ws.len(),
{
    if ws.len() == 0 {
        Seq::empty()
    } else {
        join(ws.drop_last()) + seq![0x20u8] + ws.last()
    }
}

/// A word of a request line: not empty, no whitespace.
pub open spec fn is_word(w: Seq<u8>) -> bool {
    w.len() > 0 && forall|i: int| 0 <= i < w.len() ==> !is_ascii_ws(#[trigger] w[i])
}

proof fn lemma_join_front(ws: Seq<Seq<u8>>)
    requires
        ws.len() > 0,
    ensures
        join(ws) == seq![0x20u8] + ws[0] + join(ws.drop_first()),
    decreases ws.len(),
{
    if ws.len() == 1 {
        assert(ws.drop_last() =~= Seq::<Seq<u8>>::empty());
        assert(ws.drop_first() =~= Seq::<Seq<u8>>::empty());
        assert(join(ws) =~= seq![0x20u8] + ws[0] + join(ws.drop_first()));
    } else {
        lemma_join_front(ws.drop_last());
        assert(ws.drop_last().drop_first() =~= ws.drop_first().drop_last());
        assert(ws.drop_first().last() == ws.last());
        assert(join(ws) =~= seq![0x20u8] + ws[0] + join(ws.drop_first()));
    }
}

proof fn lemma_join_add(a: Seq<Seq<u8>>, b: Seq<Seq<u8>>)
    ensures
        join(a + b) == join(a) + join(b),
    decreases b.len(),
{
    if b.len() == 0 {
        assert(a + b =~= a);
        assert(join(a) + join(b) =~= join(a));
    } else {
        lemma_join_add(a, b.drop_last());
        assert((a + b).drop_last() =~= a + b.drop_last());
        assert(join(a + b) =~= join(a) + join(b));
    }
}

proof fn lemma_tokens_word_then(w: Seq<u8>, rest: Seq<u8>)
    requires
        is_word(w),
        rest.len() == 0 || is_ascii_ws(rest[0]),
    ensures
        tokens(w + rest) == seq![w] + tokens(rest),
{
    let s = w + rest;
    assert forall|k: int| 0 <= k < w.len() implies !is_ascii_ws(#[trigger] s[k]) by {
        assert(s[k] == w[k]);
    }
    lemma_tokens_word(s, 0, w.len() as int);
    assert(s.skip(0) =~= s);
    assert(s.subrange(0, w.len() as int) =~= w);
    assert(s.skip(w.len() as int) =~= rest);
}

proof fn lemma_tokens_line(w0: Seq<u8>, ws: Seq<Seq<u8>>)
    requires
        is_word(w0),
        forall|i: int| 0 <= i < ws.len() ==> is_word(#[trigger] ws[i]),
    ensures
        tokens(w0 + join(ws) + seq![0x0au8]) == seq![w0] + ws,
    decreases ws.len(),
{
    let nl = seq![0x0au8];
    let rest = join(ws) + nl;
    assert(w0 + join(ws) + nl =~= w0 + rest);
    if ws.len() == 0 {
        assert(rest =~= nl);
        lemma_tokens_word_then(w0, rest);
        lemma_tokens_skip_ws(nl, 0);
        assert(nl.skip(0) =~= nl);
        assert(nl.skip(1) =~= Seq::<u8>::empty());
        assert(seq![w0] + ws =~= seq![w0]);
        assert(tokens(rest) =~= Seq::<Seq<u8>>::empty());
    } else {
        lemma_join_front(ws);
        let w1 = ws[0];
        let tail = ws.drop_first();
        assert(forall|i: int| 0 <= i < tail.len() ==> is_word(#[trigger] tail[i]) ) by {
            assert forall|i: int| 0 <= i < tail.len() implies is_word(#[trigger] tail[i]) by {
                assert(tail[i] == ws[i + 1]);
            }
        }
        assert(rest =~= seq![0x20u8] + (w1 + join(tail) + nl));
        lemma_tokens_word_then(w0, rest);
        lemma_tokens_skip_ws(rest, 0);
        assert(rest.skip(0) =~= rest);
        assert(rest.skip(1) =~= w1 + join(tail) + nl);
        lemma_tokens_line(w1, tail);
        assert(seq![w0] + (seq![w1] + tail) =~= seq![w0] + ws);
    }
}

proof fn lemma_dec_digits(n: nat)
    ensures
        dec_digits(n).len() > 0,
        forall|i: int| 0 <= i < dec_digits(n).len() ==> #[trigger] is_digit(dec_digits(n)[i]),
        dec_value(dec_digits(n)) == n,
    decreases n,
{
    if n >= 10 {
        lemma_dec_digits(n / 10);
        let d = dec_digits(n);
        assert(d.drop_last() =~= dec_digits(n / 10));
        assert(d.last() == dec_char(n % 10));
        assert(dec_value(d) == dec_value(dec_digits(n / 10)) * 10 + (n % 10));
        assert forall|i: int| 0 <= i < d.len() implies #[trigger] is_digit(d[i]) by {
            if i < d.len() - 1 {
                assert(d[i] == dec_digits(n / 10)[i]);
            }
        }
    } else {
        let d = dec_digits(n);
        assert(d.drop_last() =~= Seq::<u8>::empty());
        assert(dec_value(d) == dec_value(d.drop_last()) * 10 + (d.last() - 0x30) as nat);
    }
}

proof fn lemma_parse_dec(n: nat)
    requires
        n <= u32::MAX,
    ensures
        spec_parse_u32(dec_digits(n)) == Some(n as u32),
        is_word(dec_digits(n)),
{
    lemma_dec_digits(n);
    let d = dec_digits(n);
    assert(is_digit(d[0]));
    assert(unsigned_digits(d) == d);
    assert forall|i: int| 0 <= i < d.len() implies !is_ascii_ws(#[trigger] d[i]) by {
        assert(is_digit(d[i]));
    }
}

proof fn lemma_hex_digits(n: nat, width: nat)
    ensures
        hex_digits(n, width).len() == width,
        forall|i: int| 0 <= i < width ==> #[trigger] hex_digit(hex_digits(n, width)[i]) is Some,
        forall|i: int| 0 <= i < width ==> !is_ascii_ws(#[trigger] hex_digits(n, width)[i]) && hex_digits(n, width)[i] != 0x2b,
        hex_value(hex_digits(n, width)) == (n as int) % pow(16, width),
    decreases width,
{
    vstd::arithmetic::power::lemma_pow_positive(16, width);
    if width > 0 {
        lemma_hex_digits(n / 16, (width - 1) as nat);
        let h = hex_digits(n, width);
        assert(h.drop_last() =~= hex_digits(n / 16, (width - 1) as nat));
        let c = hex_char(n % 16);
        assert(hex_digit(c) == Some(n % 16));
        assert forall|i: int| 0 <= i < width implies #[trigger] hex_digit(h[i]) is Some by {
            if i < width - 1 {
                assert(h[i] == hex_digits(n / 16, (width - 1) as nat)[i]);
            }
        }
        assert forall|i: int| 0 <= i < width implies !is_ascii_ws(#[trigger] h[i]) && h[i] != 0x2b by {
            if i < width - 1 {
                assert(h[i] == hex_digits(n / 16, (width - 1) as nat)[i]);
            }
        }
        let p = pow(16, (width - 1) as nat);
        vstd::arithmetic::power::lemma_pow_positive(16, (width - 1) as nat);
        assert(pow(16, width) == 16 * p) by {
            vstd::arithmetic::power::lemma_pow_adds(16, 1, (width - 1) as nat);
            vstd::arithmetic::power::lemma_pow1(16);
        }
        assert(hex_value(h) == (((n / 16) as int) % p) * 16 + (n % 16) as int);
        assert((((n / 16) as int) % p) * 16 + (n % 16) as int == (n as int) % (16 * p)) by {
            vstd::arithmetic::div_mod::lemma_breakdown(n as int, 16, p as int);
        }
    } else {
        assert(pow(16, 0) == 1) by {
            vstd::arithmetic::power::lemma_pow0(16);
        }
    }
}

proof fn lemma_parse_hex(w: u16)
    ensures
        spec_parse_hex16(hex_digits(w as nat, 4)) == Some(w),
        is_word(hex_digits(w as nat, 4)),
{
    lemma_hex_digits(w as nat, 4);
    let h = hex_digits(w as nat, 4);
    assert(pow(16, 4) == 65536) by {
        reveal_with_fuel(pow, 5);
    }
    assert(unsigned_digits(h) == h);
}

} // verus!

verus! {

/// The words of the request line for `m` after `RUN1`: seven decimal fields,
/// then the instruction words in hexadecimal.
pub open spec fn line_words(m: RequestModel) -> Seq<Seq<u8>> {
    seq![
        dec_digits(m.ticks as nat),
        dec_digits(m.origin as nat),
        dec_digits(m.wrap_target as nat),
        dec_digits(m.wrap_source as nat),
        dec_digits(m.side_bits as nat),
        dec_digits(flags_of(m)),
        dec_digits(m.len as nat),
    ] + Seq::new(m.len as nat, |i: int| hex_digits(m.code[i] as nat, 4))
}

proof fn lemma_words_text_join(code: Seq<u16>, n: nat)
    ensures
        words_text(code, n) == join(Seq::new(n, |i: int| hex_digits(code[i] as nat, 4))),
    decreases n,
{
    if n > 0 {
        lemma_words_text_join(code, (n - 1) as nat);
        let ws = Seq::new(n, |i: int| hex_digits(code[i] as nat, 4));
        assert(ws.drop_last() =~= Seq::new((n - 1) as nat, |i: int| hex_digits(code[i] as nat, 4)));
    } else {
        assert(Seq::new(0, |i: int| hex_digits(code[i] as nat, 4)) =~= Seq::<Seq<u8>>::empty());
    }
}

/// The first `k` numbers, each as a space and its decimal digits.
pub open spec fn fields_joined(ds: Seq<nat>, k: int) -> Seq<u8>
    decreases k,
{
    if k <= 0 {
        Seq::empty()
    } else {
        fields_joined(ds, k - 1) + field_text(ds[k - 1])
    }
}

proof fn lemma_join_dec(ds: Seq<nat>, k: nat)
    requires
        k <= ds.len(),
    ensures
        join(Seq::new(k, |i: int| dec_digits(ds[i]))) == fields_joined(ds, k as int),
    decreases k,
{
    if k > 0 {
        lemma_join_dec(ds, (k - 1) as nat);
        assert(Seq::new(k, |i: int| dec_digits(ds[i])).drop_last() =~= Seq::new((k - 1) as nat, |i: int| dec_digits(ds[i])));
    } else {
        assert(Seq::new(0, |i: int| dec_digits(ds[i])) =~= Seq::<Seq<u8>>::empty());
    }
}

proof fn lemma_fields_seven(ds: Seq<nat>)
    requires
        ds.len() == 7,
    ensures
        fields_joined(ds, 7) == field_text(ds[0]) + field_text(ds[1]) + field_text(ds[2]) + field_text(ds[3])
            + field_text(ds[4]) + field_text(ds[5]) + field_text(ds[6]),
{
    assert(fields_joined(ds, 0) == Seq::<u8>::empty());
    assert(fields_joined(ds, 1) =~= field_text(ds[0]));
    assert(fields_joined(ds, 2) == fields_joined(ds, 1) + field_text(ds[1]));
    assert(fields_joined(ds, 3) == fields_joined(ds, 2) + field_text(ds[2]));
    assert(fields_joined(ds, 4) == fields_joined(ds, 3) + field_text(ds[3]));
    assert(fields_joined(ds, 5) == fields_joined(ds, 4) + field_text(ds[4]));
    assert(fields_joined(ds, 6) == fields_joined(ds, 5) + field_text(ds[5]));
    assert(fields_joined(ds, 7) == fields_joined(ds, 6) + field_text(ds[6]));
}

#[verifier::spinoff_prover]
#[verifier::rlimit(40)]
proof fn lemma_write_is_join(m: RequestModel)
    ensures
        spec_write(m) == run1_word() + join(line_words(m)) + seq![0x0au8],
{
    let f = seq![
        dec_digits(m.ticks as nat),
        dec_digits(m.origin as nat),
        dec_digits(m.wrap_target as nat),
        dec_digits(m.wrap_source as nat),
        dec_digits(m.side_bits as nat),
        dec_digits(flags_of(m)),
        dec_digits(m.len as nat),
    ];
    let h = Seq::new(m.len as nat, |i: int| hex_digits(m.code[i] as nat, 4));
    lemma_join_add(f, h);
    lemma_words_text_join(m.code, m.len as nat);
    let ds = seq![m.ticks as nat, m.origin as nat, m.wrap_target as nat, m.wrap_source as nat, m.side_bits as nat, flags_of(m), m.len as nat];
    lemma_join_dec(ds, 7);
    assert(f =~= Seq::new(7, |i: int| dec_digits(ds[i])));
    lemma_fields_seven(ds);
    assert(line_words(m) == f + h);
    let ft = field_text(m.ticks as nat) + field_text(m.origin as nat) + field_text(m.wrap_target as nat)
        + field_text(m.wrap_source as nat) + field_text(m.side_bits as nat) + field_text(flags_of(m)) + field_text(m.len as nat);
    assert(join(f) == ft);
    assert(join(line_words(m)) == ft + words_text(m.code, m.len as nat));
    assert(spec_write(m) =~= run1_word() + (ft + words_text(m.code, m.len as nat)) + seq![0x0au8]);
}

proof fn lemma_spec_words(toks: Seq<Seq<u8>>, code: Seq<u16>, n: nat)
    requires
        n <= code.len(),
        8 + n <= toks.len(),
        forall|i: int| 0 <= i < n ==> #[trigger] toks[8 + i] == hex_digits(code[i] as nat, 4),
    ensures
        spec_words(toks, n) == Ok::<Seq<u16>, &'static str>(code.take(n as int)),
    decreases n,
{
    if n > 0 {
        lemma_spec_words(toks, code, (n - 1) as nat);
        lemma_parse_hex(code[n - 1]);
        assert(toks[8 + (n - 1)] == hex_digits(code[n - 1] as nat, 4));
        assert(code.take(n as int) =~= code.take(n - 1).push(code[n - 1]));
    } else {
        assert(code.take(0) =~= Seq::<u16>::empty());
    }
}

/// Reading the request line that `write` produces for a valid request gives
/// the request back. (Words past `len` must be zero: reading fills them so.)
pub proof fn lemma_write_parse_roundtrip(m: RequestModel)
    requires
        spec_validate(m) is Ok,
        m.code.len() == MAX_WORDS,
        forall|i: int| m.len <= i < MAX_WORDS ==> #[trigger] m.code[i] == 0,
    ensures
        spec_parse(spec_write(m)) == Ok::<RequestModel, &'static str>(m),
{
    let ws = line_words(m);
    lemma_write_is_join(m);
    assert(is_word(run1_word()));
    lemma_parse_dec(m.ticks as nat);
    lemma_parse_dec(m.origin as nat);
    lemma_parse_dec(m.wrap_target as nat);
    lemma_parse_dec(m.wrap_source as nat);
    lemma_parse_dec(m.side_bits as nat);
    lemma_parse_dec(flags_of(m));
    lemma_parse_dec(m.len as nat);
    assert forall|i: int| 0 <= i < ws.len() implies is_word(#[trigger] ws[i]) by {
        if i >= 7 {
            lemma_parse_hex(m.code[i - 7]);
        }
    }
    lemma_tokens_line(run1_word(), ws);
    let toks = tokens(spec_write(m));
    assert(toks == seq![run1_word()] + ws);
    assert(toks.len() == 8 + m.len);
    assert(toks[1] == dec_digits(m.ticks as nat));
    assert(toks[2] == dec_digits(m.origin as nat));
    assert(toks[3] == dec_digits(m.wrap_target as nat));
    assert(toks[4] == dec_digits(m.wrap_source as nat));
    assert(toks[5] == dec_digits(m.side_bits as nat));
    assert(toks[6] == dec_digits(flags_of(m)));
    assert(toks[7] == dec_digits(m.len as nat));
    let flags = flags_of(m) as u8;
    assert(spec_header(toks) == Ok::<(u32, u8, u8, u8, u8, u8, u8), &'static str>(
        (m.ticks, m.origin, m.wrap_target, m.wrap_source, m.side_bits, flags, m.len as u8)));
    lemma_spec_words(toks, m.code, m.len as nat);
    let m2 = RequestModel {
        ticks: m.ticks,
        origin: m.origin,
        wrap_target: m.wrap_target,
        wrap_source: m.wrap_source,
        side_bits: m.side_bits,
        side_optional: flags % 2 == 1,
        side_pindirs: (flags / 2) % 2 == 1,
        len: (m.len as u8) as usize,
        code: m.code.take(m.len as int) + Seq::new((MAX_WORDS - m.len) as nat, |i: int| 0u16),
    };
    assert(m2.code =~= m.code);
    assert(m2 =~= m);
}

/// Every byte of a request line is ASCII.
pub open spec fn all_ascii(b: Seq<u8>) -> bool {
    forall|i: int| 0 <= i < b.len() ==> #[trigger] b[i] < 128
}

proof fn lemma_join_ascii(ws: Seq<Seq<u8>>)
    requires
        forall|i: int| 0 <= i < ws.len() ==> all_ascii(#[trigger] ws[i]),
    ensures
        all_ascii(join(ws)),
    decreases ws.len(),
{
    if ws.len() > 0 {
        lemma_join_ascii(ws.drop_last());
        let a = join(ws.drop_last());
        let j = join(ws);
        assert(all_ascii(ws.last()));
        assert forall|i: int| 0 <= i < j.len() implies #[trigger] j[i] < 128 by {
            if i < a.len() {
                assert(j[i] == a[i]);
            } else if i > a.len() {
                assert(j[i] == ws.last()[i - a.len() - 1]);
            }
        }
    }
}

proof fn lemma_write_ascii(m: RequestModel)
    ensures
        all_ascii(spec_write(m)),
{
    lemma_write_is_join(m);
    let ws = line_words(m);
    assert forall|i: int| 0 <= i < ws.len() implies all_ascii(#[trigger] ws[i]) by {
        if i < 7 {
            let n: nat = if i == 0 { m.ticks as nat } else if i == 1 { m.origin as nat } else if i == 2 { m.wrap_target as nat }
                else if i == 3 { m.wrap_source as nat } else if i == 4 { m.side_bits as nat } else if i == 5 { flags_of(m) } else { m.len as nat };
            lemma_dec_digits(n);
            assert(ws[i] == dec_digits(n));
            assert forall|k: int| 0 <= k < ws[i].len() implies #[trigger] ws[i][k] < 128 by {
                assert(is_digit(dec_digits(n)[k]));
            }
        } else {
            lemma_hex_digits(m.code[i - 7] as nat, 4);
            let h = hex_digits(m.code[i - 7] as nat, 4);
            assert forall|k: int| 0 <= k < h.len() implies #[trigger] h[k] < 128 by {
                assert(hex_digit(h[k]) is Some);
            }
        }
    }
    lemma_join_ascii(ws);
    let j = join(ws);
    let s = spec_write(m);
    assert forall|i: int| 0 <= i < s.len() implies #[trigger] s[i] < 128 by {
        if i < 4 {
            assert(s[i] == run1_word()[i]);
        } else if i < 4 + j.len() {
            assert(s[i] == j[i - 4]);
        }
    }
}

proof fn lemma_ascii_encode(b: Seq<u8>)
    requires
        all_ascii(b),
    ensures
        vstd::utf8::encode_utf8(ascii_chars(b)) == b,
{
    let c = ascii_chars(b);
    assert(vstd::utf8::is_ascii_chars(c)) by {
        assert forall|i: int| 0 <= i < c.len() implies '\0' <= #[trigger] c[i] <= '\u{7f}' by {
            assert(c[i] == b[i] as char);
            assert(b[i] < 128);
        }
    }
    vstd::utf8::is_ascii_chars_encode_utf8(c);
    let e = vstd::utf8::encode_utf8(c);
    assert forall|i: int| 0 <= i < b.len() implies #[trigger] e[i] == b[i] by {
        assert(c[i] as u8 == e[i]);
        assert(c[i] == b[i] as char);
    }
    assert(e =~= b);
}

/// Reading the text that `write` appends for a valid request gives the
/// request back.
pub proof fn lemma_write_text_parse_roundtrip(m: RequestModel)
    requires
        spec_validate(m) is Ok,
        m.code.len() == MAX_WORDS,
        forall|i: int| m.len <= i < MAX_WORDS ==> #[trigger] m.code[i] == 0,
    ensures
        spec_parse(vstd::utf8::encode_utf8(ascii_chars(spec_write(m)))) == Ok::<RequestModel, &'static str>(m),
{
    lemma_write_ascii(m);
    lemma_ascii_encode(spec_write(m));
    lemma_write_parse_roundtrip(m);
}

} // verus!

verus! {

/// The decoder after taking `bytes`, one at a time.
pub open spec fn feed(d: DecoderModel, bytes: Seq<u8>) -> DecoderModel
    decreases bytes.len(),
{
    if bytes.len() == 0 {
        d
    } else {
        spec_push(feed(d, bytes.drop_last()), bytes.last()).0
    }
}

/// A decoder holding nothing.
pub open spec fn empty_decoder() -> DecoderModel {
    DecoderModel { buf: Seq::empty(), overflow: false }
}

/// Only a newline makes the decoder hand back an outcome; a newline always
/// empties it, whatever came before (so a bad line never spoils the next).
pub proof fn lemma_decoder_newline(d: DecoderModel, byte: u8)
    ensures
        spec_push(d, byte).1 is Some <==> byte == 0x0a,
        byte == 0x0a ==> spec_push(d, byte).0 == empty_decoder(),
{
}

/// Taking the bytes of a line without its newline leaves the first
/// `MAX_REQUEST` of them in the buffer, marked too long if there were more.
pub proof fn lemma_feed_line(line: Seq<u8>)
    requires
        forall|i: int| 0 <= i < line.len() ==> #[trigger] line[i] != 0x0a,
    ensures
        feed(empty_decoder(), line).buf == line.take(if line.len() < MAX_REQUEST { line.len() as int } else { MAX_REQUEST as int }),
        feed(empty_decoder(), line).overflow == (line.len() > MAX_REQUEST),
    decreases line.len(),
{
    if line.len() == 0 {
        assert(line.take(0) =~= Seq::<u8>::empty());
    } else {
        let p = line.drop_last();
        assert forall|i: int| 0 <= i < p.len() implies #[trigger] p[i] != 0x0a by {
            assert(p[i] == line[i]);
        }
        lemma_feed_line(p);
        if line.len() <= MAX_REQUEST {
            assert(line.take(line.len() as int) =~= p.take(p.len() as int).push(line.last()));
        } else {
            assert(line.take(MAX_REQUEST as int) =~= p.take(MAX_REQUEST as int));
        }
    }
}

/// A line of at most `MAX_REQUEST` bytes taken by an empty decoder, then its
/// newline, is read as a request (if it is valid UTF-8); a longer line is
/// refused as too long; either way the decoder is empty again.
pub proof fn lemma_decoder_frames_line(line: Seq<u8>)
    requires
        forall|i: int| 0 <= i < line.len() ==> #[trigger] line[i] != 0x0a,
    ensures
        spec_push(feed(empty_decoder(), line), 0x0a).0 == empty_decoder(),
        line.len() <= MAX_REQUEST ==> spec_push(feed(empty_decoder(), line), 0x0a).1 == Some(
            if valid_utf8_line(line) { spec_parse(line) } else { Err::<RequestModel, &'static str>("invalid UTF-8") }),
        line.len() > MAX_REQUEST ==> spec_push(feed(empty_decoder(), line), 0x0a).1 == Some(
            Err::<RequestModel, &'static str>("request too long")),
{
    lemma_feed_line(line);
    if line.len() <= MAX_REQUEST {
        assert(line.take(line.len() as int) =~= line);
    }
}

/// The line is valid UTF-8.
pub open spec fn valid_utf8_line(line: Seq<u8>) -> bool {
    vstd::utf8::valid_utf8(line)
}

/// A request may run exactly when it asks for 1 to 1000 ticks, its 1 to 30
/// words fit below slot 30 from its origin, both wrap addresses lie inside the
/// program, its side-set has at most 5 bits (at least 1 when optional), and
/// no JMP word (one whose top three bits are zero) targets slot 30 or 31.
/// Words of any other kind never trip the marker-slot rule, whatever their
/// low five bits.
pub proof fn lemma_validate_rules(r: RequestModel)
    ensures
        spec_validate(r) is Ok <==> {
            &&& 1 <= r.ticks <= 1000
            &&& 1 <= r.len <= 30
            &&& r.origin + r.len <= 30
            &&& r.origin <= r.wrap_target < r.origin + r.len
            &&& r.origin <= r.wrap_source < r.origin + r.len
            &&& r.side_bits <= 5
            &&& !(r.side_optional && r.side_bits == 0)
            &&& forall|i: int| 0 <= i < r.len ==> !(#[trigger] r.code[i] < 8192 && r.code[i] % 32 >= 30)
        },
        spec_validate(r) == Err::<(), &'static str>("JMP targets reserved marker slots")
            ==> exists|i: int| 0 <= i < r.len && #[trigger] r.code[i] < 8192 && r.code[i] % 32 >= 30,
{
    let no_jmp_marker = forall|i: int| 0 <= i < r.len ==> !(#[trigger] r.code[i] < 8192 && r.code[i] % 32 >= 30);
    let none_marked = !(exists|i: int| 0 <= i < r.len && #[trigger] targets_marker(r.code[i]));
    if no_jmp_marker {
        assert forall|i: int| 0 <= i < r.len implies !#[trigger] targets_marker(r.code[i]) by {
            assert(!(r.code[i] < 8192 && r.code[i] % 32 >= 30));
        }
        assert(none_marked);
    }
    if none_marked {
        assert forall|i: int| 0 <= i < r.len implies !(#[trigger] r.code[i] < 8192 && r.code[i] % 32 >= 30) by {
            assert(!targets_marker(r.code[i]));
        }
    } else {
        let i = choose|i: int| 0 <= i < r.len && #[trigger] targets_marker(r.code[i]);
        assert(r.code[i] < 8192 && r.code[i] % 32 >= 30);
    }
}

/// A request line is `RUN1`, then the ticks, origin, wrap target, wrap
/// source, side-set bit count, side-set flags (1 for optional plus 2 for pin
/// directions) and word count in decimal, then each instruction word in four
/// lower-case hexadecimal digits, separated by single spaces and ended by a
/// newline.
pub proof fn lemma_write_format(m: RequestModel)
    requires
        m.len <= m.code.len(),
        m.len <= MAX_WORDS,
    ensures
        spec_write(m).last() == 0x0au8,
        tokens(spec_write(m)) == seq![
            seq![0x52u8, 0x55u8, 0x4eu8, 0x31u8],
            dec_digits(m.ticks as nat),
            dec_digits(m.origin as nat),
            dec_digits(m.wrap_target as nat),
            dec_digits(m.wrap_source as nat),
            dec_digits(m.side_bits as nat),
            dec_digits((if m.side_optional { 1nat } else { 0nat }) + (if m.side_pindirs { 2nat } else { 0nat })),
            dec_digits(m.len as nat),
        ] + Seq::new(m.len as nat, |i: int| hex_digits(m.code[i] as nat, 4)),
{
    let ws = line_words(m);
    lemma_write_is_join(m);
    assert(is_word(run1_word()));
    lemma_parse_dec(m.ticks as nat);
    lemma_parse_dec(m.origin as nat);
    lemma_parse_dec(m.wrap_target as nat);
    lemma_parse_dec(m.wrap_source as nat);
    lemma_parse_dec(m.side_bits as nat);
    lemma_parse_dec(flags_of(m));
    lemma_parse_dec(m.len as nat);
    assert forall|i: int| 0 <= i < ws.len() implies is_word(#[trigger] ws[i]) by {
        if i >= 7 {
            lemma_parse_hex(m.code[i - 7]);
        }
    }
    lemma_tokens_line(run1_word(), ws);
    assert(seq![run1_word()] + ws =~= seq![
            seq![0x52u8, 0x55u8, 0x4eu8, 0x31u8],
            dec_digits(m.ticks as nat),
            dec_digits(m.origin as nat),
            dec_digits(m.wrap_target as nat),
            dec_digits(m.wrap_source as nat),
            dec_digits(m.side_bits as nat),
            dec_digits((if m.side_optional { 1nat } else { 0nat }) + (if m.side_pindirs { 2nat } else { 0nat })),
            dec_digits(m.len as nat),
        ] + Seq::new(m.len as nat, |i: int| hex_digits(m.code[i] as nat, 4)));
}

} // verus!
