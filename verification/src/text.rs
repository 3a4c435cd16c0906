//! Building ASCII text: decimal and zero-padded hexadecimal numbers.
use vstd::prelude::*;
use vstd::string::StringExecFns;

verus! {

/// ASCII bytes read as characters.
pub open spec fn ascii_chars(b: Seq<u8>) -> Seq<char> {
    b.map_values(|c: u8| c as char)
}

/// The ASCII digit for a value below 10.
pub open spec fn dec_char(d: nat) -> u8 {
    (0x30 + d) as u8
}

/// The lower-case ASCII hexadecimal digit for a value below 16.
pub open spec fn hex_char(d: nat) -> u8 {
    if d < 10 { (0x30 + d) as u8 } else { (0x61 + d - 10) as u8 }
}

/// `n` in decimal, without leading zeros.
pub open spec fn dec_digits(n: nat) -> Seq<u8>
    decreases n,
{
    if n < 10 {
        seq![dec_char(n)]
    } else {
        dec_digits(n / 10).push(dec_char(n % 10))
    }
}

/// The low `width` hexadecimal digits of `n`, most significant first (for
/// `n` below 16 to the `width`, that is `n` padded with zeros to `width` digits).
pub open spec fn hex_digits(n: nat, width: nat) -> Seq<u8>
    decreases width,
{
    if width == 0 {
        Seq::empty()
    } else {
        hex_digits(n / 16, (width - 1) as nat).push(hex_char(n % 16))
    }
}

/// `n` in decimal, as text.
pub open spec fn dec_text(n: nat) -> Seq<char> {
    ascii_chars(dec_digits(n))
}

/// The low `width` hexadecimal digits of `n`, as text.
pub open spec fn hex_text(n: nat, width: nat) -> Seq<char> {
    ascii_chars(hex_digits(n, width))
}

/// Appends one character to `s` with `String::push`; the contract claims that
/// the character is added at the end and nothing else changes.
#[verifier::external_body]
pub(crate) fn push_char(s: &mut String, c: char)
    ensures
        final(s)@ == old(s)@.push(c),
{
    s.push(c);
}

pub proof fn lemma_ascii_chars_push(b: Seq<u8>, c: u8)
    ensures
        ascii_chars(b.push(c)) == ascii_chars(b).push(c as char),
{
    assert(ascii_chars(b.push(c)) =~= ascii_chars(b).push(c as char));
}

pub proof fn lemma_ascii_chars_add(a: Seq<u8>, b: Seq<u8>)
    ensures
        ascii_chars(a + b) == ascii_chars(a) + ascii_chars(b),
{
    assert(ascii_chars(a + b) =~= ascii_chars(a) + ascii_chars(b));
}

/// Appends the ASCII byte `c` to `s`.
pub fn push_ascii(s: &mut String, c: u8)
    requires
        c < 128,
    ensures
        final(s)@ == old(s)@ + ascii_chars(seq![c]),
{
    push_char(s, c as char);
    proof {
        assert(ascii_chars(seq![c]) =~= seq![c as char]);
    }
}

/// Appends `n` in decimal to `s`.
pub fn push_dec(s: &mut String, n: u64)
    ensures
        final(s)@ == old(s)@ + ascii_chars(dec_digits(n as nat)),
    decreases n,
{
    if n >= 10 {
        push_dec(s, n / 10);
    }
    let d = (n % 10) as u8;
    push_ascii(s, 0x30 + d);
    proof {
        if n >= 10 {
            lemma_ascii_chars_push(dec_digits((n / 10) as nat), dec_char((n % 10) as nat));
        } else {
            assert(dec_digits(n as nat) == seq![dec_char(n as nat)]);
        }
    }
}

/// Appends the low `width` hexadecimal digits of `n` to `s`, most significant first.
pub fn push_hex(s: &mut String, n: u32, width: u8)
    ensures
        final(s)@ == old(s)@ + ascii_chars(hex_digits(n as nat, width as nat)),
    decreases width,
{
    if width == 0 {
        proof {
            assert(ascii_chars(hex_digits(n as nat, 0)) =~= Seq::<char>::empty());
        }
        return;
    }
    push_hex(s, n / 16, width - 1);
    let d = (n % 16) as u8;
    let c = if d < 10 { 0x30 + d } else { 0x61 + d - 10 };
    push_ascii(s, c);
    proof {
        lemma_ascii_chars_push(hex_digits((n / 16) as nat, (width - 1) as nat), hex_char((n % 16) as nat));
    }
}

/// Appends `t` to `s`.
pub fn push_str(s: &mut String, t: &str)
    ensures
        final(s)@ == old(s)@ + t@,
{
    s.append(t);
}

} // verus!
