//! Text encodings used inside an `otpauth://` URI: percent-escaping of
//! query values, base32 of the secret and decimal numbers.

use vstd::prelude::*;

verus! {

/// Whether a byte is an unreserved URI character, which is kept as it is:
/// an ASCII letter or digit, `-`, `_`, `.` or `~`.
pub open spec fn is_unreserved(b: u8) -> bool {
    (0x41 <= b && b <= 0x5a) || (0x61 <= b && b <= 0x7a) || (0x30 <= b && b <= 0x39) || b == 0x2d
        || b == 0x5f || b == 0x2e || b == 0x7e
}

/// The upper-case hexadecimal digit of a value below 16.
pub open spec fn hex_digit(n: u8) -> char {
    if n < 10 {
        (n + 0x30) as char
    } else {
        (n + 0x37) as char
    }
}

/// `%XX`, with two upper-case hexadecimal digits.
pub open spec fn escaped_byte(b: u8) -> Seq<char> {
    seq!['%', hex_digit(b / 16), hex_digit(b % 16)]
}

/// What one byte becomes in a percent-encoded value.
pub open spec fn pct_byte(b: u8) -> Seq<char> {
    if is_unreserved(b) {
        seq![b as char]
    } else {
        escaped_byte(b)
    }
}

/// Percent-encoding of a byte sequence: unreserved bytes stay, every other
/// byte is escaped.
pub open spec fn pct_encode(bs: Seq<u8>) -> Seq<char>
    decreases bs.len(),
{
    if bs.len() == 0 {
        Seq::empty()
    } else {
        pct_encode(bs.drop_last()) + pct_byte(bs.last())
    }
}

/// Percent-encoding of the UTF-8 form of a text.
pub open spec fn pct_text(s: Seq<char>) -> Seq<char> {
    pct_encode(vstd::utf8::encode_utf8(s))
}

/// Relies on `String::push`: appends one character.
#[verifier::external_body]
pub(crate) fn push_char(s: &mut String, c: char)
    ensures
        final(s)@ == old(s)@.push(c),
{
    s.push(c)
}

/// Relies on percent_encoding::percent_encode_byte: `%` followed by the two
/// upper-case hexadecimal digits of the byte.
#[verifier::external_body]
fn escape_byte(b: u8) -> (r: &'static str)
    ensures
        r@ == escaped_byte(b),
{
    percent_encoding::percent_encode_byte(b)
}

/// Appends the percent-encoding of `bytes` to `out`.
pub fn push_pct_encoded(out: &mut String, bytes: &[u8])
    ensures
        final(out)@ == old(out)@ + pct_encode(bytes@),
{
    let mut i: usize = 0;
    while i < bytes.len()
        invariant
            i <= bytes@.len(),
            out@ == old(out)@ + pct_encode(bytes@.subrange(0, i as int)),
        decreases bytes@.len() - i,
    {
        let b = bytes[i];
        proof {
            let next = bytes@.subrange(0, i + 1);
            assert(next.drop_last() =~= bytes@.subrange(0, i as int));
            assert(next.last() == b);
        }
        if (0x41 <= b && b <= 0x5a) || (0x61 <= b && b <= 0x7a) || (0x30 <= b && b <= 0x39) || b
            == 0x2d || b == 0x5f || b == 0x2e || b == 0x7e {
            push_char(out, b as char);
        } else {
            out.append(escape_byte(b));
        }
        proof {
            assert(out@ =~= old(out)@ + pct_encode(bytes@.subrange(0, i + 1)));
        }
        i = i + 1;
    }
    assert(bytes@.subrange(0, bytes@.len() as int) =~= bytes@);
}

/// Percent-encodes the UTF-8 form of `s`.
pub fn pct_encode_text(s: &str) -> (r: String)
    ensures
        r@ == pct_text(s@),
{
    let mut out = String::new();
    push_pct_encoded(&mut out, s.as_bytes());
    assert(out@ =~= pct_text(s@));
    out
}

/// The character of a decimal digit.
pub open spec fn digit_char(d: nat) -> char {
    (d + 0x30) as char
}

/// The decimal text of a natural number, without leading zeros.
pub open spec fn decimal(n: nat) -> Seq<char>
    decreases n,
{
    if n < 10 {
        seq![digit_char(n)]
    } else {
        decimal(n / 10).push(digit_char(n % 10))
    }
}

/// Appends the decimal text of `n` to `out`.
pub fn push_decimal(out: &mut String, n: usize)
    ensures
        final(out)@ == old(out)@ + decimal(n as nat),
    decreases n,
{
    if n >= 10 {
        push_decimal(out, n / 10);
    }
    let d: u8 = (n % 10) as u8;
    push_char(out, (d + 0x30) as char);
    assert(out@ =~= old(out)@ + decimal(n as nat));
}

/// The RFC 4648 base32 text, padded with `=`, of a byte sequence.
pub uninterp spec fn base32_of(bytes: Seq<u8>) -> Seq<char>;

/// Whether a character can occur in padded RFC 4648 base32 text.
pub open spec fn is_base32_char(c: char) -> bool {
    ('A' <= c && c <= 'Z') || ('2' <= c && c <= '7') || c == '='
}

/// Relies on base32::encode with the padded RFC 4648 alphabet: eight
/// characters for each started group of five bytes, each a letter of the
/// alphabet or the padding `=`.
#[verifier::external_body]
pub(crate) fn base32_padded(data: &[u8]) -> (r: String)
    ensures
        r@ == base32_of(data@),
        r@.len() == 8 * ((data@.len() + 4) / 5),
        forall|i: int| 0 <= i < r@.len() ==> is_base32_char(#[trigger] r@[i]),
{
    base32::encode(base32::Alphabet::Rfc4648 { padding: true }, data)
}

/// How many times `c` occurs in `s`.
pub open spec fn count_char(s: Seq<char>, c: char) -> nat
    decreases s.len(),
{
    if s.len() == 0 {
        0
    } else {
        count_char(s.drop_last(), c) + if s.last() == c {
            1nat
        } else {
            0nat
        }
    }
}

/// Whether `c` does not occur in `s`.
pub open spec fn lacks(s: Seq<char>, c: char) -> bool {
    forall|i: int| 0 <= i < s.len() ==> s[i] != c
}

/// Whether a character can occur in percent-encoded text.
pub open spec fn is_pct_char(c: char) -> bool {
    c == '%' || ('A' <= c && c <= 'Z') || ('a' <= c && c <= 'z') || ('0' <= c && c <= '9') || c
        == '-' || c == '_' || c == '.' || c == '~'
}

/// Occurrences add up over a concatenation.
pub proof fn lemma_count_concat(a: Seq<char>, b: Seq<char>, c: char)
    ensures
        count_char(a + b, c) == count_char(a, c) + count_char(b, c),
    decreases b.len(),
{
    if b.len() == 0 {
        assert(a + b =~= a);
    } else {
        lemma_count_concat(a, b.drop_last(), c);
        assert((a + b).drop_last() =~= a + b.drop_last());
    }
}

/// A character that does not occur is counted zero times.
pub proof fn lemma_count_absent(s: Seq<char>, c: char)
    requires
        lacks(s, c),
    ensures
        count_char(s, c) == 0,
    decreases s.len(),
{
    if s.len() > 0 {
        lemma_count_absent(s.drop_last(), c);
    }
}

/// Percent-encoded text holds only unreserved characters and `%`.
pub proof fn lemma_pct_chars(bs: Seq<u8>)
    ensures
        forall|i: int| 0 <= i < pct_encode(bs).len() ==> is_pct_char(#[trigger] pct_encode(bs)[i]),
    decreases bs.len(),
{
    if bs.len() > 0 {
        lemma_pct_chars(bs.drop_last());
        let b = bs.last();
        let hi = b / 16;
        let lo = b % 16;
        assert(is_pct_char(hex_digit(hi)));
        assert(is_pct_char(hex_digit(lo)));
        if is_unreserved(b) {
            assert(is_pct_char(b as char));
        }
        assert forall|i: int| 0 <= i < pct_byte(b).len() implies is_pct_char(
            #[trigger] pct_byte(b)[i],
        ) by {}
        let prev = pct_encode(bs.drop_last());
        assert forall|i: int| 0 <= i < pct_encode(bs).len() implies is_pct_char(
            #[trigger] pct_encode(bs)[i],
        ) by {
            if i >= prev.len() {
                assert(pct_encode(bs)[i] == pct_byte(b)[i - prev.len()]);
            }
        }
    }
}

/// Decimal text holds only digits.
pub proof fn lemma_decimal_chars(n: nat)
    ensures
        forall|i: int| 0 <= i < decimal(n).len() ==> '0' <= #[trigger] decimal(n)[i] && decimal(
            n,
        )[i] <= '9',
    decreases n,
{
    if n >= 10 {
        lemma_decimal_chars(n / 10);
        let prev = decimal(n / 10);
        assert forall|i: int| 0 <= i < decimal(n).len() implies '0' <= #[trigger] decimal(n)[i]
            && decimal(n)[i] <= '9' by {
            if i < prev.len() {
                assert(decimal(n)[i] == prev[i]);
            }
        }
    }
}

/// The value of an upper-case hexadecimal digit.
pub open spec fn hex_value(c: char) -> int {
    if '0' <= c && c <= '9' {
        c as int - 0x30
    } else {
        c as int - 0x37
    }
}

/// Percent-decoding, read from the end: a `%` three places from the end
/// starts an escape, any other last character stands for itself.
pub open spec fn pct_decode(s: Seq<char>) -> Seq<u8>
    decreases s.len(),
{
    if s.len() == 0 {
        Seq::empty()
    } else if s.len() >= 3 && s[s.len() - 3] == '%' {
        pct_decode(s.subrange(0, s.len() - 3)).push(
            (hex_value(s[s.len() - 2]) * 16 + hex_value(s[s.len() - 1])) as u8,
        )
    } else {
        pct_decode(s.drop_last()).push(s.last() as u8)
    }
}

/// In percent-encoded text every `%` is followed by two more characters.
proof fn lemma_pct_percent_positions(bs: Seq<u8>)
    ensures
        forall|i: int|
            0 <= i < pct_encode(bs).len() && #[trigger] pct_encode(bs)[i] == '%' ==> i + 3
                <= pct_encode(bs).len(),
    decreases bs.len(),
{
    if bs.len() > 0 {
        lemma_pct_percent_positions(bs.drop_last());
        let prev = pct_encode(bs.drop_last());
        let b = bs.last();
        assert(hex_digit(b / 16) != '%' && hex_digit(b % 16) != '%');
        assert forall|i: int|
            0 <= i < pct_encode(bs).len() && #[trigger] pct_encode(bs)[i] == '%' implies i + 3
                <= pct_encode(bs).len() by {
            if i < prev.len() {
                assert(pct_encode(bs)[i] == prev[i]);
            } else {
                assert(pct_encode(bs)[i] == pct_byte(b)[i - prev.len()]);
            }
        }
    }
}

/// Decoding undoes percent-encoding.
pub proof fn lemma_pct_round_trip(bs: Seq<u8>)
    ensures
        pct_decode(pct_encode(bs)) == bs,
    decreases bs.len(),
{
    if bs.len() > 0 {
        let prev = pct_encode(bs.drop_last());
        let b = bs.last();
        let s = pct_encode(bs);
        lemma_pct_round_trip(bs.drop_last());
        lemma_pct_percent_positions(bs.drop_last());
        if is_unreserved(b) {
            assert(s == prev.push(b as char));
            assert(s.drop_last() =~= prev);
            if s.len() >= 3 {
                assert(s[s.len() - 3] == prev[prev.len() - 2]);
            }
            assert((b as char) as u8 == b);
        } else {
            let hi = b / 16;
            let lo = b % 16;
            assert(s =~= prev + seq!['%', hex_digit(hi), hex_digit(lo)]);
            assert(s.subrange(0, s.len() - 3) =~= prev);
            assert(hex_value(hex_digit(hi)) == hi as int);
            assert(hex_value(hex_digit(lo)) == lo as int);
        }
        assert(bs.drop_last().push(b) =~= bs);
    }
}

/// Decoding percent-encoded text gives back its UTF-8 bytes.
pub proof fn lemma_pct_text_round_trip(s: Seq<char>)
    ensures
        pct_decode(pct_text(s)) == vstd::utf8::encode_utf8(s),
{
    lemma_pct_round_trip(vstd::utf8::encode_utf8(s));
}

} // verus!
