//! The token record and its canonical `otpauth://` URI.

use vstd::prelude::*;
use crate::encoding::{
    base32_of, base32_padded, count_char, decimal, is_base32_char, is_pct_char, lacks,
    lemma_count_absent, lemma_count_concat, lemma_decimal_chars, lemma_pct_chars,
    lemma_pct_text_round_trip, pct_decode, pct_encode_text, pct_text, push_char, push_decimal,
};
use vstd::utf8::encode_utf8;

verus! {

/// Whether a token's code follows the time (TOTP) or a counter (HOTP).
#[derive(Clone, Copy, Debug, PartialEq, Eq, Structural)]
pub enum TokenType {
    TOTP,
    HOTP,
}

/// The hash algorithm a token's codes are computed with.
#[derive(Clone, Copy, Debug, PartialEq, Eq, Structural)]
pub enum TokenAlgorithm {
    SHA1,
    SHA256,
    SHA512,
}

/// The display name of a token type.
pub open spec fn token_type_name(t: TokenType) -> Seq<char> {
    match t {
        TokenType::TOTP => "TOTP"@,
        TokenType::HOTP => "HOTP"@,
    }
}

/// The lower-case name of a token type, as the URI's authority.
pub open spec fn type_uri_name(t: TokenType) -> Seq<char> {
    match t {
        TokenType::TOTP => "totp"@,
        TokenType::HOTP => "hotp"@,
    }
}

/// The display name of an algorithm.
pub open spec fn algorithm_name(a: TokenAlgorithm) -> Seq<char> {
    match a {
        TokenAlgorithm::SHA1 => "SHA1"@,
        TokenAlgorithm::SHA256 => "SHA256"@,
        TokenAlgorithm::SHA512 => "SHA512"@,
    }
}

impl TokenType {
    /// The name of the type: `TOTP` or `HOTP`.
    pub fn name(&self) -> (r: &'static str)
        ensures
            r@ == token_type_name(*self),
    {
        match self {
            TokenType::TOTP => "TOTP",
            TokenType::HOTP => "HOTP",
        }
    }

    /// The name of the type in lower case: `totp` or `hotp`.
    pub fn uri_name(&self) -> (r: &'static str)
        ensures
            r@ == type_uri_name(*self),
    {
        match self {
            TokenType::TOTP => "totp",
            TokenType::HOTP => "hotp",
        }
    }
}

impl Default for TokenType {
    /// A token is time-based unless it says otherwise.
    fn default() -> (r: TokenType)
        ensures
            r == TokenType::TOTP,
    {
        TokenType::TOTP
    }
}

impl TokenAlgorithm {
    /// The name of the algorithm: `SHA1`, `SHA256` or `SHA512`.
    pub fn name(&self) -> (r: &'static str)
        ensures
            r@ == algorithm_name(*self),
    {
        match self {
            TokenAlgorithm::SHA1 => "SHA1",
            TokenAlgorithm::SHA256 => "SHA256",
            TokenAlgorithm::SHA512 => "SHA512",
        }
    }
}

impl Default for TokenAlgorithm {
    /// SHA1 unless the record says otherwise.
    fn default() -> (r: TokenAlgorithm)
        ensures
            r == TokenAlgorithm::SHA1,
    {
        TokenAlgorithm::SHA1
    }
}

/// The number of digits of a code when the record gives none.
pub fn default_num_digits() -> (r: usize)
    ensures
        r == 6,
{
    6
}

/// The seconds a time-based code lasts when the record gives none.
pub fn default_period() -> (r: usize)
    ensures
        r == 30,
{
    30
}

/// The counter of a record that gives none.
pub fn default_counter() -> (r: usize)
    ensures
        r == 0,
{
    0
}

/// One two-factor-authentication credential.
#[derive(Clone, Debug)]
pub struct Token {
    pub token_type: TokenType,
    /// Usually the user name.
    pub label: String,
    /// Present where the entry was created by hand.
    pub label_alt: Option<String>,
    /// The key, one signed value per byte.
    pub secret: Vec<i8>,
    pub issuer_ext: Option<String>,
    pub issuer_int: Option<String>,
    pub issuer_alt: Option<String>,
    pub algorithm: TokenAlgorithm,
    pub digits: usize,
    /// Meaningful for HOTP only.
    pub counter: usize,
    pub period: usize,
}

/// The label embedded in the URI: `issuer_ext:label`, or the label alone.
pub open spec fn label_of(t: Token) -> Seq<char> {
    match t.issuer_ext {
        Some(e) => e@ + seq![':'] + t.label@,
        None => t.label@,
    }
}

/// The issuer embedded in the URI, by first match: `issuer_int:issuer_ext`,
/// `issuer_int`, `issuer_ext`, `issuer_alt`, `label_alt`, `Unknown label`.
pub open spec fn issuer_of(t: Token) -> Seq<char> {
    match t.issuer_int {
        Some(i) => match t.issuer_ext {
            Some(e) => i@ + seq![':'] + e@,
            None => i@,
        },
        None => match t.issuer_ext {
            Some(e) => e@,
            None => match t.issuer_alt {
                Some(a) => a@,
                None => match t.label_alt {
                    Some(l) => l@,
                    None => "Unknown label"@,
                },
            },
        },
    }
}

/// A signed value read as the byte of the same bits.
pub open spec fn byte_of(v: i8) -> u8 {
    if v < 0 {
        (v + 256) as u8
    } else {
        v as u8
    }
}

/// The secret as bytes.
pub open spec fn secret_bytes(s: Seq<i8>) -> Seq<u8> {
    Seq::new(s.len(), |i: int| byte_of(s[i]))
}

/// The canonical URI of a token.
pub open spec fn uri_of(t: Token) -> Seq<char> {
    "otpauth://"@ + type_uri_name(t.token_type) + "/"@ + pct_text(label_of(t)) + "?secret="@
        + base32_of(secret_bytes(t.secret@)) + "&issuer="@ + pct_text(issuer_of(t))
        + "&algorithm="@ + pct_text(algorithm_name(t.algorithm)) + "&digits="@ + decimal(
        t.digits as nat,
    ) + "&period="@ + decimal(t.period as nat)
}

impl Token {
    /// The label to embed in the URI.
    pub fn label_text(&self) -> (r: String)
        ensures
            r@ == label_of(*self),
    {
        let mut out = String::new();
        match &self.issuer_ext {
            Some(e) => {
                out.append(e.as_str());
                push_char(&mut out, ':');
            },
            None => {},
        }
        out.append(self.label.as_str());
        assert(out@ =~= label_of(*self));
        out
    }

    /// The issuer to embed in the URI.
    pub fn issuer_text(&self) -> (r: String)
        ensures
            r@ == issuer_of(*self),
    {
        let mut out = String::new();
        match &self.issuer_int {
            Some(i) => {
                out.append(i.as_str());
                match &self.issuer_ext {
                    Some(e) => {
                        push_char(&mut out, ':');
                        out.append(e.as_str());
                    },
                    None => {},
                }
            },
            None => {
                if let Some(e) = &self.issuer_ext {
                    out.append(e.as_str());
                } else if let Some(a) = &self.issuer_alt {
                    out.append(a.as_str());
                } else if let Some(l) = &self.label_alt {
                    out.append(l.as_str());
                } else {
                    out.append("Unknown label");
                }
            },
        }
        assert(out@ =~= issuer_of(*self));
        out
    }

    /// The secret as bytes, each signed value read as the byte of the same
    /// bits.
    pub fn secret_as_bytes(&self) -> (r: Vec<u8>)
        ensures
            r@ == secret_bytes(self.secret@),
    {
        let mut out: Vec<u8> = Vec::new();
        let mut i: usize = 0;
        while i < self.secret.len()
            invariant
                i <= self.secret@.len(),
                out@ =~= secret_bytes(self.secret@.subrange(0, i as int)),
            decreases self.secret@.len() - i,
        {
            let v = self.secret[i];
            let b: u8 = if v < 0 {
                (v as i16 + 256) as u8
            } else {
                v as u8
            };
            out.push(b);
            i = i + 1;
        }
        assert(self.secret@.subrange(0, self.secret@.len() as int) =~= self.secret@);
        out
    }

    /// The canonical `otpauth://` URI of the token.
    pub fn compose(&self) -> (r: String)
        ensures
            r@ == uri_of(*self),
            well_shaped_uri(r@),
    {
        let mut out = String::new();
        out.append("otpauth://");
        out.append(self.token_type.uri_name());
        out.append("/");
        let label = self.label_text();
        out.append(pct_encode_text(label.as_str()).as_str());
        out.append("?secret=");
        let bytes = self.secret_as_bytes();
        let secret = base32_padded(bytes.as_slice());
        out.append(secret.as_str());
        out.append("&issuer=");
        let issuer = self.issuer_text();
        out.append(pct_encode_text(issuer.as_str()).as_str());
        out.append("&algorithm=");
        out.append(pct_encode_text(self.algorithm.name()).as_str());
        out.append("&digits=");
        push_decimal(&mut out, self.digits);
        out.append("&period=");
        push_decimal(&mut out, self.period);
        assert(out@ =~= uri_of(*self));
        proof {
            lemma_uri_shape(*self);
        }
        out
    }
}

/// A URI whose query holds the keys `secret`, `issuer`, `algorithm`,
/// `digits` and `period`, in this order, after `head`.
pub open spec fn query_form(
    head: Seq<char>,
    secret: Seq<char>,
    issuer: Seq<char>,
    algorithm: Seq<char>,
    digits: Seq<char>,
    period: Seq<char>,
) -> Seq<char> {
    head + "?secret="@ + secret + "&issuer="@ + issuer + "&algorithm="@ + algorithm + "&digits="@
        + digits + "&period="@ + period
}

/// Whether a text is non-empty, starts with `otpauth://`, holds exactly one
/// `?`, and after it the keys `secret`, `issuer`, `algorithm`, `digits` and
/// `period`, in this order, with no `&` inside a value.
pub open spec fn well_shaped_uri(u: Seq<char>) -> bool {
    &&& u.len() > 0
    &&& u.subrange(0, 10) == "otpauth://"@
    &&& count_char(u, '?') == 1
    &&& exists|
        head: Seq<char>,
        secret: Seq<char>,
        issuer: Seq<char>,
        algorithm: Seq<char>,
        digits: Seq<char>,
        period: Seq<char>,
    |
        lacks(secret, '&') && lacks(issuer, '&') && lacks(algorithm, '&') && lacks(digits, '&')
            && lacks(period, '&') && u == #[trigger] query_form(
            head,
            secret,
            issuer,
            algorithm,
            digits,
            period,
        )
}

proof fn lemma_lacks_concat(a: Seq<char>, b: Seq<char>, c: char)
    requires
        lacks(a, c),
        lacks(b, c),
    ensures
        lacks(a + b, c),
{
    assert forall|i: int| 0 <= i < (a + b).len() implies (a + b)[i] != c by {
        if i >= a.len() {
            assert((a + b)[i] == b[i - a.len()]);
        }
    }
}

proof fn lemma_pct_lacks(s: Seq<char>)
    ensures
        lacks(pct_text(s), '?'),
        lacks(pct_text(s), '&'),
{
    lemma_pct_chars(vstd::utf8::encode_utf8(s));
    assert forall|i: int| 0 <= i < pct_text(s).len() implies pct_text(s)[i] != '?' && pct_text(
        s,
    )[i] != '&' by {
        assert(is_pct_char(pct_text(s)[i]));
    }
}

proof fn lemma_decimal_lacks(n: nat)
    ensures
        lacks(decimal(n), '?'),
        lacks(decimal(n), '&'),
{
    lemma_decimal_chars(n);
    assert forall|i: int| 0 <= i < decimal(n).len() implies decimal(n)[i] != '?' && decimal(
        n,
    )[i] != '&' by {
        assert('0' <= decimal(n)[i] <= '9');
    }
}

/// The base32 text of a secret, as the URI holds it.
proof fn lemma_base32_lacks(bytes: Seq<u8>)
    requires
        forall|i: int| 0 <= i < base32_of(bytes).len() ==> is_base32_char(#[trigger] base32_of(bytes)[i]),
    ensures
        lacks(base32_of(bytes), '?'),
        lacks(base32_of(bytes), '&'),
{
    assert forall|i: int| 0 <= i < base32_of(bytes).len() implies base32_of(bytes)[i] != '?'
        && base32_of(bytes)[i] != '&' by {
        assert(is_base32_char(base32_of(bytes)[i]));
    }
}

/// A token's URI is well shaped wherever the text of its secret holds only
/// characters of padded base32, as every encoding of a secret does.
pub proof fn lemma_uri_shape(t: Token)
    requires
        forall|i: int|
            0 <= i < base32_of(secret_bytes(t.secret@)).len() ==> is_base32_char(
                #[trigger] base32_of(secret_bytes(t.secret@))[i],
            ),
    ensures
        well_shaped_uri(uri_of(t)),
{
    reveal_strlit("otpauth://");
    reveal_strlit("/");
    reveal_strlit("?secret=");
    reveal_strlit("secret=");
    reveal_strlit("&issuer=");
    reveal_strlit("&algorithm=");
    reveal_strlit("&digits=");
    reveal_strlit("&period=");
    reveal_strlit("totp");
    reveal_strlit("hotp");
    let head = "otpauth://"@ + type_uri_name(t.token_type) + "/"@ + pct_text(label_of(t));
    let secret = base32_of(secret_bytes(t.secret@));
    let issuer = pct_text(issuer_of(t));
    let algorithm = pct_text(algorithm_name(t.algorithm));
    let digits = decimal(t.digits as nat);
    let period = decimal(t.period as nat);
    lemma_pct_lacks(label_of(t));
    lemma_pct_lacks(issuer_of(t));
    lemma_pct_lacks(algorithm_name(t.algorithm));
    lemma_decimal_lacks(t.digits as nat);
    lemma_decimal_lacks(t.period as nat);
    lemma_base32_lacks(secret_bytes(t.secret@));
    assert(uri_of(t) =~= query_form(head, secret, issuer, algorithm, digits, period));
    assert(uri_of(t).subrange(0, 10) =~= "otpauth://"@);
    let tail = "secret="@ + secret + "&issuer="@ + issuer + "&algorithm="@ + algorithm
        + "&digits="@ + digits + "&period="@ + period;
    assert(uri_of(t) =~= head + seq!['?'] + tail);
    lemma_lacks_concat("otpauth://"@, type_uri_name(t.token_type), '?');
    lemma_lacks_concat("otpauth://"@ + type_uri_name(t.token_type), "/"@, '?');
    lemma_lacks_concat(
        "otpauth://"@ + type_uri_name(t.token_type) + "/"@,
        pct_text(label_of(t)),
        '?',
    );
    lemma_lacks_concat("secret="@, secret, '?');
    lemma_lacks_concat("secret="@ + secret, "&issuer="@, '?');
    lemma_lacks_concat("secret="@ + secret + "&issuer="@, issuer, '?');
    lemma_lacks_concat("secret="@ + secret + "&issuer="@ + issuer, "&algorithm="@, '?');
    lemma_lacks_concat(
        "secret="@ + secret + "&issuer="@ + issuer + "&algorithm="@,
        algorithm,
        '?',
    );
    lemma_lacks_concat(
        "secret="@ + secret + "&issuer="@ + issuer + "&algorithm="@ + algorithm,
        "&digits="@,
        '?',
    );
    lemma_lacks_concat(
        "secret="@ + secret + "&issuer="@ + issuer + "&algorithm="@ + algorithm + "&digits="@,
        digits,
        '?',
    );
    lemma_lacks_concat(
        "secret="@ + secret + "&issuer="@ + issuer + "&algorithm="@ + algorithm + "&digits="@
            + digits,
        "&period="@,
        '?',
    );
    lemma_lacks_concat(
        "secret="@ + secret + "&issuer="@ + issuer + "&algorithm="@ + algorithm + "&digits="@
            + digits + "&period="@,
        period,
        '?',
    );
    lemma_count_absent(head, '?');
    lemma_count_absent(tail, '?');
    lemma_count_concat(head, seq!['?'], '?');
    lemma_count_concat(head + seq!['?'], tail, '?');
    assert(count_char(seq!['?'], '?') == 1) by {
        let one = seq!['?'];
        assert(one.drop_last() =~= Seq::<char>::empty());
        assert(count_char(one.drop_last(), '?') == 0);
        assert(one.last() == '?');
    }
}

/// The text of an optional field.
pub open spec fn opt_view(o: Option<String>) -> Option<Seq<char>> {
    match o {
        Some(s) => Some(s@),
        None => None,
    }
}

/// Whether two tokens hold the same values in every field.
pub open spec fn same_values(a: Token, b: Token) -> bool {
    &&& a.token_type == b.token_type
    &&& a.label@ == b.label@
    &&& opt_view(a.label_alt) == opt_view(b.label_alt)
    &&& a.secret@ == b.secret@
    &&& opt_view(a.issuer_ext) == opt_view(b.issuer_ext)
    &&& opt_view(a.issuer_int) == opt_view(b.issuer_int)
    &&& opt_view(a.issuer_alt) == opt_view(b.issuer_alt)
    &&& a.algorithm == b.algorithm
    &&& a.digits == b.digits
    &&& a.counter == b.counter
    &&& a.period == b.period
}

/// The URI depends on the token's values alone: a token composed twice,
/// or two tokens that hold the same values, give the same text.
pub proof fn lemma_compose_deterministic(a: Token, b: Token)
    requires
        same_values(a, b),
    ensures
        uri_of(a) == uri_of(b),
{
    assert(label_of(a) == label_of(b));
    assert(issuer_of(a) == issuer_of(b));
}

/// The part of the URI before its query.
pub open spec fn uri_head(t: Token) -> Seq<char> {
    "otpauth://"@ + type_uri_name(t.token_type) + "/"@ + pct_text(label_of(t))
}

/// The `secret` value of a token's URI is the padded base32 text of the
/// secret's bytes, each byte the signed value modulo 256.
pub proof fn lemma_secret_segment(t: Token)
    ensures
        uri_of(t) == query_form(
            uri_head(t),
            base32_of(secret_bytes(t.secret@)),
            pct_text(issuer_of(t)),
            pct_text(algorithm_name(t.algorithm)),
            decimal(t.digits as nat),
            decimal(t.period as nat),
        ),
        secret_bytes(t.secret@).len() == t.secret@.len(),
        forall|i: int|
            0 <= i < t.secret@.len() ==> #[trigger] secret_bytes(t.secret@)[i] as int == (
            t.secret@[i] as int) % 256,
{
    assert(uri_of(t) =~= query_form(
        uri_head(t),
        base32_of(secret_bytes(t.secret@)),
        pct_text(issuer_of(t)),
        pct_text(algorithm_name(t.algorithm)),
        decimal(t.digits as nat),
        decimal(t.period as nat),
    ));
}

/// The label and the issuer that a token's URI holds percent-decode to the
/// UTF-8 text of the composed label and issuer.
pub proof fn lemma_label_issuer_decode(t: Token)
    ensures
        uri_of(t) == query_form(
            uri_head(t),
            base32_of(secret_bytes(t.secret@)),
            pct_text(issuer_of(t)),
            pct_text(algorithm_name(t.algorithm)),
            decimal(t.digits as nat),
            decimal(t.period as nat),
        ),
        uri_head(t) == "otpauth://"@ + type_uri_name(t.token_type) + "/"@ + pct_text(label_of(t)),
        pct_decode(pct_text(label_of(t))) == encode_utf8(label_of(t)),
        pct_decode(pct_text(issuer_of(t))) == encode_utf8(issuer_of(t)),
{
    lemma_secret_segment(t);
    lemma_pct_text_round_trip(label_of(t));
    lemma_pct_text_round_trip(issuer_of(t));
}

} // verus!
