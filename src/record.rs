//! Building a token from the fields of one exported record, with the
//! default values of absent optional fields.

use vstd::prelude::*;
use crate::token::{Token, TokenAlgorithm, TokenType, default_counter, default_num_digits, default_period};

verus! {

/// The fields of one exported record as they were read, each absent or
/// present. The record's own names are `type`, `label`, `labelAlt`,
/// `secret`, `issuerExt`, `issuerInt`, `issuerAlt`, `algo`, `digits`,
/// `counter` and `period`.
#[derive(Clone, Debug)]
pub struct RecordFields {
    pub token_type: Option<String>,
    pub label: Option<String>,
    pub label_alt: Option<String>,
    pub secret: Option<Vec<i64>>,
    pub issuer_ext: Option<String>,
    pub issuer_int: Option<String>,
    pub issuer_alt: Option<String>,
    pub algorithm: Option<String>,
    pub digits: Option<usize>,
    pub counter: Option<usize>,
    pub period: Option<usize>,
}

/// Why a record does not make a token.
#[derive(Clone, Copy, Debug, PartialEq, Eq, Structural)]
pub enum MalformedRecord {
    /// `type` is neither `TOTP` nor `HOTP`.
    UnknownTokenType,
    /// `algo` is none of `SHA1`, `SHA256`, `SHA512`.
    UnknownAlgorithm,
    MissingLabel,
    MissingSecret,
    /// A value of `secret` lies outside `[-128, 127]`.
    SecretOutOfRange,
}

/// The token type of a name, if it is one.
pub open spec fn parse_token_type(s: Seq<char>) -> Option<TokenType> {
    if s == "TOTP"@ {
        Some(TokenType::TOTP)
    } else if s == "HOTP"@ {
        Some(TokenType::HOTP)
    } else {
        None
    }
}

/// The algorithm of a name, if it is one.
pub open spec fn parse_algorithm(s: Seq<char>) -> Option<TokenAlgorithm> {
    if s == "SHA1"@ {
        Some(TokenAlgorithm::SHA1)
    } else if s == "SHA256"@ {
        Some(TokenAlgorithm::SHA256)
    } else if s == "SHA512"@ {
        Some(TokenAlgorithm::SHA512)
    } else {
        None
    }
}

/// Whether every value fits in a signed byte.
pub open spec fn fits_signed_bytes(s: Seq<i64>) -> bool {
    forall|i: int| 0 <= i < s.len() ==> -128 <= #[trigger] s[i] <= 127
}

/// The first fault of a record, checked in this order: type, algorithm,
/// label, secret present, secret in range.
pub open spec fn record_error(f: RecordFields) -> Option<MalformedRecord> {
    if f.token_type is Some && parse_token_type(f.token_type->0@) is None {
        Some(MalformedRecord::UnknownTokenType)
    } else if f.algorithm is Some && parse_algorithm(f.algorithm->0@) is None {
        Some(MalformedRecord::UnknownAlgorithm)
    } else if f.label is None {
        Some(MalformedRecord::MissingLabel)
    } else if f.secret is None {
        Some(MalformedRecord::MissingSecret)
    } else if !fits_signed_bytes(f.secret->0@) {
        Some(MalformedRecord::SecretOutOfRange)
    } else {
        None
    }
}

/// Whether `t` holds the fields of a well-formed record `f`, with TOTP,
/// SHA1, 6 digits, counter 0 and period 30 where `f` gives none.
pub open spec fn built_from(t: Token, f: RecordFields) -> bool {
    &&& t.token_type == (match f.token_type {
        Some(n) => parse_token_type(n@)->0,
        None => TokenType::TOTP,
    })
    &&& t.algorithm == (match f.algorithm {
        Some(n) => parse_algorithm(n@)->0,
        None => TokenAlgorithm::SHA1,
    })
    &&& Some(t.label) == f.label
    &&& t.secret@.len() == f.secret->0@.len()
    &&& forall|i: int| 0 <= i < t.secret@.len() ==> t.secret@[i] as i64 == #[trigger] f.secret->0@[i]
    &&& t.label_alt == f.label_alt
    &&& t.issuer_ext == f.issuer_ext
    &&& t.issuer_int == f.issuer_int
    &&& t.issuer_alt == f.issuer_alt
    &&& t.digits == (match f.digits {
        Some(d) => d,
        None => 6,
    })
    &&& t.counter == (match f.counter {
        Some(c) => c,
        None => 0,
    })
    &&& t.period == (match f.period {
        Some(p) => p,
        None => 30,
    })
}

/// Whether two texts hold the same characters.
pub fn same_text(a: &str, b: &str) -> (r: bool)
    ensures
        r == (a@ == b@),
{
    let n = a.unicode_len();
    if n != b.unicode_len() {
        return false;
    }
    let mut i: usize = 0;
    while i < n
        invariant
            n == a@.len(),
            n == b@.len(),
            i <= n,
            a@.subrange(0, i as int) == b@.subrange(0, i as int),
        decreases n - i,
    {
        if a.get_char(i) != b.get_char(i) {
            return false;
        }
        assert(a@.subrange(0, i + 1) =~= a@.subrange(0, i as int).push(a@[i as int]));
        assert(b@.subrange(0, i + 1) =~= b@.subrange(0, i as int).push(b@[i as int]));
        i = i + 1;
    }
    assert(a@ =~= a@.subrange(0, n as int));
    assert(b@ =~= b@.subrange(0, n as int));
    true
}

impl TokenType {
    /// The token type named `TOTP` or `HOTP`; none for any other name.
    pub fn from_name(name: &str) -> (r: Option<TokenType>)
        ensures
            r == parse_token_type(name@),
    {
        if same_text(name, "TOTP") {
            Some(TokenType::TOTP)
        } else if same_text(name, "HOTP") {
            Some(TokenType::HOTP)
        } else {
            None
        }
    }
}

impl TokenAlgorithm {
    /// The algorithm named `SHA1`, `SHA256` or `SHA512`; none for any other
    /// name.
    pub fn from_name(name: &str) -> (r: Option<TokenAlgorithm>)
        ensures
            r == parse_algorithm(name@),
    {
        if same_text(name, "SHA1") {
            Some(TokenAlgorithm::SHA1)
        } else if same_text(name, "SHA256") {
            Some(TokenAlgorithm::SHA256)
        } else if same_text(name, "SHA512") {
            Some(TokenAlgorithm::SHA512)
        } else {
            None
        }
    }
}

/// The values as signed bytes, or none where one does not fit.
pub fn to_signed_bytes(values: &Vec<i64>) -> (r: Option<Vec<i8>>)
    ensures
        r is Some <==> fits_signed_bytes(values@),
        r matches Some(b) ==> b@.len() == values@.len() && forall|i: int|
            0 <= i < b@.len() ==> b@[i] as i64 == #[trigger] values@[i],
{
    let mut out: Vec<i8> = Vec::new();
    let mut i: usize = 0;
    while i < values.len()
        invariant
            i <= values@.len(),
            out@.len() == i,
            forall|j: int| 0 <= j < i ==> -128 <= #[trigger] values@[j] <= 127,
            forall|j: int| 0 <= j < i ==> out@[j] as i64 == #[trigger] values@[j],
        decreases values@.len() - i,
    {
        let v = values[i];
        if v < -128 || v > 127 {
            return None;
        }
        out.push(v as i8);
        i = i + 1;
    }
    Some(out)
}

impl Token {
    /// Builds the token of one record. Absent optional fields take their
    /// defaults; a record whose type or algorithm is unknown, that lacks a
    /// label or a secret, or whose secret does not fit in signed bytes is
    /// refused with the first such fault.
    pub fn from_fields(f: RecordFields) -> (r: Result<Token, MalformedRecord>)
        ensures
            r is Ok <==> record_error(f) is None,
            r matches Err(e) ==> record_error(f) == Some(e),
            r matches Ok(t) ==> built_from(t, f),
    {
        let token_type = match &f.token_type {
            Some(n) => match TokenType::from_name(n.as_str()) {
                Some(t) => t,
                None => return Err(MalformedRecord::UnknownTokenType),
            },
            None => TokenType::TOTP,
        };
        let algorithm = match &f.algorithm {
            Some(n) => match TokenAlgorithm::from_name(n.as_str()) {
                Some(a) => a,
                None => return Err(MalformedRecord::UnknownAlgorithm),
            },
            None => TokenAlgorithm::SHA1,
        };
        let label = match &f.label {
            Some(l) => l.clone(),
            None => return Err(MalformedRecord::MissingLabel),
        };
        let secret = match &f.secret {
            Some(s) => match to_signed_bytes(s) {
                Some(b) => b,
                None => return Err(MalformedRecord::SecretOutOfRange),
            },
            None => return Err(MalformedRecord::MissingSecret),
        };
        let digits = match f.digits {
            Some(d) => d,
            None => default_num_digits(),
        };
        let counter = match f.counter {
            Some(c) => c,
            None => default_counter(),
        };
        let period = match f.period {
            Some(p) => p,
            None => default_period(),
        };
        Ok(Token {
            token_type,
            label,
            label_alt: f.label_alt,
            secret,
            issuer_ext: f.issuer_ext,
            issuer_int: f.issuer_int,
            issuer_alt: f.issuer_alt,
            algorithm,
            digits,
            counter,
            period,
        })
    }
}

/// Whether a text fragment of the export is a candidate record: it starts
/// with `{`.
pub fn is_record_fragment(text: &str) -> (r: bool)
    ensures
        r == (text@.len() > 0 && text@[0] == '{'),
{
    if text.unicode_len() == 0 {
        false
    } else {
        text.get_char(0) == '{'
    }
}

} // verus!
