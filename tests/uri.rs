use freeotp_migrate::encoding::pct_encode_text;
use freeotp_migrate::token::{
    default_counter, default_num_digits, default_period, Token, TokenAlgorithm, TokenType,
};

fn token(label: &str, secret: Vec<i8>) -> Token {
    Token {
        token_type: TokenType::TOTP,
        label: label.to_string(),
        label_alt: None,
        secret,
        issuer_ext: None,
        issuer_int: None,
        issuer_alt: None,
        algorithm: TokenAlgorithm::SHA1,
        digits: 6,
        counter: 0,
        period: 30,
    }
}

fn query_value(uri: &str, key: &str) -> String {
    let query = uri.split('?').nth(1).unwrap();
    for pair in query.split('&') {
        let mut parts = pair.splitn(2, '=');
        if parts.next() == Some(key) {
            return parts.next().unwrap().to_string();
        }
    }
    panic!("no {} in {}", key, uri)
}

fn decoded(text: &str) -> String {
    percent_encoding::percent_decode_str(text).decode_utf8().unwrap().to_string()
}

#[test]
fn compose_full_uri() {
    let mut t = token("bob", vec![72, 101, 108, 108, 111]);
    t.issuer_ext = Some("Example".to_string());
    assert_eq!(
        t.compose(),
        "otpauth://totp/Example%3Abob?secret=JBSWY3DP&issuer=Example&algorithm=SHA1&digits=6&period=30"
    );
}

#[test]
fn compose_shape_holds() {
    let mut t = token("a b/c?d&e", vec![1, 2, 3]);
    t.issuer_alt = Some("x?y&z".to_string());
    let uri = t.compose();
    assert!(!uri.is_empty());
    assert!(uri.starts_with("otpauth://"));
    assert_eq!(uri.matches("otpauth://").count(), 1);
    assert_eq!(uri.matches('?').count(), 1);
    let query = uri.split('?').nth(1).unwrap();
    let keys: Vec<&str> = query.split('&').map(|p| p.split('=').next().unwrap()).collect();
    assert_eq!(keys, vec!["secret", "issuer", "algorithm", "digits", "period"]);
}

#[test]
fn compose_twice_is_identical() {
    let mut t = token("alice", vec![-5, 17, 99]);
    t.issuer_int = Some("Corp".to_string());
    assert_eq!(t.compose(), t.compose());
    let copy = t.clone();
    assert_eq!(t.compose(), copy.compose());
}

#[test]
fn secret_round_trips_through_base32() {
    let secret: Vec<i8> = vec![-1, -128, 0, 127, 42, -86, 3];
    let t = token("bob", secret.clone());
    let uri = t.compose();
    let text = query_value(&uri, "secret");
    let bytes = base32::decode(base32::Alphabet::Rfc4648 { padding: true }, &text).unwrap();
    let expected: Vec<u8> = secret.iter().map(|v| *v as u8).collect();
    assert_eq!(bytes, expected);
    assert_eq!(t.secret_as_bytes(), vec![255, 128, 0, 127, 42, 170, 3]);
}

#[test]
fn secret_with_padding() {
    let t = token("bob", vec![102]);
    assert_eq!(query_value(&t.compose(), "secret"), "MY======");
}

#[test]
fn empty_secret_encodes_to_nothing() {
    let t = token("bob", vec![]);
    assert!(t.compose().contains("?secret=&issuer="));
}

#[test]
fn issuer_internal_and_external() {
    let mut t = token("bob", vec![1]);
    t.issuer_int = Some("A".to_string());
    t.issuer_ext = Some("B".to_string());
    assert_eq!(t.issuer_text(), "A:B");
    assert_eq!(decoded(&query_value(&t.compose(), "issuer")), "A:B");
}

#[test]
fn issuer_internal_only() {
    let mut t = token("bob", vec![1]);
    t.issuer_int = Some("A".to_string());
    t.issuer_alt = Some("C".to_string());
    assert_eq!(t.issuer_text(), "A");
}

#[test]
fn issuer_external_only() {
    let mut t = token("bob", vec![1]);
    t.issuer_ext = Some("B".to_string());
    t.issuer_alt = Some("C".to_string());
    assert_eq!(t.issuer_text(), "B");
    assert_eq!(decoded(&query_value(&t.compose(), "issuer")), "B");
}

#[test]
fn issuer_alternate_before_label_alt() {
    let mut t = token("bob", vec![1]);
    t.issuer_alt = Some("C".to_string());
    t.label_alt = Some("D".to_string());
    assert_eq!(t.issuer_text(), "C");
    t.issuer_alt = None;
    assert_eq!(t.issuer_text(), "D");
}

#[test]
fn issuer_unknown() {
    let t = token("bob", vec![1]);
    assert_eq!(t.issuer_text(), "Unknown label");
    assert_eq!(decoded(&query_value(&t.compose(), "issuer")), "Unknown label");
    assert!(t.compose().contains("&issuer=Unknown%20label&"));
}

#[test]
fn label_with_external_issuer() {
    let mut t = token("bob", vec![1]);
    t.issuer_ext = Some("Example".to_string());
    assert_eq!(t.label_text(), "Example:bob");
    let uri = t.compose();
    let label = uri.trim_start_matches("otpauth://totp/").split('?').next().unwrap();
    assert_eq!(decoded(label), "Example:bob");
}

#[test]
fn label_without_external_issuer() {
    let t = token("bob", vec![1]);
    assert_eq!(t.label_text(), "bob");
    assert!(t.compose().starts_with("otpauth://totp/bob?"));
}

#[test]
fn hotp_authority_is_lower_case() {
    let mut t = token("bob", vec![1]);
    t.token_type = TokenType::HOTP;
    t.counter = 12;
    let uri = t.compose();
    assert!(uri.starts_with("otpauth://hotp/"));
    assert!(!uri.contains("counter"));
}

#[test]
fn algorithm_and_numbers() {
    let mut t = token("bob", vec![1]);
    t.algorithm = TokenAlgorithm::SHA512;
    t.digits = 8;
    t.period = 60;
    assert!(t.compose().ends_with("&algorithm=SHA512&digits=8&period=60"));
    t.algorithm = TokenAlgorithm::SHA256;
    t.digits = 0;
    t.period = usize::MAX;
    assert!(t
        .compose()
        .ends_with(&format!("&algorithm=SHA256&digits=0&period={}", usize::MAX)));
}

#[test]
fn percent_encoding_of_text() {
    assert_eq!(pct_encode_text("aZ09-_.~"), "aZ09-_.~");
    assert_eq!(pct_encode_text("a b:/?#&="), "a%20b%3A%2F%3F%23%26%3D");
    assert_eq!(pct_encode_text("é"), "%C3%A9");
    assert_eq!(pct_encode_text(""), "");
}

#[test]
fn names_of_types_and_algorithms() {
    assert_eq!(TokenType::TOTP.name(), "TOTP");
    assert_eq!(TokenType::HOTP.name(), "HOTP");
    assert_eq!(TokenType::HOTP.uri_name(), "hotp");
    assert_eq!(TokenAlgorithm::SHA1.name(), "SHA1");
    assert_eq!(TokenAlgorithm::SHA256.name(), "SHA256");
    assert_eq!(TokenAlgorithm::SHA512.name(), "SHA512");
}

#[test]
fn default_values() {
    assert_eq!(TokenType::default(), TokenType::TOTP);
    assert_eq!(TokenAlgorithm::default(), TokenAlgorithm::SHA1);
    assert_eq!(default_num_digits(), 6);
    assert_eq!(default_period(), 30);
    assert_eq!(default_counter(), 0);
}
