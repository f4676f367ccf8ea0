use freeotp_migrate::record::{is_record_fragment, MalformedRecord, RecordFields};
use freeotp_migrate::token::{Token, TokenAlgorithm, TokenType};

fn fields(label: Option<&str>, secret: Option<Vec<i64>>) -> RecordFields {
    RecordFields {
        token_type: None,
        label: label.map(|l| l.to_string()),
        label_alt: None,
        secret,
        issuer_ext: None,
        issuer_int: None,
        issuer_alt: None,
        algorithm: None,
        digits: None,
        counter: None,
        period: None,
    }
}

#[test]
fn omitted_fields_take_defaults() {
    let t = Token::from_fields(fields(Some("x"), Some(vec![1, -2]))).unwrap();
    assert_eq!(t.token_type, TokenType::TOTP);
    assert_eq!(t.algorithm, TokenAlgorithm::SHA1);
    assert_eq!(t.digits, 6);
    assert_eq!(t.period, 30);
    assert_eq!(t.counter, 0);
    assert_eq!(t.label, "x");
    assert_eq!(t.secret, vec![1, -2]);
    assert_eq!(t.issuer_ext, None);
}

#[test]
fn given_fields_are_kept() {
    let mut f = fields(Some("bob"), Some(vec![-128, 127]));
    f.token_type = Some("HOTP".to_string());
    f.algorithm = Some("SHA256".to_string());
    f.digits = Some(8);
    f.counter = Some(5);
    f.period = Some(60);
    f.issuer_ext = Some("Example".to_string());
    f.label_alt = Some("alt".to_string());
    let t = Token::from_fields(f).unwrap();
    assert_eq!(t.token_type, TokenType::HOTP);
    assert_eq!(t.algorithm, TokenAlgorithm::SHA256);
    assert_eq!((t.digits, t.counter, t.period), (8, 5, 60));
    assert_eq!(t.secret, vec![-128, 127]);
    assert_eq!(t.issuer_ext.as_deref(), Some("Example"));
    assert_eq!(t.label_alt.as_deref(), Some("alt"));
}

#[test]
fn missing_secret_is_malformed() {
    let r = Token::from_fields(fields(Some("x"), None));
    assert_eq!(r.unwrap_err(), MalformedRecord::MissingSecret);
}

#[test]
fn secret_out_of_range_is_malformed() {
    let r = Token::from_fields(fields(Some("x"), Some(vec![500])));
    assert_eq!(r.unwrap_err(), MalformedRecord::SecretOutOfRange);
    let r = Token::from_fields(fields(Some("x"), Some(vec![0, -129])));
    assert_eq!(r.unwrap_err(), MalformedRecord::SecretOutOfRange);
}

#[test]
fn missing_label_is_malformed() {
    let r = Token::from_fields(fields(None, Some(vec![1])));
    assert_eq!(r.unwrap_err(), MalformedRecord::MissingLabel);
}

#[test]
fn unknown_names_are_malformed() {
    let mut f = fields(Some("x"), Some(vec![1]));
    f.token_type = Some("totp".to_string());
    assert_eq!(Token::from_fields(f).unwrap_err(), MalformedRecord::UnknownTokenType);
    let mut f = fields(Some("x"), Some(vec![1]));
    f.algorithm = Some("MD5".to_string());
    assert_eq!(Token::from_fields(f).unwrap_err(), MalformedRecord::UnknownAlgorithm);
}

#[test]
fn names_parse_exactly() {
    assert_eq!(TokenType::from_name("TOTP"), Some(TokenType::TOTP));
    assert_eq!(TokenType::from_name("HOTP"), Some(TokenType::HOTP));
    assert_eq!(TokenType::from_name("HOTPX"), None);
    assert_eq!(TokenAlgorithm::from_name("SHA512"), Some(TokenAlgorithm::SHA512));
    assert_eq!(TokenAlgorithm::from_name(""), None);
}

#[test]
fn fragments_are_filtered() {
    assert!(is_record_fragment("{\"label\":\"x\"}"));
    assert!(!is_record_fragment("tokenOrder"));
    assert!(!is_record_fragment(" {"));
    assert!(!is_record_fragment(""));
}
