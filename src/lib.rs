//! Conversion of exported two-factor-authentication token records into
//! `otpauth://` URIs, with the field precedence, default values and text
//! encodings that the URI needs.

pub mod encoding;
pub mod token;
pub mod record;
