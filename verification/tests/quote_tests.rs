use scheduler::quote::{decode_quote, ends_reports, quote_identity, QuoteError};

#[test]
fn decode_quote_decodes_base64() {
    assert_eq!(decode_quote("aGVsbG8=").unwrap(), b"hello".to_vec());
    assert_eq!(decode_quote("").unwrap(), Vec::<u8>::new());
    let quote: Vec<u8> = (0..=255u8).collect();
    assert_eq!(decode_quote(&base64::encode(&quote)).unwrap(), quote);
}

#[test]
fn decode_quote_rejects_invalid() {
    assert_eq!(decode_quote("not base64!"), Err(QuoteError::InvalidBase64));
    assert_eq!(decode_quote("a"), Err(QuoteError::InvalidBase64));
    assert_eq!(decode_quote("aGVsbG8"), Ok(b"hello".to_vec()));
}

#[test]
fn quote_identity_fields() {
    let quote: Vec<u8> = (0..432u32).map(|i| (i % 251) as u8).collect();
    let id = quote_identity(&quote).unwrap();
    assert_eq!(id.mr_enclave, quote[112..144].to_vec());
    assert_eq!(id.mr_signer, quote[176..208].to_vec());
    assert_eq!(id.signer_key, quote[399..432].to_vec());
    assert!(quote_identity(&quote[..431]).is_none());
}

#[test]
fn end_marker() {
    assert!(ends_reports(250));
    assert!(!ends_reports(0));
    assert!(!ends_reports(249));
}
