//! Enclave quotes carried in attestation reports.
//!
//! An attestation report carries the quote body in Base64; once decoded,
//! the enclave's measurement, its signer's measurement and the signer's
//! public key sit at fixed offsets of the quote.

use vstd::prelude::*;
use vstd::string::StringSliceAdditionalSpecFns;

verus! {

/// What `base64::decode` gives for `input` under the standard alphabet:
/// the decoded bytes, or nothing when `input` is not valid Base64.
pub uninterp spec fn base64_standard_decode(input: Seq<u8>) -> Option<Seq<u8>>;

#[verifier::external_type_specification]
#[verifier::external_body]
pub struct ExDecodeError(base64::DecodeError);

/// `base64::decode` (standard alphabet, padding required): its result is
/// named by `base64_standard_decode`, and it fails exactly when that name
/// gives nothing.
#[verifier::external_body]
fn base64_decode(input: &[u8]) -> (res: Result<Vec<u8>, base64::DecodeError>)
    ensures
        match res {
            Ok(v) => base64_standard_decode(input@) == Some(v@),
            Err(_) => base64_standard_decode(input@) is None,
        },
{
    base64::decode(input)
}

/// Why a quote could not be read.
#[derive(Debug, PartialEq, Eq)]
pub enum QuoteError {
    /// The quote body is not valid Base64.
    InvalidBase64,
}

/// Decodes the Base64 quote body of an attestation report.
pub fn decode_quote(quote_body: &str) -> (res: Result<Vec<u8>, QuoteError>)
    ensures
        match res {
            Ok(q) => base64_standard_decode(quote_body.spec_bytes()) == Some(q@),
            Err(e) => e == QuoteError::InvalidBase64 && base64_standard_decode(
                quote_body.spec_bytes(),
            ) is None,
        },
{
    match base64_decode(quote_body.as_bytes()) {
        Ok(q) => Ok(q),
        Err(_) => Err(QuoteError::InvalidBase64),
    }
}

/// Where the enclave measurement (MRENCLAVE) lies in a quote.
pub const MR_ENCLAVE_START: usize = 112;

pub const MR_ENCLAVE_END: usize = 144;

/// Where the signer measurement (MRSIGNER) lies in a quote.
pub const MR_SIGNER_START: usize = 176;

pub const MR_SIGNER_END: usize = 208;

/// Where the signer's public key lies in a quote.
pub const SIGNER_KEY_START: usize = 399;

pub const SIGNER_KEY_END: usize = 432;

/// The identity fields of a quote.
pub struct QuoteIdentity {
    pub mr_enclave: Vec<u8>,
    pub mr_signer: Vec<u8>,
    pub signer_key: Vec<u8>,
}

/// A copy of `src[from..to]`.
fn copy_range(src: &[u8], from: usize, to: usize) -> (res: Vec<u8>)
    requires
        from <= to <= src@.len(),
    ensures
        res@ == src@.subrange(from as int, to as int),
{
    let mut out: Vec<u8> = Vec::new();
    let mut i: usize = from;
    while i < to
        invariant
            from <= i <= to,
            to <= src@.len(),
            out@ == src@.subrange(from as int, i as int),
        decreases to - i,
    {
        out.push(src[i]);
        i = i + 1;
        assert(out@ =~= src@.subrange(from as int, i as int));
    }
    out
}

/// The identity fields of a quote; `None` when the quote is too short to
/// hold the signer's public key.
pub fn quote_identity(quote: &[u8]) -> (res: Option<QuoteIdentity>)
    ensures
        quote@.len() < 432 ==> res is None,
        quote@.len() >= 432 ==> (res matches Some(id) && id.mr_enclave@ == quote@.subrange(112, 144)
            && id.mr_signer@ == quote@.subrange(176, 208) && id.signer_key@ == quote@.subrange(
            399,
            432,
        )),
{
    if quote.len() < SIGNER_KEY_END {
        return None;
    }
    Some(
        QuoteIdentity {
            mr_enclave: copy_range(quote, MR_ENCLAVE_START, MR_ENCLAVE_END),
            mr_signer: copy_range(quote, MR_SIGNER_START, MR_SIGNER_END),
            signer_key: copy_range(quote, SIGNER_KEY_START, SIGNER_KEY_END),
        },
    )
}

/// The marker that ends a stream of attestation reports.
pub const END_OF_REPORTS: u8 = 250;

/// Whether a report identifier ends the stream of reports.
pub fn ends_reports(id: u8) -> (res: bool)
    ensures
        res == (id == 250),
{
    id == END_OF_REPORTS
}

} // verus!
