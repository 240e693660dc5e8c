//! What a service provider learns from a successful remote attestation.

use vstd::prelude::*;

verus! {

/// An AES-CMAC tag, as the attestation protocol's keys are exchanged.
pub type MacTag = [u8; 16];

/// The outcome of a remote attestation at the service provider: the
/// enclave's EPID pseudonym, when the attestation service reported one,
/// and the keys agreed for signing and for the session.
pub struct AttestationResult {
    pub epid_pseudonym: Option<String>,
    pub signing_key: MacTag,
    pub master_key: MacTag,
}

} // verus!
