//! The per-host certificate record and the CA file locations.

use vstd::prelude::*;

verus! {

/// Length of a DER-encoded leaf signing key.
pub const KEY_SIZE: usize = 138;

/// A stored leaf certificate: the DER signing key (138 bytes) followed by
/// the DER certificate.
#[derive(Clone)]
pub struct CertifiedKeyDer<'a>(pub &'a [u8]);

impl<'a> CertifiedKeyDer<'a> {
    /// The signing key: the first 138 bytes.
    pub fn key_der(&self) -> (r: &'a [u8])
        requires
            self.0@.len() >= KEY_SIZE,
        ensures
            r@ == self.0@.subrange(0, KEY_SIZE as int),
    {
        &self.0[0..KEY_SIZE]
    }

    /// The certificate: everything after the key.
    pub fn cert_der(&self) -> (r: &'a [u8])
        requires
            self.0@.len() >= KEY_SIZE,
        ensures
            r@ == self.0@.subrange(KEY_SIZE as int, self.0@.len() as int),
    {
        &self.0[KEY_SIZE..self.0.len()]
    }
}

/// Where the CA lives on disk.
pub struct CertPaths {
    pub cert_cer_path: String,
    pub cert_pem_path: String,
    pub key_pem_path: String,
}

} // verus!
