//! The phases that a message passes through.
use vstd::prelude::*;

use crate::private::Locked;

verus! {

/// The phases that may follow the [`AadPhase`].
pub trait ValidNextPhase: Locked {

}

/// Phase for processing additional authenticated data (AAD) for tag generation.
#[derive(Debug, Clone, Copy)]
pub struct AadPhase;

/// Phase for processing plaintext for encryption and tag generation.
#[derive(Debug, Clone, Copy)]
pub struct EncryptionPhase;

impl Locked for EncryptionPhase {

}

impl ValidNextPhase for EncryptionPhase {

}

/// Phase for processing ciphertext for decryption and tag verification.
#[derive(Debug, Clone, Copy)]
pub struct OnePassDecryptionPhase;

impl Locked for OnePassDecryptionPhase {

}

impl ValidNextPhase for OnePassDecryptionPhase {

}

/// Phase for processing ciphertext for tag verification.
#[derive(Debug, Clone, Copy)]
pub struct VerificationPhase;

impl Locked for VerificationPhase {

}

impl ValidNextPhase for VerificationPhase {

}

/// Phase for processing ciphertext for decryption after tag verification.
#[derive(Debug, Clone, Copy)]
pub struct DecryptionPhase;

} // verus!
