//! Core of the ChaCha20-Poly1305 authenticated cipher.
//!
//! [`standard::Cipher`] encrypts or decrypts a message that is at hand as a
//! whole. [`streaming::StreamingCipher`] takes associated data and message
//! piece by piece; the phases of [`phase`] fix the order of the steps.
//!
//! What is computed is stated in [`construction`] and [`state`], and spelled
//! out byte by byte in [`meaning`]; what holds of whole messages is proved in
//! [`laws`].
pub mod buffer;
pub mod construction;
pub mod error;
pub mod keystream;
pub mod laws;
pub mod mac;
pub mod meaning;
pub mod phase;
mod private;
pub mod session;
mod setup;
pub mod standard;
pub mod state;
pub mod streaming;
mod wipe;

pub use crate::buffer::InOutBuf;
pub use crate::error::Error;
pub use crate::keystream::{ChaCha20, Keystream};
pub use crate::mac::Tag;
pub use crate::phase::{
    AadPhase, DecryptionPhase, EncryptionPhase, OnePassDecryptionPhase, ValidNextPhase,
    VerificationPhase,
};
pub use crate::standard::Cipher;
pub use crate::streaming::StreamingCipher;
