//! Misuse-resistant authenticated encryption: AES-SIV (RFC 5297), AES-PMAC-SIV
//! and the STREAM construction for ordered multi-message channels.

pub mod aead;
pub mod aes;
pub mod block;
pub mod buffer;
pub mod cmac;
pub mod ctr;
pub mod error;
mod lemmas;
pub mod mac;
pub mod pmac;
pub mod s2v;
pub mod siv;
pub mod stream;
pub mod util;
pub mod xor;

pub use block::{Block, Block8};
pub use error::Error;
pub use siv::{Aes128PmacSiv, Aes128Siv, Aes256PmacSiv, Aes256Siv};
