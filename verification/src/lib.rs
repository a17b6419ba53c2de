//! A tokenized-vault standard: the message protocol a compliant vault
//! contract accepts, the token model its responses are built from, and a
//! reference vault demonstrating the guarantees the standard demands of
//! every implementation (rounding direction of previews, authority of the
//! `Max*` limits, rejection of extension calls the vault does not support).

pub mod codec;
pub mod error;
pub mod msg;
pub mod token;
pub mod vault;
