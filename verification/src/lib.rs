//! Authenticated file-encryption container: header codec, key derivation,
//! and the chunked AES-256-GCM pipeline that turns plaintext bytes into a
//! self-describing container and back.

pub mod aead;
pub mod bytes;
pub mod container;
pub mod decrypt;
pub mod encrypt;
pub mod header;
pub mod kdf;
pub mod keymaterial;
pub mod progress;
pub mod text;
