//! CyberVault: an encrypted secrets vault. Argon2id turns the master
//! password into a key, ChaCha20-Poly1305 seals the serialized entries, and
//! the sealed bytes are framed as `MAGIC | salt | nonce | ciphertext`.
pub mod app;
pub mod app_laws;
pub mod cli;
pub mod crypto;
pub mod display;
pub mod entry_map;
pub mod keysmith_gen;
pub mod label_order;
pub mod text;
pub mod vault;
