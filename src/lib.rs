//! Identifier codec: short account names to base-37 integers and back, plus
//! two one-way fingerprints for secondary identifiers.
pub mod ascii;
pub mod fingerprint;
pub mod username;

pub use fingerprint::{hash_file_name, hash_recovery_answer};
pub use username::{hash_to_username, username_to_hash};
