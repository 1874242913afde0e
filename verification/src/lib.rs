//! RC5 block cipher: a parameterized key schedule and a pair of inverse
//! 64-bit block transforms driven by a secret key and a round count.
//!
//! An [`RC5`] context is built once from the key bytes and the round
//! count; it then encrypts and decrypts any number of independent 8-byte
//! blocks in place. Decryption is proved to be the exact inverse of
//! encryption for every valid context and every block.

mod cipher;
mod schedule;
mod words;

pub use cipher::InvalidParameter;
pub use cipher::RC5;
pub use cipher::decrypted_block;
pub use cipher::encrypted_block;
pub use cipher::lemma_construct_deterministic;
pub use cipher::lemma_round_trip;
pub use schedule::round_keys;
pub use words::le_word;
pub use words::word_byte;
