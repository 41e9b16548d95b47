//! AES-128 in counter mode: a verified block cipher core and a byte-oriented
//! keystream generator built on top of it. A cipher instance is constructed
//! once from a 16-byte key; any number of independent byte streams can then
//! be derived from it by supplying a nonce of at most 16 bytes. Encryption
//! and decryption are the same operation, since counter mode XORs the
//! keystream against the data in both directions.

pub mod block;
pub mod ctr;
pub mod tables;

pub use block::AES;
pub use ctr::CtrByteStream;
pub use ctr::CTR;
