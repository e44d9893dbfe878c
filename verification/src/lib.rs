//! A byte-substitution cipher over a consumable random pad.
//!
//! Each plain byte is related to the pad byte at its position by an
//! operation token, such as `+07` or `-3A`: the signed offset, modulo 256,
//! that leads from the pad byte to the plain byte. A conversion table gives
//! tokens code bytes, and the code byte of the token is what is written.
//! Decryption looks the code byte up in the reverse of the table and applies
//! the token it finds to the same pad byte.
//!
//! - [`token`]: operation tokens, and the token of a pair of bytes;
//! - [`table`], [`forward`], [`reverse`]: the conversion table, as text and
//!   as the two mappings made from it;
//! - [`transform`], [`pipeline`]: single bytes and whole payloads;
//! - [`ledger`]: how a run takes its pad from the pool;
//! - [`run`]: a whole run, from the contents of its files to what it writes;
//! - [`laws`]: what holds of encryption and decryption together;
//! - [`size`], [`generator`]: the size and the making of a pool;
//! - [`text`], [`error`]: characters, and the ways to fail.

pub mod error;
pub mod forward;
pub mod generator;
pub mod laws;
pub mod ledger;
pub mod pipeline;
pub mod reverse;
pub mod run;
pub mod size;
pub mod table;
pub mod text;
pub mod token;
pub mod transform;
