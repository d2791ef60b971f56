//! The rules of CryptoSec, a tool that encrypts a file or a directory into one
//! container: the container format and its stream, data keys and how they are
//! wrapped, key pairs and their files, and the order in which things are done.
//! The primitives come from other crates and stand behind the contracts in
//! `primitives`; files, archives and the terminal are left to the program.
pub mod armor;
pub mod check;
pub mod cli;
pub mod commands;
pub mod deliver;
pub mod fault;
pub mod format;
pub mod kdf;
pub mod keys;
pub mod names;
pub mod ops;
pub mod primitives;
pub mod readback;
pub mod recipient;
pub mod store;
pub mod stream;
pub mod text;
pub mod ui;
