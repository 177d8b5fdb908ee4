//! Verified core of a small command-line password manager: the data model of
//! the vault, base64 and UTF-8 handling, key derivation from the master
//! password, authenticated encryption of entries, and the searching, sorting,
//! masking and removal logic behind the commands.

pub mod codec;
pub mod model;
pub mod secrets;
pub mod text;
pub mod ui;
pub mod vault;


