//! Lexical front end of a small interpreted language: string literal decoding,
//! delimiter-balanced group extraction and identifier scanning over one source line.

pub mod decoder;
pub mod groups;
pub mod init;
pub mod laws;
pub mod parse_identtifier;
pub mod parse_string;
pub mod report;
pub mod text;
