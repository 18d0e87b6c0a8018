//! What the keyword-argument decoder is declared with: the fields of a
//! structure, the keys under which each is passed, and the diagnostics
//! raised while the declaration is read; and the decoder itself.

pub mod ast;
pub mod decode;
pub mod error;
pub mod field;
