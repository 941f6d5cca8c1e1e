//! A two-pass assembler for a RISC-V instruction subset, with the per-line
//! encoder kept outside: the assembler asks for each instruction's encoding
//! and turns the answers into a little-endian program image.

pub mod assembler;
pub mod encoding;
pub mod error;
pub mod fault;
pub mod labels;
pub mod laws;
pub mod text;
