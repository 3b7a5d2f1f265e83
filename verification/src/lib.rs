//! A two-tool toolchain for a 16-bit load/store processor: a two-pass
//! assembler that turns assembly source lines into a big-endian binary
//! image, and an emulator that executes such an image with a
//! fetch-decode-execute loop over a word-addressed memory and a small
//! register file.

pub mod assembler;
pub mod cpu;
pub mod encoder;
pub mod errors;
pub mod isa;
pub mod lexer;
pub mod registers;
pub mod symbols;
