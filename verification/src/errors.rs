//! The error taxonomy shared by the two tools. Assembly errors carry the
//! 0-based index of the offending source line; a reporter that prints them
//! 1-based lives outside the library.

use vstd::prelude::*;

verus! {

/// An error found while classifying, collecting symbols from, or encoding
/// a source line.
#[derive(Debug)]
pub enum LineError {
    /// A label name was declared twice.
    LabelMultiple(usize),
    /// A label line holds more than one colon.
    LabelMoreColon(String, usize),
    /// A label name holds whitespace.
    LabelWhitespace(String, usize),
    /// The only declared section is the data section.
    OnlyDataSection,
    /// No section was declared at all.
    NoSectionDecl,
    /// A `.section` line names neither code nor data.
    WrongSection(String, usize),
    /// A data literal sits in the code section, or an instruction in the
    /// data section.
    SectionMismatch(usize),
    /// Wrong number of arguments for a mnemonic.
    WrongArgs(String, usize),
    /// An immediate operand misses its leading `#`.
    StartWithHash(usize),
    /// An address-register operand misses its leading `&`.
    StartWithAmp(usize),
    /// A token that names no register, immediate, label or mnemonic.
    Unrecognized(String, usize),
}

/// A fatal condition met while emulating.
#[derive(Clone, Copy, PartialEq, Eq, Structural, Debug)]
pub enum EmuError {
    /// The fetched word's top 5 bits denote no opcode.
    UnrecognizedOpcode(u8),
    /// A memory access outside the loaded image.
    OutOfBoundsMemory(u16),
}

} // verus!
