//! The emulator's register file: eight general-purpose 16-bit registers,
//! the program counter, instruction register, and a flags byte with four
//! condition bits (overflow, carry, zero, negative) at positions 0..=3.

use vstd::prelude::*;

verus! {

/// Total number of general purpose registers.
pub const REG_TOTAL_NUM: usize = 8;

/// Index of the memory buffer register `mbr`.
pub const MBR_PTR: usize = 7;

/// Index of the link register `lr`.
pub const LNR_PTR: usize = 6;

/// Index of the stack pointer `sp`.
pub const SP_PTR: usize = 5;

/// The register file, general purpose and special purpose.
pub struct Registers {
    pub gp: [i16; 8],
    pub pc: u16,
    pub acc: i16,
    pub ir: u16,
    pub mar: u16,
    pub flags: u8,
}

/// The four condition flags. In the flags byte, `OV` is bit 0, `CA` bit 1,
/// `ZR` bit 2, `NG` bit 3; bits 4..=7 are unused.
#[derive(Clone, Copy, PartialEq, Eq, Structural, Debug)]
pub enum Flags {
    OV,
    CA,
    ZR,
    NG,
}

/// Bit position of a condition flag in the flags byte.
pub open spec fn flag_pos(f: Flags) -> u8 {
    match f {
        Flags::OV => 0,
        Flags::CA => 1,
        Flags::ZR => 2,
        Flags::NG => 3,
    }
}

/// The flags byte with one condition bit set or cleared.
pub open spec fn flag_set(flags: u8, f: Flags, b: bool) -> u8 {
    if b {
        flags | (1u8 << flag_pos(f))
    } else {
        flags & !(1u8 << flag_pos(f))
    }
}

/// Whether one condition bit of the flags byte is set.
pub open spec fn flag_read(flags: u8, f: Flags) -> bool {
    (flags >> flag_pos(f)) & 1 == 1
}

/// A sequence of flag updates applied left to right.
pub open spec fn apply_flags(flags: u8, updates: Seq<(Flags, bool)>) -> u8
    decreases updates.len(),
{
    if updates.len() == 0 {
        flags
    } else {
        flag_set(apply_flags(flags, updates.drop_last()), updates.last().0, updates.last().1)
    }
}

proof fn lemma_bit_set_read(f: u8, p: u8, q: u8, b: bool)
    by (bit_vector)
    requires
        p < 8,
        q < 8,
    ensures
        ((if b {
            f | (1u8 << p)
        } else {
            f & !(1u8 << p)
        }) >> q) & 1 == (if p == q {
            if b {
                1u8
            } else {
                0u8
            }
        } else {
            (f >> q) & 1
        }),
{
}

/// Setting one condition bit leaves the reading of every other condition
/// bit unchanged and makes its own reading the stored value.
pub proof fn lemma_flag_set_read(flags: u8, g: Flags, h: Flags, b: bool)
    ensures
        flag_read(flag_set(flags, g, b), h) == if g == h {
            b
        } else {
            flag_read(flags, h)
        },
{
    lemma_bit_set_read(flags, flag_pos(g), flag_pos(h), b);
}

impl Registers {
    /// A register file with every register and every flag zero.
    pub fn new() -> (r: Self)
        ensures
            r.gp@ =~= seq![0i16, 0i16, 0i16, 0i16, 0i16, 0i16, 0i16, 0i16],
            r.pc == 0,
            r.acc == 0,
            r.ir == 0,
            r.mar == 0,
            r.flags == 0,
    {
        Self { gp: [0, 0, 0, 0, 0, 0, 0, 0], pc: 0, acc: 0, ir: 0, mar: 0, flags: 0 }
    }

    /// Applies a list of flag updates, left to right, to the flags byte;
    /// every other register is untouched.
    pub fn change_flags(&mut self, flags: Vec<(Flags, bool)>)
        ensures
            final(self).flags == apply_flags(old(self).flags, flags@),
            final(self).gp == old(self).gp,
            final(self).pc == old(self).pc,
            final(self).acc == old(self).acc,
            final(self).ir == old(self).ir,
            final(self).mar == old(self).mar,
    {
        let n = flags.len();
        let mut i: usize = 0;
        while i < n
            invariant
                i <= n,
                n == flags@.len(),
                self.flags == apply_flags(old(self).flags, flags@.take(i as int)),
                self.gp == old(self).gp,
                self.pc == old(self).pc,
                self.acc == old(self).acc,
                self.ir == old(self).ir,
                self.mar == old(self).mar,
            decreases n - i,
        {
            let (f, b) = flags[i];
            let pos: u8 = match f {
                Flags::OV => 0,
                Flags::CA => 1,
                Flags::ZR => 2,
                Flags::NG => 3,
            };
            if b {
                self.flags = self.flags | (1u8 << pos);
            } else {
                self.flags = self.flags & !(1u8 << pos);
            }
            proof {
                assert(flags@.take(i + 1).drop_last() =~= flags@.take(i as int));
                assert(flags@.take(i + 1).last() == flags@[i as int]);
            }
            i = i + 1;
        }
        proof {
            assert(flags@.take(n as int) =~= flags@);
        }
    }

    /// Reads one condition flag out of the flags byte.
    pub fn read_flag(&self, flag: Flags) -> (r: bool)
        ensures
            r == flag_read(self.flags, flag),
    {
        let pos: u8 = match flag {
            Flags::OV => 0,
            Flags::CA => 1,
            Flags::ZR => 2,
            Flags::NG => 3,
        };
        (self.flags >> pos) & 1 == 1
    }
}

} // verus!
