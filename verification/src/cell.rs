//! The cells of a terminal grid.

use vstd::prelude::*;

verus! {

/// Attributes of a cell, one bit each.
#[derive(Debug, Copy, Clone, PartialEq, Eq, Structural)]
pub struct Flags(pub u16);

impl Flags {
    /// The line goes on in the next one; set on the cell in the last column.
    pub const WRAPLINE: u16 = 0x10;

    /// The character takes two columns, this one and the next.
    pub const WIDE_CHAR: u16 = 0x20;

    /// The second column of a wide character.
    pub const WIDE_CHAR_SPACER: u16 = 0x40;

    /// The last column of a line, left free because a wide character did not fit into it and
    /// stands at the beginning of the next line.
    pub const LEADING_WIDE_CHAR_SPACER: u16 = 0x400;

    /// Whether all bits of `mask` are set.
    pub open spec fn has(self, mask: u16) -> bool {
        self.0 & mask == mask
    }

    /// Whether all bits of `mask` are set.
    pub fn contains(&self, mask: u16) -> (r: bool)
        ensures
            r == self.has(mask),
    {
        self.0 & mask == mask
    }

    /// Whether any bit of `mask` is set.
    pub fn intersects(&self, mask: u16) -> (r: bool)
        ensures
            r == (self.0 & mask != 0),
    {
        self.0 & mask != 0
    }

    /// Flags share a bit with the three flags of wide characters if they have one of the three.
    pub proof fn lemma_intersects(self, mask: u16)
        requires
            mask == (Flags::WIDE_CHAR | Flags::WIDE_CHAR_SPACER
                | Flags::LEADING_WIDE_CHAR_SPACER),
        ensures
            (self.0 & mask != 0) == (self.has(Flags::WIDE_CHAR) || self.has(
                Flags::WIDE_CHAR_SPACER,
            ) || self.has(Flags::LEADING_WIDE_CHAR_SPACER)),
    {
        let bits = self.0;
        assert((bits & mask != 0) == (bits & 0x20 == 0x20 || bits & 0x40 == 0x40 || bits & 0x400
            == 0x400)) by (bit_vector)
            requires
                mask == (0x20u16 | 0x40u16 | 0x400u16),
        ;
    }

    /// Sets the bits of `mask`.
    pub fn insert(&mut self, mask: u16)
        ensures
            *final(self) == Flags(old(self).0 | mask),
    {
        self.0 = self.0 | mask;
    }
}

/// A cell: a character and its attributes.
#[derive(Debug, Copy, Clone, PartialEq, Eq, Structural)]
pub struct Cell {
    pub c: char,
    pub flags: Flags,
}

} // verus!
