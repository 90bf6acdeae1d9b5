//! What kind of value a symbol has.

use vstd::prelude::*;

verus! {

/// The value has an address: a regular symbol, a section and so on.
pub const ADDRESS: u8 = 0x01;

/// The value does not depend on the address at which the output is loaded.
pub const ABSOLUTE: u8 = 0x02;

/// The value comes from a shared object, so its address is known only when
/// the program runs.
pub const DYNAMIC: u8 = 0x04;

/// The value refers to an indirect function.
pub const IFUNC: u8 = 0x08;

/// References to the value need not go through the global offset table.
pub const CAN_BYPASS_GOT: u8 = 0x10;

/// A version script asks for the symbol to become local after name lookup.
pub const DOWNGRADE_TO_LOCAL: u8 = 0x20;

/// The value is a function.
pub const FUNCTION: u8 = 0x40;

/// A set of the flags above. Its view is the bits.
#[derive(Debug, Clone, Copy, PartialEq, Eq, Structural, Hash)]
pub struct ValueFlags(pub u8);

impl View for ValueFlags {
    type V = u8;

    open spec fn view(&self) -> u8 {
        self.0
    }
}

impl ValueFlags {
    /// The set without flags.
    pub fn empty() -> (r: ValueFlags)
        ensures
            r@ == 0,
    {
        ValueFlags(0)
    }

    /// The set with the given bits.
    pub fn from_bits(bits: u8) -> (r: ValueFlags)
        ensures
            r@ == bits,
    {
        ValueFlags(bits)
    }

    /// The bits of the set.
    pub fn bits(self) -> (r: u8)
        ensures
            r == self@,
    {
        self.0
    }

    /// Whether every flag of `flags` is in the set.
    pub open spec fn has(self, flags: u8) -> bool {
        self@ & flags == flags
    }

    /// Whether every flag of `flags` is in the set.
    pub fn contains(self, flags: u8) -> (r: bool)
        ensures
            r == self.has(flags),
    {
        self.0 & flags == flags
    }

    /// Takes over from `other`, the flags of a definition that is not the
    /// canonical one, that the global offset table can be bypassed. Every
    /// other flag stays as it is.
    pub fn merge(&mut self, other: ValueFlags)
        ensures
            final(self)@ == old(self)@ | (other@ & CAN_BYPASS_GOT),
    {
        let mine: u8 = self.0;
        let theirs: u8 = other.0;
        if other.contains(CAN_BYPASS_GOT) {
            self.0 = mine | CAN_BYPASS_GOT;
        } else {
            assert(theirs & 0x10 != 0x10 ==> mine == mine | (theirs & 0x10)) by (bit_vector);
        }
    }

    /// Merging adds at most the flag that the table can be bypassed, and adds
    /// it exactly when `other` has it.
    pub proof fn lemma_merge(mine: u8, theirs: u8)
        ensures
            ValueFlags(mine | (theirs & CAN_BYPASS_GOT)).has(CAN_BYPASS_GOT) == (ValueFlags(mine).has(
                CAN_BYPASS_GOT,
            ) || ValueFlags(theirs).has(CAN_BYPASS_GOT)),
            (mine | (theirs & CAN_BYPASS_GOT)) & !CAN_BYPASS_GOT == mine & !CAN_BYPASS_GOT,
    {
        assert(((mine | (theirs & 0x10)) & 0x10 == 0x10) == ((mine & 0x10 == 0x10) || (theirs & 0x10 == 0x10)))
            by (bit_vector);
        assert((mine | (theirs & 0x10)) & !0x10u8 == mine & !0x10u8) by (bit_vector);
    }
}

} // verus!
