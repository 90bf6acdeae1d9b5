//! The few ELF notions that resolution reads: section flags and section types.

use vstd::prelude::*;

verus! {

/// The `sh_flags` of a section.
#[derive(Clone, Copy, Debug, PartialEq, Eq, Structural, Hash)]
pub struct SectionFlags(pub u64);

pub const SHF_WRITE: u64 = 0x1;

pub const SHF_ALLOC: u64 = 0x2;

pub const SHF_EXECINSTR: u64 = 0x4;

pub const SHF_MERGE: u64 = 0x10;

pub const SHF_STRINGS: u64 = 0x20;

pub const SHF_INFO_LINK: u64 = 0x40;

pub const SHF_TLS: u64 = 0x400;

pub const SHF_GNU_RETAIN: u64 = 0x20_0000;

impl SectionFlags {
    /// Whether every bit of `bits` is set.
    pub open spec fn has(self, bits: u64) -> bool {
        self.0 & bits == bits
    }

    /// Whether every bit of `bits` is set.
    pub fn contains(self, bits: u64) -> (r: bool)
        ensures
            r == self.has(bits),
    {
        self.0 & bits == bits
    }

    /// Whether the section has to be kept even if nothing refers to it.
    pub fn should_retain(self) -> (r: bool)
        ensures
            r == self.has(SHF_GNU_RETAIN),
    {
        self.contains(SHF_GNU_RETAIN)
    }

    /// Whether the section holds null-terminated strings that may be merged
    /// with equal strings of other sections.
    pub fn is_string_merge(self) -> (r: bool)
        ensures
            r == (self.has(SHF_MERGE) && self.has(SHF_STRINGS)),
    {
        self.contains(SHF_MERGE) && self.contains(SHF_STRINGS)
    }
}

/// The `sh_type` of a section.
#[derive(Clone, Copy, Debug, PartialEq, Eq, Structural, Hash)]
pub struct SectionType(pub u32);

pub const SHT_NULL: u32 = 0;

pub const SHT_PROGBITS: u32 = 1;

pub const SHT_SYMTAB: u32 = 2;

pub const SHT_STRTAB: u32 = 3;

pub const SHT_RELA: u32 = 4;

pub const SHT_NOBITS: u32 = 8;

pub const SHT_INIT_ARRAY: u32 = 14;

pub const SHT_FINI_ARRAY: u32 = 15;

pub const SHT_PREINIT_ARRAY: u32 = 16;

} // verus!
