//! The input of resolution: files that have been parsed already, in groups.

use crate::elf::{SectionFlags, SectionType};
use crate::output_section_id::OutputSectionId;
use crate::part_id::UnloadedSection;
use crate::symbol_db::{FileId, SymbolId, SymbolIdRange};
use vstd::prelude::*;

verus! {

/// Whether a symbol with the given `st_info` is weak: its binding, the high
/// four bits, is `STB_WEAK`.
pub open spec fn elf_is_weak(st_info: u8) -> bool {
    st_info >> 4 == 2
}

/// Whether a symbol with the given `st_info` is local: its binding, the high
/// four bits, is `STB_LOCAL`.
pub open spec fn elf_is_local(st_info: u8) -> bool {
    st_info >> 4 == 0
}

/// Whether a symbol with the given section index is a common symbol: the
/// index is `SHN_COMMON`.
pub open spec fn elf_is_common(st_shndx: u16) -> bool {
    st_shndx == 0xfff2
}

/// Whether a symbol defines a function or a data object: it has a section
/// that is neither `SHN_UNDEF` nor reserved (but may be `SHN_XINDEX`), and its
/// type, the low four bits of `st_info`, is `STT_FUNC` or `STT_OBJECT`, or
/// `STT_NOTYPE` with a size other than zero.
pub open spec fn elf_is_definition(st_info: u8, st_shndx: u16, st_size: u64) -> bool {
    if st_shndx == 0 || (st_shndx >= 0xff00 && st_shndx != 0xffff) {
        false
    } else if st_info & 0xf == 0 {
        st_size != 0
    } else {
        st_info & 0xf == 1 || st_info & 0xf == 2
    }
}

/// `object::read::elf::Sym::is_weak` on a 64-bit symbol entry with the given
/// `st_info`: whether the binding, `st_info >> 4`, equals `STB_WEAK`, which is 2.
#[verifier::external_body]
fn sym_is_weak(st_info: u8) -> (r: bool)
    ensures
        r == elf_is_weak(st_info),
{
    let mut sym = object::elf::Sym64::<object::LittleEndian>::default();
    sym.st_info = st_info;
    object::read::elf::Sym::is_weak(&sym)
}

/// `object::read::elf::Sym::is_local` on a 64-bit symbol entry with the given
/// `st_info`: whether the binding, `st_info >> 4`, equals `STB_LOCAL`, which is 0.
#[verifier::external_body]
fn sym_is_local(st_info: u8) -> (r: bool)
    ensures
        r == elf_is_local(st_info),
{
    let mut sym = object::elf::Sym64::<object::LittleEndian>::default();
    sym.st_info = st_info;
    object::read::elf::Sym::is_local(&sym)
}

/// `object::read::elf::Sym::is_common` on a 64-bit little-endian symbol entry
/// with the given section index: whether the index equals `SHN_COMMON`,
/// which is 0xfff2.
#[verifier::external_body]
fn sym_is_common(st_shndx: u16) -> (r: bool)
    ensures
        r == elf_is_common(st_shndx),
{
    let mut sym = object::elf::Sym64::<object::LittleEndian>::default();
    sym.st_shndx = object::endian::U16::new(object::LittleEndian, st_shndx);
    object::read::elf::Sym::is_common(&sym, object::LittleEndian)
}

/// `object::read::elf::Sym::is_definition` on a 64-bit little-endian symbol
/// entry with the given fields: false where the section index is `SHN_UNDEF`
/// (0), or at least `SHN_LORESERVE` (0xff00) and not `SHN_XINDEX` (0xffff);
/// else, by the type `st_info & 0xf`: for `STT_NOTYPE` (0) whether the size is
/// not zero, true for `STT_OBJECT` (1) and `STT_FUNC` (2), false for any other.
#[verifier::external_body]
fn sym_is_definition(st_info: u8, st_shndx: u16, st_size: u64) -> (r: bool)
    ensures
        r == elf_is_definition(st_info, st_shndx, st_size),
{
    let mut sym = object::elf::Sym64::<object::LittleEndian>::default();
    sym.st_info = st_info;
    sym.st_shndx = object::endian::U16::new(object::LittleEndian, st_shndx);
    sym.st_size = object::endian::U64::new(object::LittleEndian, st_size);
    object::read::elf::Sym::is_definition(&sym, object::LittleEndian)
}

/// An entry of the symbol table of an object, with its name.
#[derive(Clone, Copy, Debug)]
pub struct InputSymbol<'data> {
    pub name: &'data [u8],
    /// Binding and type.
    pub st_info: u8,
    /// Visibility.
    pub st_other: u8,
    /// The section that the symbol belongs to, or a reserved index.
    pub st_shndx: u16,
    pub st_value: u64,
    pub st_size: u64,
}

impl<'data> InputSymbol<'data> {
    /// Whether the symbol is weak.
    pub fn is_weak(&self) -> (r: bool)
        ensures
            r == elf_is_weak(self.st_info),
    {
        sym_is_weak(self.st_info)
    }

    /// Whether the symbol is local to its object.
    pub fn is_local(&self) -> (r: bool)
        ensures
            r == elf_is_local(self.st_info),
    {
        sym_is_local(self.st_info)
    }

    /// Whether the symbol is a common symbol, which has a size only.
    pub fn is_common(&self) -> (r: bool)
        ensures
            r == elf_is_common(self.st_shndx),
    {
        sym_is_common(self.st_shndx)
    }

    /// Whether the symbol defines a function or a data object.
    pub fn is_definition(&self) -> (r: bool)
        ensures
            r == elf_is_definition(self.st_info, self.st_shndx, self.st_size),
    {
        sym_is_definition(self.st_info, self.st_shndx, self.st_size)
    }

    /// The size of the symbol.
    pub fn st_size(&self) -> (r: u64)
        ensures
            r == self.st_size,
    {
        self.st_size
    }
}

/// A section of an object: how it has been classified, its flags, its type
/// and its contents.
#[derive(Clone, Copy, Debug)]
pub struct InputSection<'data> {
    /// Where the section goes; `None` for a section that never reaches the output.
    pub unloaded: Option<UnloadedSection<'data>>,
    pub section_flags: SectionFlags,
    pub ty: SectionType,
    pub data: &'data [u8],
}

/// An object file, relocatable or shared, as far as resolution reads it.
#[derive(Debug)]
pub struct ParsedInputObject<'data> {
    pub file_id: FileId,
    pub symbol_id_range: SymbolIdRange,
    /// Whether this is a shared object.
    pub dynamic: bool,
    /// Whether the object is loaded only if something refers to it, as a
    /// member of an archive is.
    pub optional: bool,
    pub symbols: Vec<InputSymbol<'data>>,
    pub sections: Vec<InputSection<'data>>,
}

impl<'data> ParsedInputObject<'data> {
    /// Whether this is a shared object.
    pub fn is_dynamic(&self) -> (r: bool)
        ensures
            r == self.dynamic,
    {
        self.dynamic
    }

    /// Whether the object is loaded only if something refers to it.
    pub fn is_optional(&self) -> (r: bool)
        ensures
            r == self.optional,
    {
        self.optional
    }

    /// The number of symbols of the object.
    pub fn num_symbols(&self) -> (r: usize)
        ensures
            r == self.symbol_id_range.num_symbols,
    {
        self.symbol_id_range.len()
    }
}

/// What the linker itself says of a symbol that it defines.
#[derive(Clone, Copy, Debug, PartialEq, Eq, Structural)]
pub enum InternalSymDefInfo {
    /// The symbol has no definition.
    Undefined,
    /// The symbol marks the start of the section.
    SectionStart(OutputSectionId),
    /// The symbol marks the end of the section.
    SectionEnd(OutputSectionId),
}

/// The symbols that the linker defines before any input file.
#[derive(Debug)]
pub struct Prelude {
    pub symbol_definitions: Vec<InternalSymDefInfo>,
}

/// The symbols that the linker defines after all input files.
#[derive(Clone, Copy, Debug)]
pub struct Epilogue {
    pub start_symbol_id: SymbolId,
}

/// An input file.
#[derive(Debug)]
pub enum ParsedInput<'data> {
    Prelude(Prelude),
    Object(ParsedInputObject<'data>),
    Epilogue(Epilogue),
}

/// Input files that are handled together.
#[derive(Debug)]
pub struct Group<'data> {
    pub files: Vec<ParsedInput<'data>>,
}

} // verus!
