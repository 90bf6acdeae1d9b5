//! Parts of output sections, and how an input section is classified before
//! the custom sections have identifiers.

use crate::alignment::Alignment;
use crate::output_section_id::OutputSectionId;
use vstd::prelude::*;

verus! {

/// Names one part of an output section: the section and, within it, the
/// alignment bucket.
#[derive(Clone, Copy, Debug, PartialEq, Eq, Structural, Hash)]
pub struct PartId {
    pub section: OutputSectionId,
    pub alignment: Alignment,
}

/// The index that the placeholder's section has. No real section has it.
pub const PLACEHOLDER_SECTION_INDEX: u32 = 0xffff_ffff;

impl PartId {
    /// Stands for the part of a custom section until the section has an identifier.
    pub open spec fn placeholder() -> PartId {
        PartId { section: OutputSectionId(PLACEHOLDER_SECTION_INDEX), alignment: Alignment::of(0) }
    }

    /// Stands for the part of a custom section until the section has an identifier.
    pub fn custom_placeholder() -> (r: PartId)
        ensures
            r == PartId::placeholder(),
    {
        let alignment = Alignment::min_alignment();
        proof {
            Alignment::lemma_view_of(alignment);
        }
        PartId { section: OutputSectionId(PLACEHOLDER_SECTION_INDEX), alignment }
    }

    /// The part of the section `section` for the given alignment.
    pub fn new(section: OutputSectionId, alignment: Alignment) -> (r: PartId)
        ensures
            r.section == section,
            r.alignment == alignment,
    {
        PartId { section, alignment }
    }

    /// The section that the part belongs to.
    pub fn output_section_id(self) -> (r: OutputSectionId)
        ensures
            r == self.section,
    {
        self.section
    }
}

/// Where an input section goes, as far as its own object can tell.
#[derive(Clone, Copy, Debug)]
pub enum TemporaryPartId<'data> {
    /// A part of a built-in section.
    BuiltIn(PartId),
    /// A custom section, known by name, and the alignment of the input section.
    Custom(&'data [u8], Alignment),
    /// Exception-frame data, which is handled apart.
    EhFrameData,
}

/// An input section that may reach the output.
#[derive(Clone, Copy, Debug)]
pub struct UnloadedSection<'data> {
    pub part_id: TemporaryPartId<'data>,
    /// Whether the section holds null-terminated strings to be merged.
    pub is_string_merge: bool,
}

/// What a custom section needs to get an identifier: its name, the alignment
/// and flags of the input section that contributes to it, and which input
/// section of its object that is.
#[derive(Clone, Copy, Debug)]
pub struct CustomSectionDetails<'data> {
    pub name: &'data [u8],
    pub alignment: Alignment,
    pub section_flags: crate::elf::SectionFlags,
    pub ty: crate::elf::SectionType,
    pub index: usize,
}

} // verus!
