//! The state of one input section during resolution.

use crate::part_id::PartId;
use vstd::prelude::*;

verus! {

/// An input section that has been loaded into a part of the output.
#[derive(Clone, Copy, Debug, PartialEq, Eq)]
pub struct Section {
    pub index: usize,
    pub part_id: PartId,
}

/// A section of mergeable strings: its part and its bytes.
#[derive(Clone, Copy, Debug)]
pub struct MergeStringsFileSection<'data> {
    pub part_id: PartId,
    pub section_data: &'data [u8],
}

/// A section, for which it may or may not have been decided yet whether it is loaded.
#[derive(Clone, Copy, Debug)]
pub enum SectionSlot<'data> {
    /// The section will not be loaded.
    Discard,
    /// The section has not been loaded, but will be if something refers to it.
    Unloaded(PartId),
    /// The section has to be loaded, whether or not anything refers to it.
    MustLoad(PartId),
    /// The section has been loaded.
    Loaded(Section),
    /// The section holds exception-frame data; the index is its own.
    EhFrameData(usize),
    /// The section holds mergeable strings.
    MergeStrings(MergeStringsFileSection<'data>),
    /// The section holds debug information that may be loaded.
    UnloadedDebugInfo(PartId),
    /// The section holds debug information and has been loaded.
    LoadedDebugInfo(Section),
}

impl<'data> SectionSlot<'data> {
    /// Whether the slot carries a part: every state but `Discard` and
    /// `EhFrameData` does.
    pub open spec fn has_part_id(self) -> bool {
        !(self is Discard) && !(self is EhFrameData)
    }

    /// The part that the slot carries.
    pub open spec fn part_id(self) -> PartId
        recommends
            self.has_part_id(),
    {
        match self {
            SectionSlot::Unloaded(p) => p,
            SectionSlot::MustLoad(p) => p,
            SectionSlot::Loaded(s) => s.part_id,
            SectionSlot::MergeStrings(m) => m.part_id,
            SectionSlot::UnloadedDebugInfo(p) => p,
            SectionSlot::LoadedDebugInfo(s) => s.part_id,
            _ => arbitrary(),
        }
    }

    /// The slot with its part replaced, and everything else as it was.
    pub open spec fn with_part_id(self, part_id: PartId) -> SectionSlot<'data> {
        match self {
            SectionSlot::Unloaded(_) => SectionSlot::Unloaded(part_id),
            SectionSlot::MustLoad(_) => SectionSlot::MustLoad(part_id),
            SectionSlot::Loaded(s) => SectionSlot::Loaded(Section { index: s.index, part_id }),
            SectionSlot::MergeStrings(m) => SectionSlot::MergeStrings(
                MergeStringsFileSection { part_id, section_data: m.section_data },
            ),
            SectionSlot::UnloadedDebugInfo(_) => SectionSlot::UnloadedDebugInfo(part_id),
            SectionSlot::LoadedDebugInfo(s) => SectionSlot::LoadedDebugInfo(
                Section { index: s.index, part_id },
            ),
            other => other,
        }
    }

    /// Whether it has been decided that the section reaches the output, or
    /// how it is dealt with: everything but `Discard` and `Unloaded`.
    pub fn is_loaded(&self) -> (r: bool)
        ensures
            r == !(*self is Discard || *self is Unloaded),
    {
        !matches!(self, SectionSlot::Discard | SectionSlot::Unloaded(..))
    }

    /// Replaces the part that the slot carries. The state stays what it is.
    pub fn set_part_id(&mut self, part_id: PartId)
        requires
            old(self).has_part_id(),
        ensures
            *final(self) == old(self).with_part_id(part_id),
    {
        match self {
            SectionSlot::Discard => {},
            SectionSlot::Unloaded(out) => *out = part_id,
            SectionSlot::MustLoad(out) => *out = part_id,
            SectionSlot::Loaded(out) => out.part_id = part_id,
            SectionSlot::EhFrameData(_) => {},
            SectionSlot::MergeStrings(out) => out.part_id = part_id,
            SectionSlot::UnloadedDebugInfo(out) => *out = part_id,
            SectionSlot::LoadedDebugInfo(out) => out.part_id = part_id,
        }
    }
}

} // verus!
