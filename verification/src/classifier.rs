//! Decides, for each section of an object, whether and how it can reach the
//! output.

use crate::elf::{SectionFlags, SHF_GNU_RETAIN};
use crate::error::Error;
use crate::input::{InputSection, ParsedInputObject};
use crate::merge_strings::{is_terminated, UnresolvedMergeStringsFileSection};
use crate::output_section_id::built_in_flags;
use crate::part_id::{CustomSectionDetails, PartId, TemporaryPartId, UnloadedSection};
use crate::section_slot::{MergeStringsFileSection, SectionSlot};
use crate::symbol_db::Args;
use vstd::prelude::*;

verus! {

/// The prefix `.debug_` of the names of sections that hold debug information.
pub open spec fn debug_prefix() -> Seq<u8> {
    seq![0x2eu8, 0x64u8, 0x65u8, 0x62u8, 0x75u8, 0x67u8, 0x5fu8]
}

/// Whether `bytes` starts with `prefix`.
pub open spec fn has_prefix(bytes: Seq<u8>, prefix: Seq<u8>) -> bool {
    prefix.len() <= bytes.len() && bytes.subrange(0, prefix.len() as int) == prefix
}

/// Whether `bytes` starts with `prefix`.
pub fn starts_with(bytes: &[u8], prefix: &[u8]) -> (r: bool)
    ensures
        r == has_prefix(bytes@, prefix@),
{
    if prefix.len() > bytes.len() {
        return false;
    }
    let mut i: usize = 0;
    while i < prefix.len()
        invariant
            i <= prefix@.len() <= bytes@.len(),
            forall|k: int| 0 <= k < i ==> bytes@[k] == prefix@[k],
        decreases prefix@.len() - i,
    {
        if bytes[i] != prefix[i] {
            return false;
        }
        i = i + 1;
    }
    assert(bytes@.subrange(0, prefix@.len() as int) =~= prefix@);
    true
}

/// Whether the name is that of a section of debug information.
pub fn is_debug_name(name: &[u8]) -> (r: bool)
    ensures
        r == has_prefix(name@, debug_prefix()),
{
    let prefix: [u8; 7] = [0x2e, 0x64, 0x65, 0x62, 0x75, 0x67, 0x5f];
    starts_with(name, prefix.as_slice())
}

/// Whether the part belongs to a built-in section that is kept even where
/// nothing refers to what is placed in it.
pub open spec fn is_retained_built_in(part_id: PartId) -> bool {
    part_id.section.is_built_in() && SectionFlags(built_in_flags(part_id.section@)).has(SHF_GNU_RETAIN)
}

/// The part that the slot of a section of mergeable strings carries: that of
/// a built-in section, or the placeholder.
pub open spec fn merge_part(unloaded: UnloadedSection) -> PartId {
    match unloaded.part_id {
        TemporaryPartId::BuiltIn(part_id) => part_id,
        _ => PartId::placeholder(),
    }
}

/// The slot of the section `section` at position `index` of its object.
///
/// A section that was not classified is discarded. A section of mergeable
/// strings keeps its bytes. Of the others, a section for a built-in part has
/// to be loaded if the built-in section is retained, and else is loaded on
/// reference; a custom section of debug information is discarded if debug
/// information is stripped, and else waits as debug information; another
/// custom section has to be loaded if its own flags say so, and else is
/// loaded on reference; exception-frame data is marked as such.
pub open spec fn slot_for<'data>(section: InputSection<'data>, index: int, strip_debug: bool) -> SectionSlot<
    'data,
> {
    match section.unloaded {
        None => SectionSlot::Discard,
        Some(unloaded) => if unloaded.is_string_merge {
            SectionSlot::MergeStrings(
                MergeStringsFileSection { part_id: merge_part(unloaded), section_data: section.data },
            )
        } else {
            match unloaded.part_id {
                TemporaryPartId::BuiltIn(part_id) => if is_retained_built_in(part_id) {
                    SectionSlot::MustLoad(part_id)
                } else {
                    SectionSlot::Unloaded(part_id)
                },
                TemporaryPartId::Custom(name, _) => if has_prefix(name@, debug_prefix()) {
                    if strip_debug {
                        SectionSlot::Discard
                    } else {
                        SectionSlot::UnloadedDebugInfo(PartId::placeholder())
                    }
                } else if section.section_flags.has(SHF_GNU_RETAIN) {
                    SectionSlot::MustLoad(PartId::placeholder())
                } else {
                    SectionSlot::Unloaded(PartId::placeholder())
                },
                TemporaryPartId::EhFrameData => SectionSlot::EhFrameData(index as usize),
            }
        },
    }
}

/// The record of the custom section to which `section` contributes, if it
/// is classified as part of one and is not discarded.
pub open spec fn record_for<'data>(section: InputSection<'data>, index: int, strip_debug: bool) -> Option<
    CustomSectionDetails<'data>,
> {
    match section.unloaded {
        Some(unloaded) => match unloaded.part_id {
            TemporaryPartId::Custom(name, alignment) => if !unloaded.is_string_merge && has_prefix(
                name@,
                debug_prefix(),
            ) && strip_debug {
                None
            } else {
                Some(
                    CustomSectionDetails {
                        name,
                        alignment,
                        section_flags: section.section_flags,
                        ty: section.ty,
                        index: index as usize,
                    },
                )
            },
            _ => None,
        },
        None => None,
    }
}

/// Whether the section is one of mergeable strings.
pub open spec fn merges(section: InputSection) -> bool {
    section.unloaded matches Some(unloaded) && unloaded.is_string_merge
}

/// Whether the section cannot be dealt with: it is one of mergeable strings
/// and its data does not end in a zero byte.
pub open spec fn fails(section: InputSection) -> bool {
    merges(section) && !is_terminated(section.data@)
}

/// The position of the first of the first `limit` sections that cannot be
/// dealt with, or `limit` if there is none.
pub open spec fn first_failure(sections: Seq<InputSection>, limit: int) -> int
    decreases limit,
{
    if limit <= 0 {
        0
    } else {
        let before = first_failure(sections, limit - 1);
        if before < limit - 1 {
            before
        } else if fails(sections[limit - 1]) {
            limit - 1
        } else {
            limit
        }
    }
}

/// The records of the custom sections to which the first `limit` sections contribute.
pub open spec fn records<'data>(sections: Seq<InputSection<'data>>, strip_debug: bool, limit: int) -> Seq<
    CustomSectionDetails<'data>,
>
    decreases limit,
{
    if limit <= 0 {
        Seq::empty()
    } else {
        match record_for(sections[limit - 1], limit - 1, strip_debug) {
            Some(record) => records(sections, strip_debug, limit - 1).push(record),
            None => records(sections, strip_debug, limit - 1),
        }
    }
}

/// The positions of those of the first `limit` sections that hold mergeable strings.
pub open spec fn merging(sections: Seq<InputSection>, limit: int) -> Seq<int>
    decreases limit,
{
    if limit <= 0 {
        Seq::empty()
    } else if merges(sections[limit - 1]) {
        merging(sections, limit - 1).push(limit - 1)
    } else {
        merging(sections, limit - 1)
    }
}

/// Each record names the section that it was made for.
pub proof fn lemma_records_index<'data>(sections: Seq<InputSection<'data>>, strip_debug: bool, limit: int)
    requires
        0 <= limit <= sections.len(),
        limit <= usize::MAX,
    ensures
        forall|k: int|
            0 <= k < records(sections, strip_debug, limit).len() ==> {
                let record = #[trigger] records(sections, strip_debug, limit)[k];
                &&& record.index < limit
                &&& record_for(sections[record.index as int], record.index as int, strip_debug) == Some(
                    record,
                )
            },
    decreases limit,
{
    if limit > 0 {
        lemma_records_index(sections, strip_debug, limit - 1);
    }
}

/// Decides for each section of `obj` what becomes of it. The records of the
/// custom sections to which the object contributes are appended to
/// `custom_sections`, the sections of mergeable strings, split into their
/// strings, to `merge_strings_out`. Stops at the first section of mergeable
/// strings whose data does not end in a zero byte, and fails.
pub fn resolve_sections<'data>(
    obj: &ParsedInputObject<'data>,
    custom_sections: &mut Vec<CustomSectionDetails<'data>>,
    merge_strings_out: &mut Vec<UnresolvedMergeStringsFileSection<'data>>,
    args: &Args,
) -> (r: Result<Vec<SectionSlot<'data>>, Error>)
    ensures
        ({
            let sections = obj.sections@;
            let done = first_failure(sections, sections.len() as int);
            let merged = merging(sections, done);
            &&& final(custom_sections)@ == old(custom_sections)@ + records(sections, args.strip_debug, done)
            &&& final(merge_strings_out)@.len() == old(merge_strings_out)@.len() + merged.len()
            &&& forall|k: int|
                0 <= k < old(merge_strings_out)@.len() ==> #[trigger] final(merge_strings_out)@[k] == old(
                    merge_strings_out,
                )@[k]
            &&& forall|j: int|
                old(merge_strings_out)@.len() <= j < final(merge_strings_out)@.len() ==> {
                    let section = #[trigger] final(merge_strings_out)@[j];
                    let k = j - old(merge_strings_out)@.len();
                    &&& section.section_index == merged[k]
                    &&& section.holds(sections[merged[k]].data@)
                }
            &&& match r {
                Ok(slots) => {
                    &&& done == sections.len()
                    &&& slots@.len() == sections.len()
                    &&& forall|i: int|
                        0 <= i < sections.len() ==> #[trigger] slots@[i] == slot_for(
                            sections[i],
                            i,
                            args.strip_debug,
                        )
                },
                Err(e) => done < sections.len() && e == Error::UnterminatedString,
            }
        }),
{
    let mut slots: Vec<SectionSlot<'data>> = Vec::new();
    let ghost sections = obj.sections@;
    let mut i: usize = 0;
    while i < obj.sections.len()
        invariant
            i <= sections.len(),
            sections == obj.sections@,
            first_failure(sections, i as int) == i,
            custom_sections@ == old(custom_sections)@ + records(sections, args.strip_debug, i as int),
            merge_strings_out@.len() == old(merge_strings_out)@.len() + merging(sections, i as int).len(),
            forall|k: int|
                0 <= k < old(merge_strings_out)@.len() ==> #[trigger] merge_strings_out@[k] == old(
                    merge_strings_out,
                )@[k],
            forall|j: int|
                old(merge_strings_out)@.len() <= j < merge_strings_out@.len() ==> {
                    let section = #[trigger] merge_strings_out@[j];
                    let k = j - old(merge_strings_out)@.len();
                    &&& section.section_index == merging(sections, i as int)[k]
                    &&& section.holds(sections[merging(sections, i as int)[k]].data@)
                },
            slots@.len() == i,
            forall|j: int| 0 <= j < i ==> #[trigger] slots@[j] == slot_for(sections[j], j, args.strip_debug),
        decreases sections.len() - i,
    {
        let input_section = &obj.sections[i];
        let slot = match input_section.unloaded {
            Some(unloaded) => {
                let section_flags = input_section.section_flags;
                let mut part_id = PartId::custom_placeholder();
                let mut custom_section: Option<CustomSectionDetails<'data>> = None;
                match unloaded.part_id {
                    TemporaryPartId::Custom(name, alignment) => {
                        custom_section = Some(
                            CustomSectionDetails {
                                name,
                                alignment,
                                section_flags,
                                ty: input_section.ty,
                                index: i,
                            },
                        );
                    },
                    TemporaryPartId::BuiltIn(p) => {
                        part_id = p;
                    },
                    _ => {},
                }
                let slot = if unloaded.is_string_merge {
                    let section_data = input_section.data;
                    match UnresolvedMergeStringsFileSection::new(section_data, i) {
                        Ok(section) => {
                            merge_strings_out.push(section);
                        },
                        Err(e) => {
                            proof {
                                lemma_first_failure_found(sections, i as int, sections.len() as int);
                            }
                            return Err(e);
                        },
                    }
                    SectionSlot::MergeStrings(MergeStringsFileSection { part_id, section_data })
                } else {
                    match unloaded.part_id {
                        TemporaryPartId::BuiltIn(id) => {
                            let retained = match id.output_section_id().opt_built_in_details() {
                                Some(details) => details.section_flags.should_retain(),
                                None => false,
                            };
                            if retained {
                                SectionSlot::MustLoad(id)
                            } else {
                                SectionSlot::Unloaded(id)
                            }
                        },
                        TemporaryPartId::Custom(name, _alignment) => {
                            if is_debug_name(name) {
                                if args.strip_debug {
                                    custom_section = None;
                                    SectionSlot::Discard
                                } else {
                                    SectionSlot::UnloadedDebugInfo(PartId::custom_placeholder())
                                }
                            } else if section_flags.should_retain() {
                                SectionSlot::MustLoad(PartId::custom_placeholder())
                            } else {
                                SectionSlot::Unloaded(PartId::custom_placeholder())
                            }
                        },
                        TemporaryPartId::EhFrameData => SectionSlot::EhFrameData(i),
                    }
                };
                if let Some(record) = custom_section {
                    custom_sections.push(record);
                }
                slot
            },
            None => SectionSlot::Discard,
        };
        slots.push(slot);
        proof {
            let merged = merging(sections, i + 1);
            assert forall|j: int| old(merge_strings_out)@.len() <= j < merge_strings_out@.len() implies {
                let section = #[trigger] merge_strings_out@[j];
                let k = j - old(merge_strings_out)@.len();
                &&& section.section_index == merged[k]
                &&& section.holds(sections[merged[k]].data@)
            } by {
                let k = j - old(merge_strings_out)@.len();
            }
        }
        i = i + 1;
    }
    Ok(slots)
}

/// A section that cannot be dealt with, with none before it, is the first failure.
pub proof fn lemma_first_failure_found(sections: Seq<InputSection>, i: int, limit: int)
    requires
        0 <= i < limit <= sections.len(),
        first_failure(sections, i) == i,
        fails(sections[i]),
    ensures
        first_failure(sections, limit) == i,
    decreases limit,
{
    if limit > i + 1 {
        lemma_first_failure_found(sections, i, limit - 1);
    }
}

} // verus!
