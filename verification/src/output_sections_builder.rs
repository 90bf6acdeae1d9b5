//! Collects the custom sections of a link and gives each an identifier.

use crate::alignment::Alignment;
use crate::elf::{
    SectionFlags, SectionType, SHF_ALLOC, SHF_EXECINSTR, SHF_WRITE, SHT_NOBITS, SHT_PROGBITS,
};
use crate::output_section_id::{
    find_name, position_of_name, table_of, CustomSection, CustomTable, OutputSectionId,
    OutputSections, SectionDetails, NUM_BUILT_IN_SECTIONS,
};
use crate::part_id::{CustomSectionDetails, PartId};
use crate::section_slot::SectionSlot;
use vstd::prelude::*;
use vstd::slice::slice_to_vec;

verus! {

/// The custom sections seen so far, by ascending identifier, and the address
/// at which the output is loaded.
pub struct OutputSectionsBuilder {
    pub base_address: u64,
    pub custom: Vec<CustomSection>,
}

/// The entry that a custom section gets when it is first seen.
pub open spec fn new_section(d: CustomSectionDetails) -> (Seq<u8>, SectionDetails) {
    (d.name@, SectionDetails { ty: d.ty, section_flags: d.section_flags, min_alignment: Alignment::of(0) })
}

/// The table after the first `k` of `details` have been added to `table`: a
/// section whose name the table lacks is appended, one that it has leaves the
/// table as it is.
pub open spec fn table_after(table: CustomTable, details: Seq<CustomSectionDetails>, k: int) -> CustomTable
    decreases k,
{
    if k <= 0 {
        table
    } else {
        let before = table_after(table, details, k - 1);
        if position_of_name(before, details[k - 1].name@, before.len() as int) < before.len() {
            before
        } else {
            before.push(new_section(details[k - 1]))
        }
    }
}

/// The part that an input section of the custom section `d` goes to, given
/// the table that holds the section.
pub open spec fn part_for(table: CustomTable, d: CustomSectionDetails) -> PartId {
    PartId {
        section: OutputSectionId(
            (NUM_BUILT_IN_SECTIONS + position_of_name(table, d.name@, table.len() as int)) as u32,
        ),
        alignment: d.alignment,
    }
}

/// The slot of the input section `j` after the first `k` of `details` have
/// been added: each of them that names the input section `j` has given the
/// slot the part of its custom section.
pub open spec fn slot_after<'data>(
    slot: SectionSlot<'data>,
    j: int,
    table: CustomTable,
    details: Seq<CustomSectionDetails>,
    k: int,
) -> SectionSlot<'data>
    decreases k,
{
    if k <= 0 {
        slot
    } else {
        let before = slot_after(slot, j, table, details, k - 1);
        if details[k - 1].index == j {
            before.with_part_id(part_for(table_after(table, details, k), details[k - 1]))
        } else {
            before
        }
    }
}

/// Adding sections keeps what the table held and never shrinks it.
pub proof fn lemma_table_after(table: CustomTable, details: Seq<CustomSectionDetails>, k: int)
    requires
        0 <= k <= details.len(),
    ensures
        table.len() <= table_after(table, details, k).len() <= table.len() + k,
        forall|p: int| 0 <= p < table.len() ==> #[trigger] table_after(table, details, k)[p] == table[p],
    decreases k,
{
    if k > 0 {
        lemma_table_after(table, details, k - 1);
    }
}

/// Where a section is laid out.
#[derive(Clone, Copy, Debug, PartialEq, Eq, Structural)]
pub enum SectionKind {
    ReadOnly,
    Executable,
    Data,
    Bss,
}

/// Where a custom section with the given details is laid out: with the code
/// if it is executable, else with the read-only data if it is not writable,
/// else with the zero-initialised data if it has no contents, else with the data.
pub open spec fn kind_of(details: SectionDetails) -> SectionKind {
    if details.section_flags.has(SHF_EXECINSTR) {
        SectionKind::Executable
    } else if !details.section_flags.has(SHF_WRITE) {
        SectionKind::ReadOnly
    } else if details.ty.0 == SHT_NOBITS {
        SectionKind::Bss
    } else {
        SectionKind::Data
    }
}

/// The identifiers of the first `limit` custom sections of `table` that are
/// of the kind `kind`, in ascending order.
pub open spec fn ids_of_kind(table: CustomTable, kind: SectionKind, limit: int) -> Seq<OutputSectionId>
    decreases limit,
{
    if limit <= 0 {
        Seq::empty()
    } else if kind_of(table[limit - 1].1) == kind {
        ids_of_kind(table, kind, limit - 1).push(
            OutputSectionId((NUM_BUILT_IN_SECTIONS + limit - 1) as u32),
        )
    } else {
        ids_of_kind(table, kind, limit - 1)
    }
}

/// `ids_of_kind` lists exactly the sections of the kind, each once, in
/// ascending order.
pub proof fn lemma_ids_of_kind(table: CustomTable, kind: SectionKind, limit: int)
    requires
        0 <= limit <= table.len(),
        NUM_BUILT_IN_SECTIONS + table.len() <= u32::MAX,
    ensures
        ids_of_kind(table, kind, limit).len() <= limit,
        forall|i: int|
            0 <= i < ids_of_kind(table, kind, limit).len() ==> {
                let id = #[trigger] ids_of_kind(table, kind, limit)[i];
                &&& NUM_BUILT_IN_SECTIONS <= id@ < NUM_BUILT_IN_SECTIONS + limit
                &&& kind_of(table[id@ - NUM_BUILT_IN_SECTIONS].1) == kind
            },
        forall|i: int, j: int|
            0 <= i < j < ids_of_kind(table, kind, limit).len() ==> (#[trigger] ids_of_kind(
                table,
                kind,
                limit,
            )[i])@ < (#[trigger] ids_of_kind(table, kind, limit)[j])@,
        forall|id: OutputSectionId|
            NUM_BUILT_IN_SECTIONS <= id@ < NUM_BUILT_IN_SECTIONS + limit && kind_of(
                table[id@ - NUM_BUILT_IN_SECTIONS].1,
            ) == kind ==> #[trigger] ids_of_kind(table, kind, limit).contains(id),
    decreases limit,
{
    if limit > 0 {
        lemma_ids_of_kind(table, kind, limit - 1);
        let before = ids_of_kind(table, kind, limit - 1);
        let now = ids_of_kind(table, kind, limit);
        if kind_of(table[limit - 1].1) == kind {
            assert(now[before.len() as int] == OutputSectionId((NUM_BUILT_IN_SECTIONS + limit - 1) as u32));
            assert forall|id: OutputSectionId|
                NUM_BUILT_IN_SECTIONS <= id@ < NUM_BUILT_IN_SECTIONS + limit && kind_of(
                    table[id@ - NUM_BUILT_IN_SECTIONS].1,
                ) == kind implies #[trigger] now.contains(id) by {
                if id@ < NUM_BUILT_IN_SECTIONS + limit - 1 {
                    assert(before.contains(id));
                    let i = choose|i: int| 0 <= i < before.len() && before[i] == id;
                    assert(now[i] == before[i]);
                }
            }
        }
    }
}

impl OutputSectionsBuilder {
    /// A builder without custom sections.
    pub fn with_base_address(base_address: u64) -> (r: Self)
        ensures
            r.base_address == base_address,
            r.custom@.len() == 0,
    {
        OutputSectionsBuilder { base_address, custom: Vec::new() }
    }

    /// The custom sections seen so far as plain values.
    pub open spec fn table(&self) -> CustomTable {
        table_of(self.custom@)
    }

    /// Gives each of `custom_sections` the identifier of the custom section
    /// with its name, which is a new one where the name has not been seen
    /// before, and sets the part of the input section that it names in
    /// `sections` accordingly.
    pub fn add_sections<'data>(
        &mut self,
        custom_sections: &[CustomSectionDetails<'data>],
        sections: &mut [SectionSlot<'data>],
    )
        requires
            NUM_BUILT_IN_SECTIONS + old(self).custom@.len() + custom_sections@.len() <= u32::MAX,
            forall|k: int|
                0 <= k < custom_sections@.len() && (#[trigger] custom_sections@[k]).index < old(
                    sections,
                )@.len() ==> old(sections)@[custom_sections@[k].index as int].has_part_id(),
        ensures
            final(self).base_address == old(self).base_address,
            final(self).table() == table_after(
                old(self).table(),
                custom_sections@,
                custom_sections@.len() as int,
            ),
            final(sections)@.len() == old(sections)@.len(),
            forall|j: int|
                0 <= j < old(sections)@.len() ==> #[trigger] final(sections)@[j] == slot_after(
                    old(sections)@[j],
                    j,
                    old(self).table(),
                    custom_sections@,
                    custom_sections@.len() as int,
                ),
    {
        let mut k: usize = 0;
        while k < custom_sections.len()
            invariant
                k <= custom_sections@.len(),
                NUM_BUILT_IN_SECTIONS + old(self).custom@.len() + custom_sections@.len() <= u32::MAX,
                self.base_address == old(self).base_address,
                self.table() == table_after(old(self).table(), custom_sections@, k as int),
                self.custom@.len() <= old(self).custom@.len() + k,
                sections@.len() == old(sections)@.len(),
                forall|j: int|
                    0 <= j < sections@.len() ==> #[trigger] sections@[j] == slot_after(
                        old(sections)@[j],
                        j,
                        old(self).table(),
                        custom_sections@,
                        k as int,
                    ),
                forall|j: int|
                    0 <= j < sections@.len() ==> (#[trigger] sections@[j]).has_part_id() == old(
                        sections,
                    )@[j].has_part_id(),
                forall|i: int|
                    0 <= i < custom_sections@.len() && (#[trigger] custom_sections@[i]).index < old(
                        sections,
                    )@.len() ==> old(sections)@[custom_sections@[i].index as int].has_part_id(),
            decreases custom_sections@.len() - k,
        {
            let custom = &custom_sections[k];
            let ghost table_before = self.table();
            let position = find_name(&self.custom, custom.name);
            if position == self.custom.len() {
                let name = slice_to_vec(custom.name);
                let min_alignment = Alignment::min_alignment();
                self.custom.push(
                    CustomSection {
                        name,
                        details: SectionDetails {
                            ty: custom.ty,
                            section_flags: custom.section_flags,
                            min_alignment,
                        },
                    },
                );
                proof {
                    Alignment::lemma_view_of(min_alignment);
                    lemma_position_after_push(table_before, new_section(*custom));
                }
            }
            let id = OutputSectionId((NUM_BUILT_IN_SECTIONS + position) as u32);
            if custom.index < sections.len() {
                sections[custom.index].set_part_id(PartId::new(id, custom.alignment));
            }
            k = k + 1;
        }
    }

    /// The table of output sections: the custom sections that have been
    /// seen, each in the list of its kind, by ascending identifier.
    pub fn build(self) -> (r: OutputSections)
        requires
            NUM_BUILT_IN_SECTIONS + self.custom@.len() <= u32::MAX,
        ensures
            r.wf(),
            r.custom == self.custom,
            r.base_address == self.base_address,
            r.ro_custom@ == ids_of_kind(self.table(), SectionKind::ReadOnly, self.custom@.len() as int),
            r.exec_custom@ == ids_of_kind(self.table(), SectionKind::Executable, self.custom@.len() as int),
            r.data_custom@ == ids_of_kind(self.table(), SectionKind::Data, self.custom@.len() as int),
            r.bss_custom@ == ids_of_kind(self.table(), SectionKind::Bss, self.custom@.len() as int),
    {
        let mut ro_custom: Vec<OutputSectionId> = Vec::new();
        let mut exec_custom: Vec<OutputSectionId> = Vec::new();
        let mut data_custom: Vec<OutputSectionId> = Vec::new();
        let mut bss_custom: Vec<OutputSectionId> = Vec::new();
        let mut k: usize = 0;
        while k < self.custom.len()
            invariant
                k <= self.custom@.len(),
                NUM_BUILT_IN_SECTIONS + self.custom@.len() <= u32::MAX,
                ro_custom@ == ids_of_kind(self.table(), SectionKind::ReadOnly, k as int),
                exec_custom@ == ids_of_kind(self.table(), SectionKind::Executable, k as int),
                data_custom@ == ids_of_kind(self.table(), SectionKind::Data, k as int),
                bss_custom@ == ids_of_kind(self.table(), SectionKind::Bss, k as int),
            decreases self.custom@.len() - k,
        {
            let details = &self.custom[k].details;
            let id = OutputSectionId((NUM_BUILT_IN_SECTIONS + k) as u32);
            if details.section_flags.contains(SHF_EXECINSTR) {
                exec_custom.push(id);
            } else if !details.section_flags.contains(SHF_WRITE) {
                ro_custom.push(id);
            } else if details.ty.0 == SHT_NOBITS {
                bss_custom.push(id);
            } else {
                data_custom.push(id);
            }
            k = k + 1;
        }
        let out = OutputSections {
            custom: self.custom,
            ro_custom,
            exec_custom,
            data_custom,
            bss_custom,
            base_address: self.base_address,
        };
        proof {
            lemma_lists_partition(out.table());
        }
        out
    }
}

/// A name that the table lacks is found at the end of the table once it has
/// been appended.
proof fn lemma_position_after_push(table: CustomTable, entry: (Seq<u8>, SectionDetails))
    requires
        position_of_name(table, entry.0, table.len() as int) == table.len(),
    ensures
        position_of_name(table.push(entry), entry.0, table.len() as int + 1) == table.len(),
{
    lemma_position_prefix(table, table.push(entry), entry.0, table.len() as int);
}

/// Looking through the first `limit` entries does not depend on what follows them.
proof fn lemma_position_prefix(a: CustomTable, b: CustomTable, name: Seq<u8>, limit: int)
    requires
        0 <= limit <= a.len() <= b.len(),
        forall|p: int| 0 <= p < limit ==> a[p] == b[p],
    ensures
        position_of_name(a, name, limit) == position_of_name(b, name, limit),
    decreases limit,
{
    if limit > 0 {
        lemma_position_prefix(a, b, name, limit - 1);
    }
}

/// The four lists by kind hold each custom section exactly once.
proof fn lemma_lists_partition(table: CustomTable)
    requires
        NUM_BUILT_IN_SECTIONS + table.len() <= u32::MAX,
    ensures
        ({
            let n = table.len() as int;
            let all = ids_of_kind(table, SectionKind::ReadOnly, n) + ids_of_kind(
                table,
                SectionKind::Executable,
                n,
            ) + ids_of_kind(table, SectionKind::Data, n) + ids_of_kind(table, SectionKind::Bss, n);
            &&& all.no_duplicates()
            &&& forall|i: int|
                0 <= i < all.len() ==> NUM_BUILT_IN_SECTIONS <= (#[trigger] all[i])@ < NUM_BUILT_IN_SECTIONS
                    + n
            &&& forall|id: OutputSectionId|
                NUM_BUILT_IN_SECTIONS <= id@ < NUM_BUILT_IN_SECTIONS + n ==> #[trigger] all.contains(id)
        }),
{
    let n = table.len() as int;
    let ro = ids_of_kind(table, SectionKind::ReadOnly, n);
    let ex = ids_of_kind(table, SectionKind::Executable, n);
    let da = ids_of_kind(table, SectionKind::Data, n);
    let bs = ids_of_kind(table, SectionKind::Bss, n);
    lemma_ids_of_kind(table, SectionKind::ReadOnly, n);
    lemma_ids_of_kind(table, SectionKind::Executable, n);
    lemma_ids_of_kind(table, SectionKind::Data, n);
    lemma_ids_of_kind(table, SectionKind::Bss, n);
    let all = ro + ex + da + bs;
    assert forall|id: OutputSectionId|
        NUM_BUILT_IN_SECTIONS <= id@ < NUM_BUILT_IN_SECTIONS + n implies #[trigger] all.contains(id) by {
        let p = id@ - NUM_BUILT_IN_SECTIONS;
        let kind = kind_of(table[p].1);
        assert(ids_of_kind(table, kind, n).contains(id));
        if kind == SectionKind::ReadOnly {
            let i = choose|i: int| 0 <= i < ro.len() && ro[i] == id;
            assert(all[i] == id);
        } else if kind == SectionKind::Executable {
            let i = choose|i: int| 0 <= i < ex.len() && ex[i] == id;
            assert(all[ro.len() + i] == id);
        } else if kind == SectionKind::Data {
            let i = choose|i: int| 0 <= i < da.len() && da[i] == id;
            assert(all[ro.len() + ex.len() + i] == id);
        } else {
            let i = choose|i: int| 0 <= i < bs.len() && bs[i] == id;
            assert(all[ro.len() + ex.len() + da.len() + i] == id);
        }
    }
}

impl OutputSections {
    /// A small table for trying things out: besides the built-in sections one
    /// custom section of each kind, named `ro`, `exec`, `data` and `bss`.
    pub fn for_testing() -> (r: OutputSections)
        ensures
            r.wf(),
            r.num_sections() == NUM_BUILT_IN_SECTIONS + 4,
    {
        let ro: [u8; 2] = [0x72, 0x6f];
        let exec: [u8; 4] = [0x65, 0x78, 0x65, 0x63];
        let data: [u8; 4] = [0x64, 0x61, 0x74, 0x61];
        let bss: [u8; 3] = [0x62, 0x73, 0x73];
        let alignment = Alignment::min_alignment();
        let custom_sections = [
            CustomSectionDetails {
                name: ro.as_slice(),
                alignment,
                section_flags: SectionFlags(SHF_ALLOC),
                ty: SectionType(SHT_PROGBITS),
                index: 0,
            },
            CustomSectionDetails {
                name: exec.as_slice(),
                alignment,
                section_flags: SectionFlags(SHF_ALLOC | SHF_EXECINSTR),
                ty: SectionType(SHT_PROGBITS),
                index: 0,
            },
            CustomSectionDetails {
                name: data.as_slice(),
                alignment,
                section_flags: SectionFlags(SHF_ALLOC | SHF_WRITE),
                ty: SectionType(SHT_PROGBITS),
                index: 0,
            },
            CustomSectionDetails {
                name: bss.as_slice(),
                alignment,
                section_flags: SectionFlags(SHF_ALLOC | SHF_WRITE),
                ty: SectionType(SHT_NOBITS),
                index: 0,
            },
        ];
        let mut builder = OutputSectionsBuilder::with_base_address(0x1000);
        let mut no_sections: Vec<SectionSlot> = Vec::new();
        builder.add_sections(custom_sections.as_slice(), no_sections.as_mut_slice());
        proof {
            let empty = CustomTable::empty();
            assert(builder.table().len() == builder.custom@.len());
            reveal_with_fuel(table_after, 5);
            reveal_with_fuel(position_of_name, 5);
        }
        builder.build()
    }
}

} // verus!
