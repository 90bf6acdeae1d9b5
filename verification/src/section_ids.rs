//! Gives the custom sections of a link their identifiers, once every object
//! that is loaded is known.

use crate::error::Error;
use crate::output_section_id::{CustomTable, OutputSections, NUM_BUILT_IN_SECTIONS};
use crate::output_sections_builder::{
    ids_of_kind, lemma_table_after, slot_after, table_after, OutputSectionsBuilder, SectionKind,
};
use crate::resolution::{ResolvedFile, ResolvedGroup};
use crate::symbol_db::Args;
use vstd::prelude::*;

verus! {

/// The table of custom sections after the custom sections of `file` have
/// been added to `table`.
pub open spec fn table_with_file(table: CustomTable, file: ResolvedFile) -> CustomTable {
    match file {
        ResolvedFile::Object(obj) => match obj.non_dynamic {
            Some(non_dynamic) => table_after(
                table,
                non_dynamic.custom_sections@,
                non_dynamic.custom_sections@.len() as int,
            ),
            None => table,
        },
        _ => table,
    }
}

/// The table of custom sections after the files before the file `f` of the
/// group `g` have added theirs, group by group and file by file.
pub open spec fn table_before(groups: Seq<ResolvedGroup>, g: int, f: int) -> CustomTable
    decreases g, f,
{
    if g < 0 || f < 0 {
        Seq::empty()
    } else if f > 0 {
        table_with_file(table_before(groups, g, f - 1), groups[g].files@[f - 1])
    } else if g > 0 {
        table_before(groups, g - 1, groups[g - 1].files@.len() as int)
    } else {
        Seq::empty()
    }
}

/// How many records of custom sections the file has.
pub open spec fn records_in(file: ResolvedFile) -> int {
    match file {
        ResolvedFile::Object(obj) => match obj.non_dynamic {
            Some(non_dynamic) => non_dynamic.custom_sections@.len() as int,
            None => 0,
        },
        _ => 0,
    }
}

/// How many records of custom sections the files before the file `f` of the
/// group `g` have.
pub open spec fn records_before(groups: Seq<ResolvedGroup>, g: int, f: int) -> int
    decreases g, f,
{
    if g < 0 || f < 0 {
        0
    } else if f > 0 {
        records_before(groups, g, f - 1) + records_in(groups[g].files@[f - 1])
    } else if g > 0 {
        records_before(groups, g - 1, groups[g - 1].files@.len() as int)
    } else {
        0
    }
}

/// Whether each record of a custom section of `file` names a section of
/// the file whose slot carries a part.
pub open spec fn records_have_parts(file: ResolvedFile) -> bool {
    match file {
        ResolvedFile::Object(obj) => match obj.non_dynamic {
            Some(non_dynamic) => forall|k: int|
                0 <= k < non_dynamic.custom_sections@.len() && (
                #[trigger] non_dynamic.custom_sections@[k]).index < non_dynamic.sections@.len()
                    ==> non_dynamic.sections@[non_dynamic.custom_sections@[k].index as int].has_part_id(),
            None => true,
        },
        _ => true,
    }
}

/// Whether `after` is `before` with each section that contributes to a
/// custom section given its part, by the table `table` of the custom
/// sections before the file.
pub open spec fn is_assigned(before: ResolvedFile, after: ResolvedFile, table: CustomTable) -> bool {
    match before {
        ResolvedFile::Object(old_obj) => match old_obj.non_dynamic {
            Some(old_sections) => {
                &&& after matches ResolvedFile::Object(obj)
                &&& obj.object == old_obj.object
                &&& obj.file_id == old_obj.file_id
                &&& obj.symbol_id_range == old_obj.symbol_id_range
                &&& obj.non_dynamic matches Some(sections)
                &&& sections.custom_sections == old_sections.custom_sections
                &&& sections.merge_strings_sections == old_sections.merge_strings_sections
                &&& sections.sections@.len() == old_sections.sections@.len()
                &&& forall|j: int|
                    0 <= j < sections.sections@.len() ==> #[trigger] sections.sections@[j] == slot_after(
                        old_sections.sections@[j],
                        j,
                        table,
                        old_sections.custom_sections@,
                        old_sections.custom_sections@.len() as int,
                    )
            },
            None => after == before,
        },
        _ => after == before,
    }
}

/// The number of custom sections is at most the number of records.
pub proof fn lemma_table_before_len(groups: Seq<ResolvedGroup>, g: int, f: int)
    requires
        0 <= g < groups.len() && 0 <= f <= groups[g].files@.len() || g == groups.len() && f == 0,
    ensures
        table_before(groups, g, f).len() <= records_before(groups, g, f),
        records_before(groups, g, f) >= 0,
    decreases g, f,
{
    if f > 0 {
        lemma_table_before_len(groups, g, f - 1);
        let file = groups[g].files@[f - 1];
        match file {
            ResolvedFile::Object(obj) => match obj.non_dynamic {
                Some(non_dynamic) => {
                    lemma_table_after(
                        table_before(groups, g, f - 1),
                        non_dynamic.custom_sections@,
                        non_dynamic.custom_sections@.len() as int,
                    );
                },
                None => {},
            },
            _ => {},
        }
    } else if g > 0 {
        lemma_table_before_len(groups, g - 1, groups[g - 1].files@.len() as int);
    }
}

/// The number of records grows from file to file.
pub proof fn lemma_records_before_monotonic(groups: Seq<ResolvedGroup>, g: int, f: int)
    requires
        0 <= g < groups.len(),
        0 <= f <= groups[g].files@.len(),
    ensures
        0 <= records_before(groups, g, f) <= records_before(groups, groups.len() as int, 0),
    decreases groups.len() - g, groups[g].files@.len() - f,
{
    lemma_table_before_len(groups, g, f);
    if f < groups[g].files@.len() {
        lemma_records_before_monotonic(groups, g, f + 1);
    } else if g + 1 < groups.len() {
        lemma_records_before_monotonic(groups, g + 1, 0);
    }
}

/// Whether the records of custom sections can be counted, so that every
/// custom section can get an identifier.
pub open spec fn records_countable(groups: Seq<ResolvedGroup>) -> bool {
    NUM_BUILT_IN_SECTIONS + records_before(groups, groups.len() as int, 0) <= u32::MAX
}

/// Whether the records of custom sections of the files can be counted.
fn check_records(resolved: &Vec<ResolvedGroup>) -> (r: bool)
    ensures
        r == records_countable(resolved@),
{
    let limit: usize = 0xffff_ffff - NUM_BUILT_IN_SECTIONS;
    let mut count: usize = 0;
    let mut g: usize = 0;
    while g < resolved.len()
        invariant
            g <= resolved@.len(),
            count == records_before(resolved@, g as int, 0),
            count <= limit,
            limit == 0xffff_ffff - NUM_BUILT_IN_SECTIONS,
        decreases resolved@.len() - g,
    {
        let group = &resolved[g];
        let mut f: usize = 0;
        while f < group.files.len()
            invariant
                g < resolved@.len(),
                *group == resolved@[g as int],
                f <= group.files@.len(),
                count == records_before(resolved@, g as int, f as int),
                count <= limit,
                limit == 0xffff_ffff - NUM_BUILT_IN_SECTIONS,
            decreases group.files@.len() - f,
        {
            let more = match &group.files[f] {
                ResolvedFile::Object(obj) => match &obj.non_dynamic {
                    Some(non_dynamic) => non_dynamic.custom_sections.len(),
                    None => 0,
                },
                _ => 0,
            };
            if more > limit - count {
                proof {
                    lemma_records_before_monotonic(resolved@, g as int, f + 1);
                }
                return false;
            }
            count = count + more;
            f = f + 1;
        }
        g = g + 1;
    }
    true
}

/// Gives each custom section to which a loaded object contributes an
/// identifier, in the order in which the objects stand in their groups, and
/// sets the part of each section that contributes to one. Returns the table
/// of output sections. Fails, and changes nothing, if there are more
/// records of custom sections than can be counted.
pub fn assign_section_ids<'data>(resolved: &mut Vec<ResolvedGroup<'data>>, args: &Args) -> (r: Result<
    OutputSections,
    Error,
>)
    requires
        forall|g: int, f: int|
            0 <= g < old(resolved)@.len() && 0 <= f < old(resolved)@[g].files@.len()
                ==> records_have_parts(#[trigger] old(resolved)@[g].files@[f]),
    ensures
        match r {
            Ok(output_sections) => {
                &&& records_countable(old(resolved)@)
                &&& output_sections.wf()
                &&& output_sections.base_address == args.base_address
                &&& output_sections.table() == table_before(old(resolved)@, old(resolved)@.len() as int, 0)
                &&& is_laid_out_by_kind(&output_sections)
                &&& final(resolved)@.len() == old(resolved)@.len()
                &&& forall|g: int|
                    0 <= g < old(resolved)@.len() ==> (#[trigger] final(resolved)@[g]).files@.len()
                        == old(resolved)@[g].files@.len()
                &&& forall|g: int, f: int|
                    0 <= g < old(resolved)@.len() && 0 <= f < old(resolved)@[g].files@.len() ==> is_assigned(
                        old(resolved)@[g].files@[f],
                        #[trigger] final(resolved)@[g].files@[f],
                        table_before(old(resolved)@, g, f),
                    )
            },
            Err(e) => e == Error::TooLarge && !records_countable(old(resolved)@) && *final(resolved) == *old(resolved),
        },
{
    if !check_records(resolved) {
        return Err(Error::TooLarge);
    }
    let mut output_sections_builder = OutputSectionsBuilder::with_base_address(args.base_address);
    let ghost before = resolved@;
    let mut g: usize = 0;
    while g < resolved.len()
        invariant
            g <= before.len(),
            resolved@.len() == before.len(),
            before == old(resolved)@,
            NUM_BUILT_IN_SECTIONS + records_before(before, before.len() as int, 0) <= u32::MAX,
            forall|i: int, f: int|
                0 <= i < before.len() && 0 <= f < before[i].files@.len() ==> records_have_parts(
                    #[trigger] before[i].files@[f],
                ),
            output_sections_builder.base_address == args.base_address,
            output_sections_builder.table() == table_before(before, g as int, 0),
            forall|i: int| 0 <= i < before.len() ==> (#[trigger] resolved@[i]).files@.len() == before[i].files@.len(),
            forall|i: int| g <= i < before.len() ==> #[trigger] resolved@[i] == before[i],
            forall|i: int, f: int|
                0 <= i < g && 0 <= f < before[i].files@.len() ==> is_assigned(
                    before[i].files@[f],
                    #[trigger] resolved@[i].files@[f],
                    table_before(before, i, f),
                ),
        decreases before.len() - g,
    {
        let ghost resolved_before = resolved@;
        let mut f: usize = 0;
        while f < resolved[g].files.len()
            invariant
                g < before.len(),
                f <= before[g as int].files@.len(),
                resolved@.len() == before.len(),
                NUM_BUILT_IN_SECTIONS + records_before(before, before.len() as int, 0) <= u32::MAX,
                forall|i: int, f: int|
                    0 <= i < before.len() && 0 <= f < before[i].files@.len() ==> records_have_parts(
                        #[trigger] before[i].files@[f],
                    ),
                output_sections_builder.base_address == args.base_address,
                output_sections_builder.table() == table_before(before, g as int, f as int),
                resolved@[g as int].files@.len() == before[g as int].files@.len(),
                forall|i: int| 0 <= i < before.len() && i != g ==> #[trigger] resolved@[i] == resolved_before[i],
                forall|k: int|
                    f <= k < before[g as int].files@.len() ==> #[trigger] resolved@[g as int].files@[k]
                        == before[g as int].files@[k],
                forall|k: int|
                    0 <= k < f ==> is_assigned(
                        before[g as int].files@[k],
                        #[trigger] resolved@[g as int].files@[k],
                        table_before(before, g as int, k),
                    ),
            decreases before[g as int].files@.len() - f,
        {
            let ghost table = output_sections_builder.table();
            proof {
                lemma_table_before_len(before, g as int, f as int);
                lemma_records_before_monotonic(before, g as int, f + 1);
            }
            if let ResolvedFile::Object(s) = &mut resolved[g].files[f] {
                if let Some(non_dynamic) = &mut s.non_dynamic {
                    output_sections_builder.add_sections(
                        non_dynamic.custom_sections.as_slice(),
                        non_dynamic.sections.as_mut_slice(),
                    );
                }
            }
            f = f + 1;
        }
        g = g + 1;
    }
    proof {
        lemma_table_before_len(before, before.len() as int, 0);
    }
    Ok(output_sections_builder.build())
}

/// Whether each custom section stands in the list of its kind, by ascending identifier.
pub open spec fn is_laid_out_by_kind(output_sections: &OutputSections) -> bool {
    let table = output_sections.table();
    &&& output_sections.ro_custom@ == ids_of_kind(table, SectionKind::ReadOnly, table.len() as int)
    &&& output_sections.exec_custom@ == ids_of_kind(table, SectionKind::Executable, table.len() as int)
    &&& output_sections.data_custom@ == ids_of_kind(table, SectionKind::Data, table.len() as int)
    &&& output_sections.bss_custom@ == ids_of_kind(table, SectionKind::Bss, table.len() as int)
}

} // verus!
