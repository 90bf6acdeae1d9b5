//! Resolution from the parsed files to what the layout needs: which files
//! are loaded, the table of output sections, the merged strings, and the
//! definitions of the symbols.

use crate::classifier::{lemma_records_index, records};
use crate::driver::{
    fails_with, has_objects, inputs_fit, is_covered, is_reached, is_resolution, is_resolved_as,
    outcome_of, own_definitions, resolve_symbols_in_files, same_but_definitions, undefined_through,
};
use crate::error::Error;
use crate::input::{Group, InternalSymDefInfo, ParsedInput, Prelude};
use crate::merge_strings::MergeStringsSection;
use crate::merged_strings::{
    all_agree, can_merge, entries_fit, holds_merged, is_countable, merge_entries, merge_strings,
};
use crate::output_section_id::OutputSections;
use crate::output_section_map::OutputSectionMap;
use crate::resolution::{
    definitions_after, file_at, has_file, has_input, input_at, lemma_definitions_allowed,
    lemma_undefined_allowed, resolve_alternative_symbol_definitions, symbol_outcome,
    symbols_to_resolve, ResolvedFile, ResolvedGroup, ResolvedPrelude, SymbolsOutcome,
    UndefinedSymbol,
};
use crate::section_ids::{
    assign_section_ids, is_assigned, is_laid_out_by_kind, records_countable, records_have_parts,
    table_before,
};
use crate::symbol_db::{FileId, SymbolDb, SymbolId};
use crate::undefined_symbols::{
    after_records, canonicalise_undefined_symbols, has_added_symbols, sorted_by_symbol, Canonical,
};
use vstd::prelude::*;

verus! {

/// A file that is what becomes of an input file has, for each of its
/// records of custom sections, a slot that carries a part.
pub proof fn lemma_resolved_file_has_parts<'data>(
    file: ResolvedFile<'data>,
    input: ParsedInput<'data>,
    loaded: bool,
    strip_debug: bool,
)
    requires
        is_resolved_as(file, input, loaded, strip_debug),
    ensures
        records_have_parts(file),
{
    if loaded && input is Object {
        let obj = input->Object_0;
        let resolved = file->Object_0;
        match resolved.non_dynamic {
            Some(non_dynamic) => {
                let sections = obj.sections@;
                assert(sections.len() == obj.sections.len());
                lemma_records_index(sections, strip_debug, sections.len() as int);
            },
            None => {},
        }
    }
}

/// What resolution comes to has the shape of the input, and each of its
/// files has, for each of its records of custom sections, a slot that
/// carries a part.
pub proof fn lemma_resolution_shape<'data>(
    symbol_db: &SymbolDb<'data>,
    groups: Seq<Group<'data>>,
    initial: Seq<SymbolId>,
    order: Seq<FileId>,
    resolved: Seq<ResolvedGroup<'data>>,
    definitions: Seq<SymbolId>,
    undefined: Seq<UndefinedSymbol<'data>>,
)
    requires
        is_resolution(symbol_db, groups, initial, order, resolved, definitions, undefined),
        resolved.len() <= usize::MAX,
    ensures
        resolved.len() == groups.len(),
        definitions.len() == initial.len(),
        forall|g: int| 0 <= g < groups.len() ==> (#[trigger] resolved[g]).files@.len() == groups[g].files@.len(),
        forall|file_id: FileId| has_file(resolved, file_id) == has_input(groups, file_id),
        forall|g: int, f: int|
            0 <= g < resolved.len() && 0 <= f < resolved[g].files@.len() ==> records_have_parts(
                #[trigger] resolved[g].files@[f],
            ),
{
    reveal(is_resolution);
    assert forall|g: int, f: int| 0 <= g < resolved.len() && 0 <= f < resolved[g].files@.len()
        implies records_have_parts(
        #[trigger] resolved[g].files@[f],
    ) by {
        assert(resolved[g].files@.len() == resolved[g].files.len());
        let file_id = FileId { group: g as usize, file: f as usize };
        lemma_resolved_file_has_parts(
            file_at(resolved, file_id),
            input_at(groups, file_id),
            is_reached(symbol_db, groups, initial, file_id),
            symbol_db.args.strip_debug,
        );
    }
}

/// Whether the reference names a symbol of the first `num_symbols` and, if
/// it names a file, a file of the groups.
pub open spec fn is_known_reference(record: UndefinedSymbol, groups: Seq<Group>, num_symbols: int) -> bool {
    &&& record.symbol_id@ < num_symbols
    &&& record.ignore_if_loaded matches Some(file_id) ==> has_input(groups, file_id)
}

/// The references that a file leaves undefined name symbols of the table
/// and files of the groups.
pub proof fn lemma_file_references_known<'data>(
    symbol_db: &SymbolDb<'data>,
    groups: Seq<Group<'data>>,
    initial: Seq<SymbolId>,
    file_id: FileId,
)
    requires
        inputs_fit(groups, symbol_db, initial),
        initial.len() == symbol_db.num_symbols(),
        has_input(groups, file_id),
    ensures
        forall|i: int|
            0 <= i < outcome_of(symbol_db, groups, initial, file_id).undefined.len() ==> is_known_reference(
                #[trigger] outcome_of(symbol_db, groups, initial, file_id).undefined[i],
                groups,
                initial.len() as int,
            ),
{
    reveal(inputs_fit);
    match input_at(groups, file_id) {
        ParsedInput::Object(obj) => {
            let start = SymbolsOutcome {
                definitions: own_definitions(initial, &obj),
                requested: Seq::empty(),
                undefined: Seq::empty(),
                error: None,
            };
            let count = symbols_to_resolve(&obj, start.definitions.len() as int);
            let allowed = |record: UndefinedSymbol<'data>| is_known_reference(record, groups, initial.len() as int);
            assert forall|i: int, definition: SymbolId| 0 <= i < count implies ((#[trigger] symbol_outcome(
                symbol_db,
                &obj,
                i,
                obj.symbols@[i],
                definition,
            )).undefined matches Some(record) ==> allowed(record)) by {
                crate::merge_strings::lemma_position_of(
                    symbol_db.names(),
                    obj.symbols@[i].name@,
                    symbol_db.names().len() as int,
                );
            }
            lemma_undefined_allowed(symbol_db, &obj, start, count, allowed);
        },
        _ => {},
    }
}

/// The references that the files of an order leave undefined name symbols
/// of the table and files of the groups.
pub proof fn lemma_references_known<'data>(
    symbol_db: &SymbolDb<'data>,
    groups: Seq<Group<'data>>,
    initial: Seq<SymbolId>,
    order: Seq<FileId>,
    k: int,
)
    requires
        inputs_fit(groups, symbol_db, initial),
        initial.len() == symbol_db.num_symbols(),
        0 <= k <= order.len(),
        forall|i: int| 0 <= i < order.len() ==> has_input(groups, #[trigger] order[i]),
    ensures
        forall|i: int|
            0 <= i < undefined_through(symbol_db, groups, initial, order, k).len() ==> is_known_reference(
                #[trigger] undefined_through(symbol_db, groups, initial, order, k)[i],
                groups,
                initial.len() as int,
            ),
    decreases k,
{
    if k > 0 {
        lemma_references_known(symbol_db, groups, initial, order, k - 1);
        lemma_file_references_known(symbol_db, groups, initial, order[k - 1]);
        let before = undefined_through(symbol_db, groups, initial, order, k - 1);
    }
}

/// The definitions that processing a file gives its symbols are symbols of the table.
pub proof fn lemma_file_definitions_known<'data>(
    symbol_db: &SymbolDb<'data>,
    groups: Seq<Group<'data>>,
    initial: Seq<SymbolId>,
    file_id: FileId,
)
    requires
        inputs_fit(groups, symbol_db, initial),
        initial.len() == symbol_db.num_symbols(),
        forall|i: int| 0 <= i < initial.len() ==> (#[trigger] initial[i])@ < initial.len(),
        has_input(groups, file_id),
        input_at(groups, file_id) is Object,
    ensures
        outcome_of(symbol_db, groups, initial, file_id).definitions.len() == input_at(
            groups,
            file_id,
        )->Object_0.symbol_id_range.num_symbols,
        forall|i: int|
            0 <= i < outcome_of(symbol_db, groups, initial, file_id).definitions.len() ==> (
            #[trigger] outcome_of(symbol_db, groups, initial, file_id).definitions[i])@ < initial.len(),
{
    reveal(inputs_fit);
    let obj = input_at(groups, file_id)->Object_0;
    let start = SymbolsOutcome {
        definitions: own_definitions(initial, &obj),
        requested: Seq::empty(),
        undefined: Seq::empty(),
        error: None,
    };
    let count = symbols_to_resolve(&obj, start.definitions.len() as int);
    let allowed = |id: SymbolId| id@ < initial.len();
    lemma_definitions_allowed(symbol_db, &obj, start, count, allowed);
}

/// After resolution every definition is a symbol of the table.
pub proof fn lemma_resolution_definitions<'data>(
    symbol_db: &SymbolDb<'data>,
    groups: Seq<Group<'data>>,
    initial: Seq<SymbolId>,
    order: Seq<FileId>,
    resolved: Seq<ResolvedGroup<'data>>,
    definitions: Seq<SymbolId>,
    undefined: Seq<UndefinedSymbol<'data>>,
)
    requires
        inputs_fit(groups, symbol_db, initial),
        initial.len() == symbol_db.num_symbols(),
        forall|i: int| 0 <= i < initial.len() ==> (#[trigger] initial[i])@ < initial.len(),
        is_resolution(symbol_db, groups, initial, order, resolved, definitions, undefined),
    ensures
        definitions.len() == initial.len(),
        forall|i: int| 0 <= i < definitions.len() ==> (#[trigger] definitions[i])@ < initial.len(),
        forall|i: int|
            0 <= i < undefined.len() ==> is_known_reference(#[trigger] undefined[i], groups, initial.len() as int),
{
    reveal(is_resolution);
    assert forall|i: int| 0 <= i < order.len() implies has_input(groups, #[trigger] order[i]) by {
        assert(order.contains(order[i]));
    }
    lemma_references_known(symbol_db, groups, initial, order, order.len() as int);
    assert forall|index: int| 0 <= index < definitions.len() implies (#[trigger] definitions[index])@
        < initial.len() by {
        if is_covered(groups, order, order.len() as int, index) {
            let i = choose|i: int|
                0 <= i < order.len() && i < order.len() && input_at(groups, #[trigger] order[i]) is Object
                    && input_at(groups, order[i])->Object_0.symbol_id_range.holds(index);
            let file_id = order[i];
            let obj = input_at(groups, file_id)->Object_0;
            lemma_file_definitions_known(symbol_db, groups, initial, file_id);
            let own = own_definitions(definitions, &obj);
            assert(obj.symbol_id_range.start_symbol_id@ + obj.symbol_id_range.num_symbols <= initial.len()) by {
                reveal(inputs_fit);
            }
            assert(own[index - obj.symbol_id_range.start_symbol_id@] == definitions[index]);
        }
    }
}

/// What resolution hands on to the layout.
#[derive(Debug)]
pub struct ResolutionOutputs<'data> {
    /// Every input file after resolution.
    pub groups: Vec<ResolvedGroup<'data>>,
    /// The output sections, built-in and custom.
    pub output_sections: OutputSections,
    /// The merged strings of each output section.
    pub merged_strings: OutputSectionMap<MergeStringsSection<'data>>,
    /// What each symbol marks that was added for the start or the end of a
    /// custom section.
    pub custom_start_stop_defs: Vec<InternalSymDefInfo>,
}

/// Whether the files and the references that resolution of the files has
/// come to fit the table of symbols: each file has, for each of its records
/// of custom sections, a slot that carries a part; every symbol belongs to
/// one of the files; the first file is there, and the file for symbols that
/// the linker adds at the end; and every reference names a symbol of the
/// table and, if it names a file, one of the files.
pub open spec fn can_finish<'data>(
    symbol_db: &SymbolDb<'data>,
    resolved: Seq<ResolvedGroup<'data>>,
    undefined: Seq<UndefinedSymbol<'data>>,
) -> bool {
    &&& symbol_db.wf()
    &&& symbol_db.has_definitions()
    &&& symbol_db.files_known(resolved)
    &&& has_file(resolved, symbol_db.epilogue_file_id)
    &&& has_file(resolved, FileId { group: 0, file: 0 })
    &&& forall|g: int, f: int|
        0 <= g < resolved.len() && 0 <= f < resolved[g].files@.len() ==> records_have_parts(
            #[trigger] resolved[g].files@[f],
        )
    &&& forall|i: int|
        0 <= i < undefined.len() ==> {
            let record = #[trigger] undefined[i];
            &&& record.symbol_id@ < symbol_db.num_symbols()
            &&& record.ignore_if_loaded matches Some(file_id) ==> has_file(resolved, file_id)
        }
}

/// Whether `assigned` is `resolved` with each section that contributes to a
/// custom section given its part, and `output_sections` the table of the
/// custom sections of `resolved`.
pub open spec fn is_assignment<'data>(
    resolved: Seq<ResolvedGroup<'data>>,
    assigned: Seq<ResolvedGroup<'data>>,
    output_sections: &OutputSections,
    base_address: u64,
) -> bool {
    &&& records_countable(resolved)
    &&& output_sections.wf()
    &&& output_sections.base_address == base_address
    &&& output_sections.table() == table_before(resolved, resolved.len() as int, 0)
    &&& is_laid_out_by_kind(output_sections)
    &&& assigned.len() == resolved.len()
    &&& forall|g: int| 0 <= g < resolved.len() ==> (#[trigger] assigned[g]).files@.len() == resolved[g].files@.len()
    &&& forall|g: int, f: int|
        0 <= g < resolved.len() && 0 <= f < resolved[g].files@.len() ==> is_assigned(
            resolved[g].files@[f],
            #[trigger] assigned[g].files@[f],
            table_before(resolved, g, f),
        )
}

/// Whether `merged` holds the merged strings of the files `assigned`.
pub open spec fn is_merged<'data>(
    assigned: Seq<ResolvedGroup<'data>>,
    output_sections: &OutputSections,
    merged: Seq<MergeStringsSection<'data>>,
) -> bool {
    let entries = merge_entries(assigned);
    &&& all_agree(assigned)
    &&& can_merge(entries, output_sections.num_sections())
    &&& merged.len() == output_sections.num_sections()
    &&& forall|section: int|
        0 <= section < merged.len() ==> (#[trigger] merged[section]).laid_out() && holds_merged(
            merged[section],
            entries,
            section,
            entries.len() as int,
        )
}

/// What canonicalising the references `undefined` comes to, starting from
/// the table of symbols `symbol_db`.
pub open spec fn canonical_end<'data>(
    symbol_db: &SymbolDb<'data>,
    undefined: Seq<UndefinedSymbol<'data>>,
    output_sections: &OutputSections,
    assigned: Seq<ResolvedGroup<'data>>,
) -> Canonical<'data> {
    let records = sorted_by_symbol(undefined, undefined.len() as int);
    after_records(
        Canonical {
            definitions: symbol_db.symbol_definitions@,
            names: Seq::empty(),
            start_stop_defs: Seq::empty(),
            added: Seq::empty(),
        },
        records,
        output_sections,
        assigned,
        symbol_db.num_symbols(),
        records.len() as int,
    )
}

/// Whether `canonical` is the table of symbols `symbol_db` after the
/// references `undefined` have been canonicalised, and `defs` what the
/// symbols that were added mark.
pub open spec fn is_canonical<'data>(
    symbol_db: &SymbolDb<'data>,
    undefined: Seq<UndefinedSymbol<'data>>,
    output_sections: &OutputSections,
    assigned: Seq<ResolvedGroup<'data>>,
    canonical: &SymbolDb<'data>,
    defs: Seq<InternalSymDefInfo>,
) -> bool {
    let end = canonical_end(symbol_db, undefined, output_sections, assigned);
    &&& symbol_db.num_symbols() + undefined.len() <= u32::MAX
    &&& defs == end.start_stop_defs
    &&& has_added_symbols(symbol_db, canonical, end.added, end.definitions)
}

/// Whether `after` is the table of symbols `canonical` after a definition
/// has been selected for each symbol with alternatives.
pub open spec fn is_selected<'data>(
    canonical: &SymbolDb<'data>,
    assigned: Seq<ResolvedGroup<'data>>,
    after: &SymbolDb<'data>,
) -> bool {
    &&& after.symbol_definitions@ == definitions_after(
        canonical,
        assigned,
        canonical.symbols_with_alternatives@.len() as int,
    )
    &&& after.alternative_definitions@.len() == 0
    &&& after.symbols_with_alternatives@.len() == 0
    &&& after.args == canonical.args
    &&& after.global_names == canonical.global_names
    &&& after.symbol_file_ids == canonical.symbol_file_ids
    &&& after.symbol_value_flags == canonical.symbol_value_flags
    &&& after.start_stop_symbol_names == canonical.start_stop_symbol_names
    &&& after.epilogue_file_id == canonical.epilogue_file_id
}

/// Whether `groups` is `assigned` with the first file replaced by the
/// linker's own symbols `prelude`.
pub open spec fn has_prelude<'data>(
    assigned: Seq<ResolvedGroup<'data>>,
    groups: Seq<ResolvedGroup<'data>>,
    prelude: &'data Prelude,
) -> bool {
    &&& groups.len() == assigned.len()
    &&& forall|g: int| 0 < g < assigned.len() ==> #[trigger] groups[g] == assigned[g]
    &&& groups[0].files@.len() == assigned[0].files@.len()
    &&& forall|f: int| 0 < f < assigned[0].files@.len() ==> #[trigger] groups[0].files@[f] == assigned[0].files@[f]
    &&& groups[0].files@[0] matches ResolvedFile::Prelude(first) && first.symbol_definitions@
        == prelude.symbol_definitions@
}

/// Whether `outputs` and `after` are what finishing resolution comes to,
/// with `assigned` the files after the custom sections have got their
/// identifiers and `canonical` the table of symbols after the undefined
/// references have been canonicalised.
pub open spec fn is_finished<'data>(
    symbol_db: &SymbolDb<'data>,
    resolved: Seq<ResolvedGroup<'data>>,
    undefined: Seq<UndefinedSymbol<'data>>,
    prelude: &'data Prelude,
    assigned: Seq<ResolvedGroup<'data>>,
    canonical: &SymbolDb<'data>,
    outputs: &ResolutionOutputs<'data>,
    after: &SymbolDb<'data>,
) -> bool {
    &&& is_assignment(resolved, assigned, &outputs.output_sections, symbol_db.args.base_address)
    &&& is_merged(assigned, &outputs.output_sections, outputs.merged_strings@)
    &&& is_canonical(
        symbol_db,
        undefined,
        &outputs.output_sections,
        assigned,
        canonical,
        outputs.custom_start_stop_defs@,
    )
    &&& is_selected(canonical, assigned, after)
    &&& has_prelude(assigned, outputs.groups@, prelude)
}

/// Why finishing resolution fails with the error `e`: there are more
/// records of custom sections than can be counted; or, with `assigned` the
/// files after the custom sections have got their identifiers, the strings
/// cannot be merged, as `merge_strings` says; or there could be more symbols
/// in the end than can be numbered.
pub open spec fn finish_fails<'data>(
    symbol_db: &SymbolDb<'data>,
    resolved: Seq<ResolvedGroup<'data>>,
    undefined: Seq<UndefinedSymbol<'data>>,
    assigned: Seq<ResolvedGroup<'data>>,
    output_sections: &OutputSections,
    e: Error,
) -> bool {
    ||| e == Error::TooLarge && !records_countable(resolved)
    ||| {
        &&& is_assignment(resolved, assigned, output_sections, symbol_db.args.base_address)
        &&& {
            ||| e == Error::TooLarge && all_agree(assigned) && entries_fit(
                merge_entries(assigned),
                output_sections.num_sections(),
            ) && !is_countable(merge_entries(assigned))
            ||| e == Error::ExpectedMergeStringsSlot && (!all_agree(assigned) || !entries_fit(
                merge_entries(assigned),
                output_sections.num_sections(),
            ))
            ||| e == Error::TooLarge && all_agree(assigned) && can_merge(
                merge_entries(assigned),
                output_sections.num_sections(),
            ) && symbol_db.num_symbols() + undefined.len() > u32::MAX
        }
    }
}

/// Finishes resolution once it is known which files are loaded: gives the
/// custom sections their identifiers, merges the strings of the sections of
/// mergeable strings, canonicalises the references that were left
/// undefined, selects a definition for each symbol with alternatives, and
/// puts the linker's own symbols in the place of the first file.
///
/// Fails, and leaves the table of symbols as it is, if there is more input
/// than can be counted, or if a section of mergeable strings is not what
/// its slot says.
pub fn finish_resolution<'data>(
    resolved: Vec<ResolvedGroup<'data>>,
    undefined_symbols: Vec<UndefinedSymbol<'data>>,
    prelude: &'data Prelude,
    symbol_db: &mut SymbolDb<'data>,
) -> (r: Result<ResolutionOutputs<'data>, Error>)
    requires
        can_finish(old(symbol_db), resolved@, undefined_symbols@),
    ensures
        match r {
            Ok(outputs) => exists|assigned: Seq<ResolvedGroup<'data>>, canonical: SymbolDb<'data>| #[trigger]
                is_finished(
                    old(symbol_db),
                    resolved@,
                    undefined_symbols@,
                    prelude,
                    assigned,
                    &canonical,
                    &outputs,
                    final(symbol_db),
                ),
            Err(e) => *final(symbol_db) == *old(symbol_db) && exists|
                assigned: Seq<ResolvedGroup<'data>>,
                output_sections: OutputSections,
            | #[trigger]
                finish_fails(old(symbol_db), resolved@, undefined_symbols@, assigned, &output_sections, e),
        },
{
    let ghost before = resolved@;
    let ghost undefined = undefined_symbols@;
    let mut resolved = resolved;
    let output_sections = match assign_section_ids(&mut resolved, &symbol_db.args) {
        Ok(output_sections) => output_sections,
        Err(e) => {
            proof {
                let none: OutputSections = arbitrary();
                assert(finish_fails(old(symbol_db), before, undefined, before, &none, e));
            }
            return Err(e);
        },
    };
    let ghost assigned = resolved@;
    let merged_strings = match merge_strings(resolved.as_slice(), &output_sections) {
        Ok(merged_strings) => merged_strings,
        Err(e) => {
            proof {
                assert(finish_fails(old(symbol_db), before, undefined, assigned, &output_sections, e));
            }
            return Err(e);
        },
    };
    let custom_start_stop_defs = match canonicalise_undefined_symbols(
        undefined_symbols,
        &output_sections,
        resolved.as_slice(),
        symbol_db,
    ) {
        Ok(defs) => defs,
        Err(e) => {
            proof {
                assert(finish_fails(old(symbol_db), before, undefined, assigned, &output_sections, e));
            }
            return Err(e);
        },
    };
    let ghost canonical = *symbol_db;
    match resolve_alternative_symbol_definitions(symbol_db, resolved.as_slice()) {
        Ok(()) => {},
        Err(e) => {
            return Err(e);
        },
    }
    resolved[0].files[0] = ResolvedFile::Prelude(
        ResolvedPrelude { symbol_definitions: prelude.symbol_definitions.as_slice() },
    );
    let outputs = ResolutionOutputs { groups: resolved, output_sections, merged_strings, custom_start_stop_defs };
    let r = Ok(outputs);
    proof {
        assert(is_finished(
            old(symbol_db),
            before,
            undefined,
            prelude,
            assigned,
            &canonical,
            &r->Ok_0,
            symbol_db,
        ));
    }
    r
}

/// The stages of a link between the input and what resolution hands on.
pub struct Link<'data> {
    /// The files that were processed, in the order of processing.
    pub order: Seq<FileId>,
    /// The files after it was found out which are loaded.
    pub resolved: Seq<ResolvedGroup<'data>>,
    /// The references that were left undefined.
    pub undefined: Seq<UndefinedSymbol<'data>>,
    /// The table of symbols after the symbols of the loaded files were resolved.
    pub resolved_db: SymbolDb<'data>,
    /// The files after the custom sections have got their identifiers.
    pub assigned: Seq<ResolvedGroup<'data>>,
    /// The table of symbols after the undefined references were canonicalised.
    pub canonical: SymbolDb<'data>,
    /// The table of output sections.
    pub output_sections: OutputSections,
}

/// Whether the first stage of `link` is what finding out which files are
/// loaded comes to: no file that is processed fails, and files, definitions
/// and undefined references are as `is_resolution` says.
pub open spec fn is_loaded_link<'data>(symbol_db: &SymbolDb<'data>, groups: Seq<Group<'data>>, link: Link<'data>) -> bool {
    let initial = symbol_db.symbol_definitions@;
    &&& has_objects(groups)
    &&& forall|file_id: FileId, e: Error| !#[trigger] fails_with(symbol_db, groups, initial, file_id, e)
    &&& same_but_definitions(symbol_db, &link.resolved_db)
    &&& is_resolution(
        symbol_db,
        groups,
        initial,
        link.order,
        link.resolved,
        link.resolved_db.symbol_definitions@,
        link.undefined,
    )
}

/// The linker's own symbols: those of the last file that holds such.
pub open spec fn prelude_of<'data>(groups: Seq<Group<'data>>) -> Prelude {
    input_at(groups, crate::driver::last_prelude(groups, groups.len() as int, 0)->Some_0)->Prelude_0
}

/// Whether `outputs` and `after` are what resolving the link comes to, by
/// the stages `link`.
pub open spec fn is_resolved_link<'data>(
    symbol_db: &SymbolDb<'data>,
    groups: Seq<Group<'data>>,
    link: Link<'data>,
    outputs: &ResolutionOutputs<'data>,
    after: &SymbolDb<'data>,
) -> bool {
    &&& is_loaded_link(symbol_db, groups, link)
    &&& is_assignment(link.resolved, link.assigned, &outputs.output_sections, symbol_db.args.base_address)
    &&& is_merged(link.assigned, &outputs.output_sections, outputs.merged_strings@)
    &&& is_canonical(
        &link.resolved_db,
        link.undefined,
        &outputs.output_sections,
        link.assigned,
        &link.canonical,
        outputs.custom_start_stop_defs@,
    )
    &&& is_selected(&link.canonical, link.assigned, after)
    &&& outputs.groups@.len() == link.assigned.len()
    &&& forall|g: int| 0 < g < link.assigned.len() ==> #[trigger] outputs.groups@[g] == link.assigned[g]
    &&& outputs.groups@[0].files@.len() == link.assigned[0].files@.len()
    &&& forall|f: int|
        0 < f < link.assigned[0].files@.len() ==> #[trigger] outputs.groups@[0].files@[f]
            == link.assigned[0].files@[f]
    &&& outputs.groups@[0].files@[0] matches ResolvedFile::Prelude(first) && first.symbol_definitions@
        == prelude_of(groups).symbol_definitions@
}

/// Why resolving the link fails with the error `e`: no file is an object;
/// or a file that is processed fails; or, with the stages `link`, finishing
/// resolution fails as `finish_fails` says.
pub open spec fn link_fails<'data>(
    symbol_db: &SymbolDb<'data>,
    groups: Seq<Group<'data>>,
    link: Link<'data>,
    e: Error,
) -> bool {
    let initial = symbol_db.symbol_definitions@;
    ||| !has_objects(groups) && e == Error::NoInputFiles
    ||| has_objects(groups) && exists|file_id: FileId| #[trigger] fails_with(symbol_db, groups, initial, file_id, e)
    ||| is_loaded_link(symbol_db, groups, link) && finish_fails(
        &link.resolved_db,
        link.resolved,
        link.undefined,
        link.assigned,
        &link.output_sections,
        e,
    )
}

/// Resolves the symbols and the sections of a link: finds out which files
/// are loaded and resolves their symbols, gives the custom sections their
/// identifiers, merges the mergeable strings, canonicalises the references
/// that are left undefined, and selects a definition for each symbol with
/// alternatives.
pub fn resolve_symbols_and_sections<'data>(groups: &'data [Group<'data>], symbol_db: &mut SymbolDb<'data>) -> (r:
    Result<ResolutionOutputs<'data>, Error>)
    requires
        inputs_fit(groups@, old(symbol_db), old(symbol_db).symbol_definitions@),
        old(symbol_db).has_definitions(),
    ensures
        match r {
            Ok(outputs) => exists|link: Link<'data>| #[trigger]
                is_resolved_link(old(symbol_db), groups@, link, &outputs, final(symbol_db)),
            Err(e) => exists|link: Link<'data>| #[trigger] link_fails(old(symbol_db), groups@, link, e),
        },
{
    let ghost initial = symbol_db.symbol_definitions@;
    let (resolved, undefined_symbols, prelude) = match resolve_symbols_in_files(groups, symbol_db) {
        Ok(loaded) => loaded,
        Err(e) => {
            proof {
                let none: Link<'data> = arbitrary();
                assert(link_fails(old(symbol_db), groups@, none, e));
            }
            return Err(e);
        },
    };
    let num_groups = resolved.len();
    let ghost resolved_db = *symbol_db;
    let ghost resolved_view = resolved@;
    let ghost undefined = undefined_symbols@;
    let ghost order = choose|order: Seq<FileId>| #[trigger]
        is_resolution(
            old(symbol_db),
            groups@,
            initial,
            order,
            resolved_view,
            resolved_db.symbol_definitions@,
            undefined,
        );
    proof {
        lemma_can_finish(
            old(symbol_db),
            &resolved_db,
            groups@,
            order,
            resolved_view,
            undefined,
        );
    }
    let finished = finish_resolution(resolved, undefined_symbols, prelude, symbol_db);
    proof {
        if finished is Ok {
            {
                let outputs = finished->Ok_0;
                let (assigned, canonical) = choose|assigned: Seq<ResolvedGroup<'data>>, canonical: SymbolDb<'data>| #[trigger]
                    is_finished(
                        &resolved_db,
                        resolved_view,
                        undefined,
                        prelude,
                        assigned,
                        &canonical,
                        &outputs,
                        symbol_db,
                    );
                let link = Link {
                    order,
                    resolved: resolved_view,
                    undefined,
                    resolved_db,
                    assigned,
                    canonical,
                    output_sections: outputs.output_sections,
                };
                assert(is_resolved_link(old(symbol_db), groups@, link, &finished->Ok_0, symbol_db));
            }
        } else {
            {
                let e = finished->Err_0;
                let (assigned, output_sections) = choose|
                    assigned: Seq<ResolvedGroup<'data>>,
                    output_sections: OutputSections,
                | #[trigger]
                    finish_fails(&resolved_db, resolved_view, undefined, assigned, &output_sections, e);
                let link = Link {
                    order,
                    resolved: resolved_view,
                    undefined,
                    resolved_db,
                    assigned,
                    canonical: resolved_db,
                    output_sections,
                };
                assert(link_fails(old(symbol_db), groups@, link, finished->Err_0));
            }
        }
    }
    finished
}

/// What finding out which files are loaded comes to can be finished.
proof fn lemma_can_finish<'data>(
    symbol_db: &SymbolDb<'data>,
    resolved_db: &SymbolDb<'data>,
    groups: Seq<Group<'data>>,
    order: Seq<FileId>,
    resolved: Seq<ResolvedGroup<'data>>,
    undefined: Seq<UndefinedSymbol<'data>>,
)
    requires
        inputs_fit(groups, symbol_db, symbol_db.symbol_definitions@),
        symbol_db.has_definitions(),
        same_but_definitions(symbol_db, resolved_db),
        resolved.len() <= usize::MAX,
        is_resolution(
            symbol_db,
            groups,
            symbol_db.symbol_definitions@,
            order,
            resolved,
            resolved_db.symbol_definitions@,
            undefined,
        ),
    ensures
        can_finish(resolved_db, resolved, undefined),
{
    let initial = symbol_db.symbol_definitions@;
    lemma_resolution_shape(symbol_db, groups, initial, order, resolved, resolved_db.symbol_definitions@, undefined);
    lemma_resolution_definitions(
        symbol_db,
        groups,
        initial,
        order,
        resolved,
        resolved_db.symbol_definitions@,
        undefined,
    );
    reveal(inputs_fit);
    assert forall|i: int| 0 <= i < undefined.len() implies {
        let record = #[trigger] undefined[i];
        &&& record.symbol_id@ < resolved_db.num_symbols()
        &&& record.ignore_if_loaded matches Some(file_id) ==> has_file(resolved, file_id)
    } by {
    }
}

} // verus!
