//! What becomes of the references that resolution left undefined: each name
//! gets one symbol that stands for it, and the names that mark the start or
//! the end of a custom section get a definition.

use crate::classifier::{has_prefix, starts_with};
use crate::error::Error;
use crate::hash::PreHashed;
use crate::input::InternalSymDefInfo;
use crate::merge_strings::{lemma_found, position_of};
use crate::output_section_id::{bytes_equal, OutputSectionId, OutputSections};
use crate::resolution::{file_at, has_file, ResolvedFile, ResolvedGroup, UndefinedSymbol};
use crate::symbol_db::{SymbolDb, SymbolId, SymbolName};
use crate::value_flags::ValueFlags;
use vstd::prelude::*;
use vstd::slice::slice_subrange;

verus! {

/// The prefix `__start_` of the name of a symbol that marks the start of a section.
pub open spec fn start_prefix() -> Seq<u8> {
    seq![0x5fu8, 0x5fu8, 0x73u8, 0x74u8, 0x61u8, 0x72u8, 0x74u8, 0x5fu8]
}

/// The prefix `__stop_` of the name of a symbol that marks the end of a section.
pub open spec fn stop_prefix() -> Seq<u8> {
    seq![0x5fu8, 0x5fu8, 0x73u8, 0x74u8, 0x6fu8, 0x70u8, 0x5fu8]
}

/// The custom section whose start or end the name `name` marks, and whether
/// it is the start: the name is `__start_` or `__stop_` followed by the name
/// of a custom section.
pub open spec fn start_stop_section(name: Seq<u8>, output_sections: &OutputSections) -> Option<
    (OutputSectionId, bool),
> {
    if has_prefix(name, start_prefix()) {
        match output_sections.id_of_name(name.subrange(8, name.len() as int)) {
            Some(id) => Some((id, true)),
            None => None,
        }
    } else if has_prefix(name, stop_prefix()) {
        match output_sections.id_of_name(name.subrange(7, name.len() as int)) {
            Some(id) => Some((id, false)),
            None => None,
        }
    } else {
        None
    }
}

/// What the linker says of a symbol that marks the start or the end of `section`.
pub open spec fn start_stop_definition(section: OutputSectionId, is_start: bool) -> InternalSymDefInfo {
    if is_start {
        InternalSymDefInfo::SectionStart(section)
    } else {
        InternalSymDefInfo::SectionEnd(section)
    }
}

/// Whether `after` is `before` with one more symbol: the next number, in the
/// file for symbols that the linker adds at the end, defined by itself, with
/// the name `name`.
pub open spec fn has_added_symbol<'data>(
    before: &SymbolDb<'data>,
    after: &SymbolDb<'data>,
    name: PreHashed<SymbolName<'data>>,
) -> bool {
    &&& after.symbol_file_ids@ == before.symbol_file_ids@.push(before.epilogue_file_id)
    &&& after.symbol_definitions@ == before.symbol_definitions@.push(
        SymbolId(before.num_symbols() as u32),
    )
    &&& after.symbol_value_flags@ == before.symbol_value_flags@.push(ValueFlags(0x11))
    &&& after.alternative_definitions@ == before.alternative_definitions@.push(SymbolId(0))
    &&& after.start_stop_symbol_names@ == before.start_stop_symbol_names@.push(name)
    &&& after.args == before.args
    &&& after.global_names == before.global_names
    &&& after.symbols_with_alternatives == before.symbols_with_alternatives
    &&& after.epilogue_file_id == before.epilogue_file_id
}

/// If `name` marks the start or the end of a custom section, adds a symbol
/// for it, records what the symbol marks, and returns the symbol. Otherwise
/// changes nothing.
pub fn allocate_start_stop_symbol_id<'data>(
    name: PreHashed<SymbolName<'data>>,
    symbol_db: &mut SymbolDb<'data>,
    custom_start_stop_defs: &mut Vec<InternalSymDefInfo>,
    output_sections: &OutputSections,
) -> (r: Option<SymbolId>)
    requires
        old(symbol_db).wf(),
        old(symbol_db).has_definitions(),
        old(symbol_db).num_symbols() < u32::MAX,
        output_sections.wf(),
    ensures
        final(symbol_db).wf(),
        final(symbol_db).has_definitions(),
        match start_stop_section(name.value.bytes@, output_sections) {
            Some((section, is_start)) => {
                &&& r == Some(SymbolId(old(symbol_db).num_symbols() as u32))
                &&& has_added_symbol(old(symbol_db), final(symbol_db), name)
                &&& final(custom_start_stop_defs)@ == old(custom_start_stop_defs)@.push(
                    start_stop_definition(section, is_start),
                )
            },
            None => {
                &&& r is None
                &&& *final(symbol_db) == *old(symbol_db)
                &&& final(custom_start_stop_defs)@ == old(custom_start_stop_defs)@
            },
        },
{
    let symbol_name_bytes = name.value.bytes();
    let start: [u8; 8] = [0x5f, 0x5f, 0x73, 0x74, 0x61, 0x72, 0x74, 0x5f];
    let stop: [u8; 7] = [0x5f, 0x5f, 0x73, 0x74, 0x6f, 0x70, 0x5f];
    let (section_name, is_start) = if starts_with(symbol_name_bytes, start.as_slice()) {
        (slice_subrange(symbol_name_bytes, 8, symbol_name_bytes.len()), true)
    } else if starts_with(symbol_name_bytes, stop.as_slice()) {
        (slice_subrange(symbol_name_bytes, 7, symbol_name_bytes.len()), false)
    } else {
        return None;
    };
    let section_id = match output_sections.custom_name_to_id(section_name) {
        Some(id) => id,
        None => {
            return None;
        },
    };
    let symbol_id = symbol_db.add_start_stop_symbol(name);
    let def_info = if is_start {
        InternalSymDefInfo::SectionStart(section_id)
    } else {
        InternalSymDefInfo::SectionEnd(section_id)
    };
    custom_start_stop_defs.push(def_info);
    Some(symbol_id)
}

impl<'data> UndefinedSymbol<'data> {
    /// Whether the record does not count: it names a file that may define
    /// the symbol, and that file has been loaded.
    pub open spec fn is_defined(self, groups: Seq<ResolvedGroup>) -> bool {
        match self.ignore_if_loaded {
            Some(file_id) => !(file_at(groups, file_id) is NotLoaded),
            None => false,
        }
    }

    /// Whether the record does not count: it names a file that may define
    /// the symbol, and that file has been loaded.
    pub fn is_ignored(&self, groups: &[ResolvedGroup<'data>]) -> (r: bool)
        requires
            self.ignore_if_loaded matches Some(file_id) ==> has_file(groups@, file_id),
        ensures
            r == self.is_defined(groups@),
    {
        match self.ignore_if_loaded {
            Some(file_id) => !matches!(groups[file_id.group()].files[file_id.file()], ResolvedFile::NotLoaded(_)),
            None => false,
        }
    }
}

/// Where `record` goes among the first `limit` of `sorted`: after the last
/// of them whose symbol is not greater than its own.
pub open spec fn place_of(sorted: Seq<UndefinedSymbol>, record: UndefinedSymbol, limit: int) -> int
    decreases limit,
{
    if limit <= 0 {
        0
    } else if sorted[limit - 1].symbol_id@ <= record.symbol_id@ {
        limit
    } else {
        place_of(sorted, record, limit - 1)
    }
}

/// The first `count` of `records` by ascending symbol; records with the same
/// symbol keep their order.
pub open spec fn sorted_by_symbol<'data>(records: Seq<UndefinedSymbol<'data>>, count: int) -> Seq<
    UndefinedSymbol<'data>,
>
    decreases count,
{
    if count <= 0 {
        Seq::empty()
    } else {
        let before = sorted_by_symbol(records, count - 1);
        before.insert(place_of(before, records[count - 1], before.len() as int), records[count - 1])
    }
}

/// Whether the records are in ascending order of their symbols.
pub open spec fn is_sorted(records: Seq<UndefinedSymbol>) -> bool {
    forall|i: int, j: int|
        0 <= i <= j < records.len() ==> (#[trigger] records[i]).symbol_id@ <= (#[trigger] records[j]).symbol_id@
}

/// A record is placed after everything that is not greater and before
/// everything that is greater.
pub proof fn lemma_place_of(sorted: Seq<UndefinedSymbol>, record: UndefinedSymbol, limit: int)
    requires
        0 <= limit <= sorted.len(),
        is_sorted(sorted),
    ensures
        0 <= place_of(sorted, record, limit) <= limit,
        forall|i: int|
            0 <= i < place_of(sorted, record, limit) ==> (#[trigger] sorted[i]).symbol_id@ <= record.symbol_id@,
        forall|i: int|
            place_of(sorted, record, limit) <= i < limit ==> (#[trigger] sorted[i]).symbol_id@
                > record.symbol_id@,
    decreases limit,
{
    if limit > 0 && sorted[limit - 1].symbol_id@ > record.symbol_id@ {
        lemma_place_of(sorted, record, limit - 1);
    }
}

/// Sorting gives the same records, each as often as before, in ascending
/// order of their symbols.
pub proof fn lemma_sorted_by_symbol(records: Seq<UndefinedSymbol>, count: int)
    requires
        0 <= count <= records.len(),
    ensures
        sorted_by_symbol(records, count).len() == count,
        is_sorted(sorted_by_symbol(records, count)),
        sorted_by_symbol(records, count).to_multiset() == records.subrange(0, count).to_multiset(),
    decreases count,
{
    if count > 0 {
        lemma_sorted_by_symbol(records, count - 1);
        let before = sorted_by_symbol(records, count - 1);
        let record = records[count - 1];
        let place = place_of(before, record, before.len() as int);
        lemma_place_of(before, record, before.len() as int);
        vstd::seq_lib::to_multiset_insert(before, place, record);
        assert(records.subrange(0, count) =~= records.subrange(0, count - 1).push(record));
        vstd::seq_lib::to_multiset_build(records.subrange(0, count - 1), record);
    } else {
        assert(records.subrange(0, 0) =~= sorted_by_symbol(records, 0));
    }
}

/// Sorts the records by ascending symbol; records with the same symbol keep
/// their order.
pub fn sort_by_symbol<'data>(records: Vec<UndefinedSymbol<'data>>) -> (sorted: Vec<UndefinedSymbol<'data>>)
    ensures
        sorted@ == sorted_by_symbol(records@, records@.len() as int),
{
    let mut sorted: Vec<UndefinedSymbol<'data>> = Vec::new();
    let mut i: usize = 0;
    while i < records.len()
        invariant
            i <= records@.len(),
            sorted@ == sorted_by_symbol(records@, i as int),
        decreases records@.len() - i,
    {
        let record = records[i];
        let mut place: usize = sorted.len();
        while place > 0 && sorted[place - 1].symbol_id.0 > record.symbol_id.0
            invariant
                place <= sorted@.len(),
                place_of(sorted@, record, sorted@.len() as int) == place_of(sorted@, record, place as int),
            decreases place,
        {
            place = place - 1;
        }
        sorted.insert(place, record);
        i = i + 1;
    }
    sorted
}

/// What has been decided after some of the undefined references.
pub struct Canonical<'data> {
    /// The table of definitions.
    pub definitions: Seq<SymbolId>,
    /// The names met so far, each with the symbol that stands for it, in the
    /// order in which they were first met.
    pub names: Seq<(Seq<u8>, SymbolId)>,
    /// What each symbol that was added marks, in the order of adding.
    pub start_stop_defs: Seq<InternalSymDefInfo>,
    /// The names of the symbols that were added, in the order of adding.
    pub added: Seq<PreHashed<SymbolName<'data>>>,
}

/// The names of `names`.
pub open spec fn keys(names: Seq<(Seq<u8>, SymbolId)>) -> Seq<Seq<u8>> {
    names.map_values(|entry: (Seq<u8>, SymbolId)| entry.0)
}

/// The symbol that stands for `name`, if the name has been met.
pub open spec fn canonical_id(names: Seq<(Seq<u8>, SymbolId)>, name: Seq<u8>) -> Option<SymbolId> {
    let position = position_of(keys(names), name, names.len() as int);
    if position < names.len() {
        Some(names[position].1)
    } else {
        None
    }
}

/// What has been decided after the reference `record`, given what had been
/// before. `num_symbols` is the number of symbols before any was added.
///
/// A record that does not count changes nothing. A name that has been met
/// before gives the record's symbol the definition that stands for the
/// name. A name that is new gets a symbol to stand for it: a new one if the
/// name marks the start or the end of a custom section, and else the
/// record's own symbol.
pub open spec fn after_record<'data>(
    before: Canonical<'data>,
    record: UndefinedSymbol<'data>,
    output_sections: &OutputSections,
    groups: Seq<ResolvedGroup>,
    num_symbols: int,
) -> Canonical<'data> {
    let name = record.name.value.bytes@;
    if record.is_defined(groups) {
        before
    } else {
        match canonical_id(before.names, name) {
            Some(id) => Canonical {
                definitions: before.definitions.update(record.symbol_id@, id),
                names: before.names,
                start_stop_defs: before.start_stop_defs,
                added: before.added,
            },
            None => match start_stop_section(name, output_sections) {
                Some((section, is_start)) => {
                    let id = SymbolId((num_symbols + before.added.len()) as u32);
                    Canonical {
                        definitions: before.definitions.push(id).update(record.symbol_id@, id),
                        names: before.names.push((name, id)),
                        start_stop_defs: before.start_stop_defs.push(
                            start_stop_definition(section, is_start),
                        ),
                        added: before.added.push(record.name),
                    }
                },
                None => Canonical {
                    definitions: before.definitions.update(record.symbol_id@, record.symbol_id),
                    names: before.names.push((name, record.symbol_id)),
                    start_stop_defs: before.start_stop_defs,
                    added: before.added,
                },
            },
        }
    }
}

/// What has been decided after the first `k` of `records`.
pub open spec fn after_records<'data>(
    start: Canonical<'data>,
    records: Seq<UndefinedSymbol<'data>>,
    output_sections: &OutputSections,
    groups: Seq<ResolvedGroup>,
    num_symbols: int,
    k: int,
) -> Canonical<'data>
    decreases k,
{
    if k <= 0 {
        start
    } else {
        after_record(
            after_records(start, records, output_sections, groups, num_symbols, k - 1),
            records[k - 1],
            output_sections,
            groups,
            num_symbols,
        )
    }
}

/// Whether `after` is `before` with a symbol added for each of `added`, and
/// with `definitions` as its table of definitions.
pub open spec fn has_added_symbols<'data>(
    before: &SymbolDb<'data>,
    after: &SymbolDb<'data>,
    added: Seq<PreHashed<SymbolName<'data>>>,
    definitions: Seq<SymbolId>,
) -> bool {
    &&& after.symbol_definitions@ == definitions
    &&& after.symbol_file_ids@ == before.symbol_file_ids@ + Seq::new(
        added.len(),
        |i: int| before.epilogue_file_id,
    )
    &&& after.symbol_value_flags@ == before.symbol_value_flags@ + Seq::new(
        added.len(),
        |i: int| ValueFlags(0x11),
    )
    &&& after.alternative_definitions@ == before.alternative_definitions@ + Seq::new(
        added.len(),
        |i: int| SymbolId(0),
    )
    &&& after.start_stop_symbol_names@ == before.start_stop_symbol_names@ + added
    &&& after.args == before.args
    &&& after.global_names == before.global_names
    &&& after.symbols_with_alternatives == before.symbols_with_alternatives
    &&& after.epilogue_file_id == before.epilogue_file_id
}

/// The symbol that stands for `name` among `names`, if the name has been met.
fn find_canonical<'data>(names: &Vec<(SymbolName<'data>, SymbolId)>, name: &[u8]) -> (r: Option<SymbolId>)
    ensures
        r == canonical_id(names@.map_values(|n: (SymbolName, SymbolId)| (n.0.bytes@, n.1)), name@),
{
    let ghost plain = names@.map_values(|n: (SymbolName, SymbolId)| (n.0.bytes@, n.1));
    let mut k: usize = 0;
    while k < names.len()
        invariant
            k <= names@.len(),
            plain == names@.map_values(|n: (SymbolName, SymbolId)| (n.0.bytes@, n.1)),
            position_of(keys(plain), name@, k as int) == k,
        decreases names@.len() - k,
    {
        if bytes_equal(names[k].0.bytes, name) {
            proof {
                lemma_found(keys(plain), name@, k as int, plain.len() as int);
            }
            return Some(names[k].1);
        }
        k = k + 1;
    }
    None
}

/// Decides what becomes of the references that were left undefined. They
/// are taken by ascending symbol, so that the outcome does not depend on the
/// order in which they were found. See `after_record` for what each comes to.
/// Returns what the symbols that were added mark. Fails, and changes
/// nothing, if there could be more symbols in the end than can be numbered.
pub fn canonicalise_undefined_symbols<'data>(
    undefined_symbols: Vec<UndefinedSymbol<'data>>,
    output_sections: &OutputSections,
    groups: &[ResolvedGroup<'data>],
    symbol_db: &mut SymbolDb<'data>,
) -> (r: Result<Vec<InternalSymDefInfo>, Error>)
    requires
        old(symbol_db).wf(),
        old(symbol_db).has_definitions(),
        output_sections.wf(),
        forall|i: int|
            0 <= i < undefined_symbols@.len() ==> {
                let record = #[trigger] undefined_symbols@[i];
                &&& record.symbol_id@ < old(symbol_db).num_symbols()
                &&& record.ignore_if_loaded matches Some(file_id) ==> has_file(groups@, file_id)
            },
    ensures
        final(symbol_db).wf(),
        final(symbol_db).has_definitions(),
        match r {
            Ok(defs) => {
                let records = sorted_by_symbol(undefined_symbols@, undefined_symbols@.len() as int);
                let end = after_records(
                    Canonical {
                        definitions: old(symbol_db).symbol_definitions@,
                        names: Seq::empty(),
                        start_stop_defs: Seq::empty(),
                        added: Seq::empty(),
                    },
                    records,
                    output_sections,
                    groups@,
                    old(symbol_db).num_symbols(),
                    records.len() as int,
                );
                &&& old(symbol_db).num_symbols() + undefined_symbols@.len() <= u32::MAX
                &&& defs@ == end.start_stop_defs
                &&& has_added_symbols(old(symbol_db), final(symbol_db), end.added, end.definitions)
            },
            Err(e) => {
                &&& e == Error::TooLarge
                &&& old(symbol_db).num_symbols() + undefined_symbols@.len() > u32::MAX
                &&& *final(symbol_db) == *old(symbol_db)
            },
        },
{
    if undefined_symbols.len() > 0xffff_ffff || symbol_db.symbol_file_ids.len() > 0xffff_ffff
        - undefined_symbols.len() {
        return Err(Error::TooLarge);
    }
    let mut custom_start_stop_defs: Vec<InternalSymDefInfo> = Vec::new();
    let mut name_to_id: Vec<(SymbolName<'data>, SymbolId)> = Vec::new();
    let ghost unsorted = undefined_symbols@;
    let undefined_symbols = sort_by_symbol(undefined_symbols);
    let ghost records = undefined_symbols@;
    let ghost n0 = old(symbol_db).num_symbols();
    let ghost start = Canonical {
        definitions: old(symbol_db).symbol_definitions@,
        names: Seq::empty(),
        start_stop_defs: Seq::empty(),
        added: Seq::empty(),
    };
    proof {
        lemma_sorted_by_symbol(unsorted, unsorted.len() as int);
        assert(unsorted.subrange(0, unsorted.len() as int) =~= unsorted);
        assert forall|i: int| 0 <= i < records.len() implies {
            let record = #[trigger] records[i];
            &&& record.symbol_id@ < n0
            &&& record.ignore_if_loaded matches Some(file_id) ==> has_file(groups@, file_id)
        } by {
            let record = records[i];
            assert(records.to_multiset().count(record) > 0) by {
                vstd::seq_lib::to_multiset_contains(records, record);
            }
            assert(unsorted.contains(record)) by {
                vstd::seq_lib::to_multiset_contains(unsorted, record);
            }
            let j = choose|j: int| 0 <= j < unsorted.len() && unsorted[j] == record;
        }
    }
    let mut k: usize = 0;
    while k < undefined_symbols.len()
        invariant
            k <= records.len(),
            records == undefined_symbols@,
            n0 == old(symbol_db).num_symbols(),
            n0 + records.len() <= u32::MAX,
            output_sections.wf(),
            symbol_db.wf(),
            symbol_db.has_definitions(),
            forall|i: int|
                0 <= i < records.len() ==> {
                    let record = #[trigger] records[i];
                    &&& record.symbol_id@ < n0
                    &&& record.ignore_if_loaded matches Some(file_id) ==> has_file(groups@, file_id)
                },
            ({
                let now = after_records(start, records, output_sections, groups@, n0, k as int);
                &&& has_added_symbols(old(symbol_db), symbol_db, now.added, now.definitions)
                &&& custom_start_stop_defs@ == now.start_stop_defs
                &&& name_to_id@.map_values(|n: (SymbolName, SymbolId)| (n.0.bytes@, n.1)) == now.names
                &&& now.added.len() <= k
                &&& symbol_db.num_symbols() == n0 + now.added.len()
                &&& forall|i: int| 0 <= i < now.names.len() ==> (#[trigger] now.names[i]).1@ < n0 + now.added.len()
            }),
        decreases records.len() - k,
    {
        let undefined = undefined_symbols[k];
        let ghost before = after_records(start, records, output_sections, groups@, n0, k as int);
        if undefined.is_ignored(groups) {
            k = k + 1;
            continue ;
        }
        match find_canonical(&name_to_id, undefined.name.value.bytes) {
            Some(symbol_id) => {
                proof {
                    crate::merge_strings::lemma_position_of(
                        keys(before.names),
                        undefined.name.value.bytes@,
                        before.names.len() as int,
                    );
                }
                symbol_db.replace_definition(undefined.symbol_id, symbol_id);
            },
            None => {
                let allocated = allocate_start_stop_symbol_id(
                    undefined.name,
                    symbol_db,
                    &mut custom_start_stop_defs,
                    output_sections,
                );
                let symbol_id = match allocated {
                    Some(id) => id,
                    None => undefined.symbol_id,
                };
                name_to_id.push((undefined.name.value, symbol_id));
                symbol_db.replace_definition(undefined.symbol_id, symbol_id);
                proof {
                    let now = after_records(start, records, output_sections, groups@, n0, k + 1);
                    assert(symbol_db.symbol_file_ids@ =~= old(symbol_db).symbol_file_ids@ + Seq::new(
                        now.added.len(),
                        |i: int| old(symbol_db).epilogue_file_id,
                    ));
                    assert(symbol_db.symbol_value_flags@ =~= old(symbol_db).symbol_value_flags@
                        + Seq::new(now.added.len(), |i: int| ValueFlags(0x11)));
                    assert(symbol_db.alternative_definitions@ =~= old(
                        symbol_db,
                    ).alternative_definitions@ + Seq::new(now.added.len(), |i: int| SymbolId(0)));
                }
            },
        }
        k = k + 1;
    }
    Ok(custom_start_stop_defs)
}

} // verus!
