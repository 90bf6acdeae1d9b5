//! Resolution of symbol references between the files of a link. While it
//! runs, it is decided which members of archives are loaded, and which
//! definition of a symbol is used where there are several.

use crate::classifier::{first_failure, merging, records, resolve_sections, slot_for};
use crate::error::Error;
use crate::hash::PreHashed;
use crate::hash::hash_of;
use crate::input::{
    elf_is_common, elf_is_definition, elf_is_local, elf_is_weak, Group, InputSymbol,
    InternalSymDefInfo, ParsedInput, ParsedInputObject,
};
use crate::merge_strings::UnresolvedMergeStringsFileSection;
use crate::part_id::CustomSectionDetails;
use crate::section_slot::SectionSlot;
use crate::symbol_db::{chain, ends_within, FileId, SymbolDb, SymbolId, SymbolIdRange, SymbolName};
use crate::value_flags::DYNAMIC;
use vstd::prelude::*;

verus! {

/// A file that has not been loaded: a member of an archive to which nothing
/// refers, or a file whose turn has not come.
#[derive(Clone, Copy, Debug)]
pub struct NotLoaded {
    pub symbol_id_range: SymbolIdRange,
}

/// The symbols that the linker defines before any input file.
#[derive(Clone, Copy, Debug)]
pub struct ResolvedPrelude<'data> {
    pub symbol_definitions: &'data [InternalSymDefInfo],
}

/// What resolution keeps of an object that is not a shared object.
#[derive(Debug)]
pub struct NonDynamicResolved<'data> {
    /// The state of each section of the object.
    pub sections: Vec<SectionSlot<'data>>,
    /// The sections of mergeable strings, split into their strings.
    pub merge_strings_sections: Vec<UnresolvedMergeStringsFileSection<'data>>,
    /// The custom sections to which the object contributes.
    pub custom_sections: Vec<CustomSectionDetails<'data>>,
}

/// An object that has been loaded.
#[derive(Debug)]
pub struct ResolvedObject<'data> {
    pub object: &'data ParsedInputObject<'data>,
    pub file_id: FileId,
    pub symbol_id_range: SymbolIdRange,
    /// `None` for a shared object, which contributes no sections.
    pub non_dynamic: Option<NonDynamicResolved<'data>>,
}

/// The symbols that the linker defines after all input files.
#[derive(Clone, Copy, Debug)]
pub struct ResolvedEpilogue {
    pub file_id: FileId,
    pub start_symbol_id: SymbolId,
}

/// An input file after resolution.
#[derive(Debug)]
pub enum ResolvedFile<'data> {
    NotLoaded(NotLoaded),
    Prelude(ResolvedPrelude<'data>),
    Object(ResolvedObject<'data>),
    Epilogue(ResolvedEpilogue),
}

/// A group of input files after resolution.
#[derive(Debug)]
pub struct ResolvedGroup<'data> {
    pub files: Vec<ResolvedFile<'data>>,
}

/// Whether the groups hold the file `file_id`.
pub open spec fn has_file(groups: Seq<ResolvedGroup>, file_id: FileId) -> bool {
    file_id.group < groups.len() && file_id.file < groups[file_id.group as int].files@.len()
}

/// The file `file_id` of the groups.
pub open spec fn file_at<'data>(groups: Seq<ResolvedGroup<'data>>, file_id: FileId) -> ResolvedFile<'data> {
    groups[file_id.group as int].files@[file_id.file as int]
}

impl<'data> ResolvedFile<'data> {
    /// A short description of the file.
    pub open spec fn description(self) -> &'static str {
        match self {
            ResolvedFile::NotLoaded(_) => "<not loaded>",
            ResolvedFile::Prelude(_) => "<prelude>",
            ResolvedFile::Object(_) => "<object>",
            ResolvedFile::Epilogue(_) => "<epilogue>",
        }
    }

    /// A short description of the file.
    pub fn describe(&self) -> (r: &'static str)
        ensures
            r@ == self.description()@,
    {
        match self {
            ResolvedFile::NotLoaded(_) => "<not loaded>",
            ResolvedFile::Prelude(_) => "<prelude>",
            ResolvedFile::Object(_) => "<object>",
            ResolvedFile::Epilogue(_) => "<epilogue>",
        }
    }
}

/// How strongly a symbol is defined.
#[derive(PartialEq, Eq, Clone, Copy, Debug, Structural)]
pub enum SymbolStrength {
    /// The object that holds the symbol was not loaded, so the definition
    /// does not count.
    Undefined,
    /// The object defines the symbol weakly.
    Weak,
    /// The object defines the symbol strongly.
    Strong,
    /// The symbol is a common symbol of the given size. Of several, the
    /// largest is used.
    Common(u64),
}

/// How strongly `file` defines its symbol `symbol_id`.
pub open spec fn strength_in(file: ResolvedFile, symbol_id: SymbolId) -> SymbolStrength {
    match file {
        ResolvedFile::Object(obj) => {
            let index = symbol_id@ - obj.symbol_id_range.start_symbol_id@;
            if 0 <= index < obj.object.symbols@.len() {
                let symbol = obj.object.symbols@[index];
                if elf_is_weak(symbol.st_info) {
                    SymbolStrength::Weak
                } else if elf_is_common(symbol.st_shndx) {
                    SymbolStrength::Common(symbol.st_size)
                } else {
                    SymbolStrength::Strong
                }
            } else {
                SymbolStrength::Undefined
            }
        },
        _ => SymbolStrength::Undefined,
    }
}

/// A definition among which one is selected: the symbol, how strongly it is
/// defined, and whether a shared object defines it.
#[derive(Clone, Copy, Debug, PartialEq, Eq, Structural)]
pub struct Candidate {
    pub symbol_id: SymbolId,
    pub strength: SymbolStrength,
    pub dynamic: bool,
}

impl Candidate {
    /// Whether the candidate is a strong definition outside a shared object.
    pub open spec fn is_strong(self) -> bool {
        !self.dynamic && self.strength == SymbolStrength::Strong
    }

    /// Whether the candidate is a common symbol outside a shared object.
    pub open spec fn is_common(self) -> bool {
        !self.dynamic && self.strength is Common
    }

    /// Whether the candidate's object was loaded.
    pub open spec fn is_defined(self) -> bool {
        self.strength != SymbolStrength::Undefined
    }
}

/// The greatest position below `limit` of a strong candidate, or -1.
pub open spec fn last_strong(candidates: Seq<Candidate>, limit: int) -> int
    decreases limit,
{
    if limit <= 0 {
        -1
    } else if candidates[limit - 1].is_strong() {
        limit - 1
    } else {
        last_strong(candidates, limit - 1)
    }
}

/// The greatest position below `limit` of a candidate whose object was
/// loaded, or -1.
pub open spec fn last_defined(candidates: Seq<Candidate>, limit: int) -> int
    decreases limit,
{
    if limit <= 0 {
        -1
    } else if candidates[limit - 1].is_defined() {
        limit - 1
    } else {
        last_defined(candidates, limit - 1)
    }
}

/// The position of the largest common symbol among the candidates from
/// `from` on, or -1 if there is none. Of several of the same size it is the
/// one with the greatest position.
pub open spec fn largest_common(candidates: Seq<Candidate>, from: int) -> int
    decreases candidates.len() - from,
{
    if from >= candidates.len() || from < 0 {
        -1
    } else {
        let later = largest_common(candidates, from + 1);
        if candidates[from].is_common() && (later == -1 || candidates[from].strength->Common_0
            > candidates[later].strength->Common_0) {
            from
        } else {
            later
        }
    }
}

/// The definition that is used for a symbol with alternatives. `first` is the
/// symbol of the first definition and `first_strength` its strength;
/// `alternatives` are the other definitions, the latest first. They are
/// looked through from the last to the first, so the earliest is preferred.
///
/// A strong first definition is used. Else the earliest strong alternative
/// outside a shared object; else the largest common alternative outside a
/// shared object; else the first definition if its object was loaded; else
/// the earliest alternative whose object was loaded; else the first.
pub open spec fn selected(first: SymbolId, first_strength: SymbolStrength, alternatives: Seq<Candidate>) -> SymbolId {
    let n = alternatives.len() as int;
    if first_strength == SymbolStrength::Strong {
        first
    } else if last_strong(alternatives, n) >= 0 {
        alternatives[last_strong(alternatives, n)].symbol_id
    } else if largest_common(alternatives, 0) >= 0 {
        alternatives[largest_common(alternatives, 0)].symbol_id
    } else if first_strength != SymbolStrength::Undefined {
        first
    } else if last_defined(alternatives, n) >= 0 {
        alternatives[last_defined(alternatives, n)].symbol_id
    } else {
        first
    }
}

/// What is selected is the first definition or one of the alternatives.
pub proof fn lemma_selected_is_candidate(
    first: SymbolId,
    first_strength: SymbolStrength,
    alternatives: Seq<Candidate>,
)
    ensures
        selected(first, first_strength, alternatives) == first || exists|i: int|
            0 <= i < alternatives.len() && (#[trigger] alternatives[i]).symbol_id == selected(
                first,
                first_strength,
                alternatives,
            ),
{
    let n = alternatives.len() as int;
    lemma_last_strong(alternatives, n);
    lemma_last_defined(alternatives, n);
    lemma_largest_common(alternatives, 0);
}

/// `last_strong` finds a strong candidate with none after it, or there is none.
pub proof fn lemma_last_strong(candidates: Seq<Candidate>, limit: int)
    requires
        0 <= limit <= candidates.len(),
    ensures
        -1 <= last_strong(candidates, limit) < limit,
        last_strong(candidates, limit) >= 0 ==> candidates[last_strong(candidates, limit)].is_strong(),
        forall|i: int| last_strong(candidates, limit) < i < limit ==> !(#[trigger] candidates[i]).is_strong(),
    decreases limit,
{
    if limit > 0 && !candidates[limit - 1].is_strong() {
        lemma_last_strong(candidates, limit - 1);
    }
}

/// `last_defined` finds a candidate whose object was loaded with none after
/// it, or there is none.
pub proof fn lemma_last_defined(candidates: Seq<Candidate>, limit: int)
    requires
        0 <= limit <= candidates.len(),
    ensures
        -1 <= last_defined(candidates, limit) < limit,
        last_defined(candidates, limit) >= 0 ==> candidates[last_defined(candidates, limit)].is_defined(),
        forall|i: int|
            last_defined(candidates, limit) < i < limit ==> !(#[trigger] candidates[i]).is_defined(),
    decreases limit,
{
    if limit > 0 && !candidates[limit - 1].is_defined() {
        lemma_last_defined(candidates, limit - 1);
    }
}

/// `largest_common` finds a common candidate that is at least as large as
/// every other from `from` on, and larger than those after it; or there is none.
pub proof fn lemma_largest_common(candidates: Seq<Candidate>, from: int)
    requires
        0 <= from <= candidates.len(),
    ensures
        largest_common(candidates, from) == -1 || from <= largest_common(candidates, from)
            < candidates.len(),
        largest_common(candidates, from) >= 0 ==> candidates[largest_common(candidates, from)].is_common(),
        largest_common(candidates, from) == -1 ==> forall|i: int|
            from <= i < candidates.len() ==> !(#[trigger] candidates[i]).is_common(),
        largest_common(candidates, from) >= 0 ==> forall|i: int|
            from <= i < candidates.len() && (#[trigger] candidates[i]).is_common() ==> {
                let best = candidates[largest_common(candidates, from)].strength->Common_0;
                let size = candidates[i].strength->Common_0;
                size <= best && (i > largest_common(candidates, from) ==> size < best)
            },
    decreases candidates.len() - from,
{
    if from < candidates.len() {
        lemma_largest_common(candidates, from + 1);
    }
}

/// Selects the definition to use among the first definition and its
/// alternatives.
pub fn select_candidate(first: SymbolId, first_strength: SymbolStrength, alternatives: &[Candidate]) -> (r:
    SymbolId)
    ensures
        r == selected(first, first_strength, alternatives@),
{
    if first_strength == SymbolStrength::Strong {
        return first;
    }
    let mut max_common: Option<(u64, SymbolId)> = None;
    let mut remaining: usize = alternatives.len();
    while remaining > 0
        invariant
            remaining <= alternatives@.len(),
            first_strength != SymbolStrength::Strong,
            last_strong(alternatives@, alternatives@.len() as int) == last_strong(
                alternatives@,
                remaining as int,
            ),
            match max_common {
                Some((size, id)) => {
                    let best = largest_common(alternatives@, remaining as int);
                    &&& best >= 0
                    &&& alternatives@[best].strength == SymbolStrength::Common(size)
                    &&& alternatives@[best].symbol_id == id
                },
                None => largest_common(alternatives@, remaining as int) == -1,
            },
        decreases remaining,
    {
        remaining = remaining - 1;
        let alt = &alternatives[remaining];
        if alt.dynamic {
            continue ;
        }
        match alt.strength {
            SymbolStrength::Strong => {
                return alt.symbol_id;
            },
            SymbolStrength::Common(size) => {
                let replace = match max_common {
                    Some((previous_size, _)) => size > previous_size,
                    None => true,
                };
                if replace {
                    max_common = Some((size, alt.symbol_id));
                }
            },
            _ => {},
        }
    }
    if let Some((_, id)) = max_common {
        return id;
    }
    if first_strength != SymbolStrength::Undefined {
        return first;
    }
    let mut remaining: usize = alternatives.len();
    while remaining > 0
        invariant
            remaining <= alternatives@.len(),
            first_strength == SymbolStrength::Undefined,
            last_strong(alternatives@, alternatives@.len() as int) == -1,
            largest_common(alternatives@, 0) == -1,
            last_defined(alternatives@, alternatives@.len() as int) == last_defined(
                alternatives@,
                remaining as int,
            ),
        decreases remaining,
    {
        remaining = remaining - 1;
        let alt = &alternatives[remaining];
        if alt.strength != SymbolStrength::Undefined {
            return alt.symbol_id;
        }
    }
    first
}

impl<'data> SymbolDb<'data> {
    /// Whether the groups hold the file of every symbol.
    pub open spec fn files_known(&self, resolved: Seq<ResolvedGroup>) -> bool {
        forall|i: int|
            0 <= i < self.num_symbols() ==> has_file(resolved, #[trigger] self.symbol_file_ids@[i])
    }

    /// How strongly the symbol is defined, given which files were loaded.
    pub open spec fn strength_of(&self, symbol_id: SymbolId, resolved: Seq<ResolvedGroup>) -> SymbolStrength {
        strength_in(file_at(resolved, self.symbol_file_ids@[symbol_id@]), symbol_id)
    }

    /// The symbol as a definition among which one is selected.
    pub open spec fn candidate(&self, symbol_id: SymbolId, resolved: Seq<ResolvedGroup>) -> Candidate {
        Candidate {
            symbol_id,
            strength: self.strength_of(symbol_id, resolved),
            dynamic: self.symbol_value_flags@[symbol_id@].has(DYNAMIC),
        }
    }

    /// The symbols as definitions among which one is selected.
    pub open spec fn candidates(&self, symbol_ids: Seq<SymbolId>, resolved: Seq<ResolvedGroup>) -> Seq<
        Candidate,
    > {
        Seq::new(symbol_ids.len(), |i: int| self.candidate(symbol_ids[i], resolved))
    }

    /// How strongly the symbol is defined: not at all if its file is not an
    /// object that was loaded; else weakly if the symbol is weak, as a common
    /// symbol of its size if it is one, and strongly otherwise.
    pub fn symbol_strength(&self, symbol_id: SymbolId, resolved: &[ResolvedGroup<'data>]) -> (r:
        SymbolStrength)
        requires
            symbol_id@ < self.num_symbols(),
            has_file(resolved@, self.symbol_file_ids@[symbol_id@]),
        ensures
            r == self.strength_of(symbol_id, resolved@),
    {
        let file_id = self.file_id_for_symbol(symbol_id);
        if let ResolvedFile::Object(obj) = &resolved[file_id.group()].files[file_id.file()] {
            if symbol_id.0 < obj.symbol_id_range.start_symbol_id.0 {
                return SymbolStrength::Undefined;
            }
            let local_index = symbol_id.as_usize() - obj.symbol_id_range.start_symbol_id.as_usize();
            if local_index >= obj.object.symbols.len() {
                return SymbolStrength::Undefined;
            }
            let obj_symbol = &obj.object.symbols[local_index];
            if obj_symbol.is_weak() {
                SymbolStrength::Weak
            } else if obj_symbol.is_common() {
                SymbolStrength::Common(obj_symbol.st_size())
            } else {
                SymbolStrength::Strong
            }
        } else {
            SymbolStrength::Undefined
        }
    }
}

/// Selects which definition of a symbol to use: `symbol_id` is the first
/// definition, `alternatives` are the others, the latest first.
pub fn select_symbol<'data>(
    symbol_db: &SymbolDb<'data>,
    symbol_id: SymbolId,
    alternatives: &[SymbolId],
    resolved: &[ResolvedGroup<'data>],
) -> (r: SymbolId)
    requires
        symbol_db.symbol_value_flags@.len() == symbol_db.num_symbols(),
        symbol_db.files_known(resolved@),
        symbol_id@ < symbol_db.num_symbols(),
        forall|i: int| 0 <= i < alternatives@.len() ==> (#[trigger] alternatives@[i])@ < symbol_db.num_symbols(),
    ensures
        r == selected(
            symbol_id,
            symbol_db.strength_of(symbol_id, resolved@),
            symbol_db.candidates(alternatives@, resolved@),
        ),
{
    let first_strength = symbol_db.symbol_strength(symbol_id, resolved);
    let mut candidates: Vec<Candidate> = Vec::new();
    let mut i: usize = 0;
    while i < alternatives.len()
        invariant
            i <= alternatives@.len(),
            symbol_db.symbol_value_flags@.len() == symbol_db.num_symbols(),
            symbol_db.files_known(resolved@),
            forall|i: int|
                0 <= i < alternatives@.len() ==> (#[trigger] alternatives@[i])@ < symbol_db.num_symbols(),
            candidates@.len() == i,
            forall|k: int|
                0 <= k < i ==> #[trigger] candidates@[k] == symbol_db.candidate(alternatives@[k], resolved@),
        decreases alternatives@.len() - i,
    {
        let alt = alternatives[i];
        candidates.push(
            Candidate {
                symbol_id: alt,
                strength: symbol_db.symbol_strength(alt, resolved),
                dynamic: symbol_db.symbol_value_flags(alt).contains(DYNAMIC),
            },
        );
        i = i + 1;
    }
    assert(candidates@ =~= symbol_db.candidates(alternatives@, resolved@));
    select_candidate(symbol_id, first_strength, candidates.as_slice())
}

/// `definitions` with `to` as the definition of each of the first `limit` of `symbol_ids`.
pub open spec fn replaced(definitions: Seq<SymbolId>, symbol_ids: Seq<SymbolId>, to: SymbolId, limit: int) -> Seq<
    SymbolId,
>
    decreases limit,
{
    if limit <= 0 {
        definitions
    } else {
        replaced(definitions, symbol_ids, to, limit - 1).update(symbol_ids[limit - 1]@, to)
    }
}

/// The alternatives of the first definition `first`: the earlier definitions
/// that the table links it to, the latest first.
pub open spec fn alternatives_of(symbol_db: &SymbolDb, first: SymbolId) -> Seq<SymbolId> {
    chain(
        symbol_db.alternative_definitions@,
        symbol_db.alternative_definitions@[first@],
        symbol_db.num_symbols() as nat,
    )
}

/// The table of definitions after the first `k` symbols with alternatives
/// have been dealt with: for each of them, the selected definition has
/// become the definition of the first definition and of every alternative.
pub open spec fn definitions_after(symbol_db: &SymbolDb, resolved: Seq<ResolvedGroup>, k: int) -> Seq<SymbolId>
    decreases k,
{
    if k <= 0 {
        symbol_db.symbol_definitions@
    } else {
        let before = definitions_after(symbol_db, resolved, k - 1);
        let first = symbol_db.symbols_with_alternatives@[k - 1];
        let alternatives = alternatives_of(symbol_db, first);
        let chosen = selected(
            first,
            symbol_db.strength_of(first, resolved),
            symbol_db.candidates(alternatives, resolved),
        );
        replaced(before.update(first@, chosen), alternatives, chosen, alternatives.len() as int)
    }
}

/// Every symbol of a chain that ends is a symbol of the table.
pub proof fn lemma_chain_in_range(earlier: Seq<SymbolId>, id: SymbolId, steps: nat)
    requires
        ends_within(earlier, id, steps),
    ensures
        forall|i: int|
            0 <= i < chain(earlier, id, steps).len() ==> 0 < (#[trigger] chain(earlier, id, steps)[i])@
                < earlier.len(),
    decreases steps,
{
    if id@ != 0 {
        let rest = chain(earlier, earlier[id@], (steps - 1) as nat);
        lemma_chain_in_range(earlier, earlier[id@], (steps - 1) as nat);
    }
}

/// For each symbol that is defined more than once, decides which definition
/// is used and makes it the definition of all of them. The lists of
/// alternatives are used up by this.
pub fn resolve_alternative_symbol_definitions<'data>(
    symbol_db: &mut SymbolDb<'data>,
    resolved: &[ResolvedGroup<'data>],
) -> (r: Result<(), Error>)
    requires
        old(symbol_db).wf(),
        old(symbol_db).has_definitions(),
        old(symbol_db).files_known(resolved@),
    ensures
        r is Ok,
        final(symbol_db).symbol_definitions@ == definitions_after(
            old(symbol_db),
            resolved@,
            old(symbol_db).symbols_with_alternatives@.len() as int,
        ),
        final(symbol_db).alternative_definitions@.len() == 0,
        final(symbol_db).symbols_with_alternatives@.len() == 0,
        final(symbol_db).args == old(symbol_db).args,
        final(symbol_db).global_names == old(symbol_db).global_names,
        final(symbol_db).symbol_file_ids == old(symbol_db).symbol_file_ids,
        final(symbol_db).symbol_value_flags == old(symbol_db).symbol_value_flags,
        final(symbol_db).start_stop_symbol_names == old(symbol_db).start_stop_symbol_names,
        final(symbol_db).epilogue_file_id == old(symbol_db).epilogue_file_id,
{
    let mut previous_definitions: Vec<SymbolId> = Vec::new();
    core::mem::swap(&mut symbol_db.alternative_definitions, &mut previous_definitions);
    let mut symbols_with_alternatives: Vec<SymbolId> = Vec::new();
    core::mem::swap(&mut symbol_db.symbols_with_alternatives, &mut symbols_with_alternatives);
    let ghost n = old(symbol_db).num_symbols();
    let mut alternatives: Vec<SymbolId> = Vec::new();
    let mut k: usize = 0;
    while k < symbols_with_alternatives.len()
        invariant
            k <= symbols_with_alternatives@.len(),
            old(symbol_db).wf(),
            old(symbol_db).has_definitions(),
            old(symbol_db).files_known(resolved@),
            n == old(symbol_db).num_symbols(),
            previous_definitions@ == old(symbol_db).alternative_definitions@,
            symbols_with_alternatives@ == old(symbol_db).symbols_with_alternatives@,
            symbol_db.symbol_definitions@ == definitions_after(old(symbol_db), resolved@, k as int),
            symbol_db.symbol_definitions@.len() == n,
            symbol_db.alternative_definitions@.len() == 0,
            symbol_db.symbols_with_alternatives@.len() == 0,
            symbol_db.args == old(symbol_db).args,
            symbol_db.global_names == old(symbol_db).global_names,
            symbol_db.symbol_file_ids == old(symbol_db).symbol_file_ids,
            symbol_db.symbol_value_flags == old(symbol_db).symbol_value_flags,
            symbol_db.start_stop_symbol_names == old(symbol_db).start_stop_symbol_names,
            symbol_db.epilogue_file_id == old(symbol_db).epilogue_file_id,
        decreases symbols_with_alternatives@.len() - k,
    {
        let first = symbols_with_alternatives[k];
        alternatives.clear();
        let mut symbol_id = previous_definitions[first.as_usize()];
        let ghost mut steps: nat = n as nat;
        let ghost all = alternatives_of(old(symbol_db), first);
        proof {
            lemma_chain_in_range(previous_definitions@, symbol_id, steps);
        }
        while !symbol_id.is_undefined()
            invariant
                previous_definitions@.len() == n,
                ends_within(previous_definitions@, symbol_id, steps),
                alternatives@ + chain(previous_definitions@, symbol_id, steps) == all,
            decreases steps,
        {
            alternatives.push(symbol_id);
            proof {
                steps = (steps - 1) as nat;
            }
            symbol_id = previous_definitions[symbol_id.as_usize()];
        }
        let chosen = select_symbol(symbol_db, first, alternatives.as_slice(), resolved);
        assert(symbol_db.candidates(all, resolved@) =~= old(symbol_db).candidates(all, resolved@));
        symbol_db.replace_definition(first, chosen);
        let ghost base = symbol_db.symbol_definitions@;
        let mut i: usize = 0;
        while i < alternatives.len()
            invariant
                i <= alternatives@.len(),
                alternatives@ == all,
                forall|j: int| 0 <= j < all.len() ==> 0 < (#[trigger] all[j])@ < n,
                symbol_db.symbol_definitions@.len() == n,
                base.len() == n,
                symbol_db.symbol_definitions@ == replaced(base, all, chosen, i as int),
                symbol_db.alternative_definitions@.len() == 0,
                symbol_db.symbols_with_alternatives@.len() == 0,
                symbol_db.args == old(symbol_db).args,
                symbol_db.global_names == old(symbol_db).global_names,
                symbol_db.symbol_file_ids == old(symbol_db).symbol_file_ids,
                symbol_db.symbol_value_flags == old(symbol_db).symbol_value_flags,
                symbol_db.start_stop_symbol_names == old(symbol_db).start_stop_symbol_names,
                symbol_db.epilogue_file_id == old(symbol_db).epilogue_file_id,
            decreases alternatives@.len() - i,
        {
            let alt = alternatives[i];
            symbol_db.replace_definition(alt, chosen);
            i = i + 1;
        }
        k = k + 1;
    }
    Ok(())
}

/// A reference to a symbol for which no definition has been found, or none
/// that is sure to be loaded.
#[derive(Clone, Copy, Debug)]
pub struct UndefinedSymbol<'data> {
    /// If this is a file and the file has been loaded in the end, the symbol
    /// is defined after all and the record does not count.
    pub ignore_if_loaded: Option<FileId>,
    pub name: PreHashed<SymbolName<'data>>,
    /// The symbol that refers to the name.
    pub symbol_id: SymbolId,
}

/// What follows for one entry of an object's symbol table.
pub struct SymbolOutcome<'data> {
    /// The definition of the symbol afterwards.
    pub definition: SymbolId,
    /// The file that has to be loaded because of the reference, if any.
    pub request: Option<FileId>,
    /// The record of a reference that may stay undefined, if any.
    pub undefined: Option<UndefinedSymbol<'data>>,
    /// Why the entry cannot be resolved, if it cannot.
    pub error: Option<Error>,
}

/// The name of `symbol` with its hash.
pub open spec fn name_of<'data>(symbol: InputSymbol<'data>) -> PreHashed<SymbolName<'data>> {
    PreHashed { value: SymbolName { bytes: symbol.name }, hash: hash_of(symbol.name@) }
}

/// What follows for the entry `symbol` at position `index` of the symbol
/// table of `obj`, whose definition so far is `definition`.
///
/// Nothing, if the symbol is defined already or is the entry 0. An error, if
/// the symbol is local. Else the name is looked up among the global names.
/// If it is known, the symbol that stands for it becomes the definition; if
/// that symbol belongs to another file, a reference that is not weak asks
/// for that file to be loaded, and a weak one is recorded as possibly
/// undefined unless the file is the one with the linker's own symbols. If
/// the name is not known, the reference is recorded as undefined.
pub open spec fn symbol_outcome<'data>(
    symbol_db: &SymbolDb<'data>,
    obj: &ParsedInputObject<'data>,
    index: int,
    symbol: InputSymbol<'data>,
    definition: SymbolId,
) -> SymbolOutcome<'data> {
    let own_id = SymbolId((obj.symbol_id_range.start_symbol_id@ + index) as u32);
    if definition@ != 0 || index == 0 {
        SymbolOutcome { definition, request: None, undefined: None, error: None }
    } else if elf_is_local(symbol.st_info) {
        SymbolOutcome { definition, request: None, undefined: None, error: Some(Error::UndefinedLocalSymbol) }
    } else {
        match symbol_db.global(symbol.name@) {
            Some(symbol_id) => {
                let file_id = symbol_db.symbol_file_ids@[symbol_id@];
                let weak = elf_is_weak(symbol.st_info);
                SymbolOutcome {
                    definition: symbol_id,
                    request: if file_id != obj.file_id && !weak {
                        Some(file_id)
                    } else {
                        None
                    },
                    undefined: if file_id != obj.file_id && weak && file_id != (FileId { group: 0, file: 0 }) {
                        Some(
                            UndefinedSymbol {
                                ignore_if_loaded: Some(file_id),
                                name: name_of(symbol),
                                symbol_id: own_id,
                            },
                        )
                    } else {
                        None
                    },
                    error: None,
                }
            },
            None => SymbolOutcome {
                definition,
                request: None,
                undefined: Some(
                    UndefinedSymbol { ignore_if_loaded: None, name: name_of(symbol), symbol_id: own_id },
                ),
                error: None,
            },
        }
    }
}

/// `list` with `item` appended if there is one.
pub open spec fn with_item<T>(list: Seq<T>, item: Option<T>) -> Seq<T> {
    match item {
        Some(value) => list.push(value),
        None => list,
    }
}

/// Whether the entry can be resolved without contradiction: an entry that
/// refers to a global name does not itself define a function or an object.
pub open spec fn is_resolvable(index: int, symbol: InputSymbol, definition: SymbolId) -> bool {
    definition@ == 0 && index != 0 && !elf_is_local(symbol.st_info) ==> !elf_is_definition(
        symbol.st_info,
        symbol.st_shndx,
        symbol.st_size,
    )
}

/// Resolves one entry of the symbol table of `obj`: see `symbol_outcome`.
/// A file that has to be loaded is appended to `requested_files`, a
/// reference that may stay undefined to `undefined_symbols_out`.
pub fn resolve_symbol<'data>(
    local_symbol_index: usize,
    local_symbol: &InputSymbol<'data>,
    definition_out: &mut SymbolId,
    symbol_db: &SymbolDb<'data>,
    obj: &ParsedInputObject<'data>,
    requested_files: &mut Vec<FileId>,
    undefined_symbols_out: &mut Vec<UndefinedSymbol<'data>>,
) -> (r: Result<(), Error>)
    requires
        symbol_db.wf(),
        local_symbol_index < obj.symbol_id_range.num_symbols,
        obj.symbol_id_range.start_symbol_id@ + obj.symbol_id_range.num_symbols <= u32::MAX,
        is_resolvable(local_symbol_index as int, *local_symbol, *old(definition_out)),
    ensures
        ({
            let outcome = symbol_outcome(
                symbol_db,
                obj,
                local_symbol_index as int,
                *local_symbol,
                *old(definition_out),
            );
            &&& *final(definition_out) == outcome.definition
            &&& final(requested_files)@ == with_item(old(requested_files)@, outcome.request)
            &&& final(undefined_symbols_out)@ == with_item(old(undefined_symbols_out)@, outcome.undefined)
            &&& match outcome.error {
                Some(e) => r == Err::<(), Error>(e),
                None => r is Ok,
            }
        }),
{
    if !definition_out.is_undefined() || local_symbol_index == 0 {
        return Ok(());
    }
    if local_symbol.is_local() {
        return Err(Error::UndefinedLocalSymbol);
    }
    let prehashed_name = SymbolName::prehashed(local_symbol.name);
    match symbol_db.lookup_global(&prehashed_name) {
        Some(symbol_id) => {
            *definition_out = symbol_id;
            proof {
                crate::merge_strings::lemma_position_of(
                    symbol_db.names(),
                    local_symbol.name@,
                    symbol_db.names().len() as int,
                );
            }
            let symbol_file_id = symbol_db.file_id_for_symbol(symbol_id);
            if symbol_file_id != obj.file_id {
                if !local_symbol.is_weak() {
                    requested_files.push(symbol_file_id);
                } else if symbol_file_id != FileId::prelude() {
                    undefined_symbols_out.push(
                        UndefinedSymbol {
                            ignore_if_loaded: Some(symbol_file_id),
                            name: prehashed_name,
                            symbol_id: obj.symbol_id_range.input_to_id(local_symbol_index),
                        },
                    );
                }
            }
        },
        None => {
            undefined_symbols_out.push(
                UndefinedSymbol {
                    ignore_if_loaded: None,
                    name: prehashed_name,
                    symbol_id: obj.symbol_id_range.input_to_id(local_symbol_index),
                },
            );
        },
    }
    Ok(())
}

/// What resolution has come to after some entries of a symbol table.
pub struct SymbolsOutcome<'data> {
    /// The definitions of the object's symbols.
    pub definitions: Seq<SymbolId>,
    /// The files that have to be loaded.
    pub requested: Seq<FileId>,
    /// The references that may stay undefined.
    pub undefined: Seq<UndefinedSymbol<'data>>,
    /// Why resolution stopped, if it did.
    pub error: Option<Error>,
}

/// What resolution has come to after the first `k` entries of the symbol
/// table of `obj`, starting from `start`: each entry is dealt with as
/// `symbol_outcome` says; after an error nothing more happens.
pub open spec fn after_symbols<'data>(
    symbol_db: &SymbolDb<'data>,
    obj: &ParsedInputObject<'data>,
    start: SymbolsOutcome<'data>,
    k: int,
) -> SymbolsOutcome<'data>
    decreases k,
{
    if k <= 0 {
        start
    } else {
        let before = after_symbols(symbol_db, obj, start, k - 1);
        if before.error is Some {
            before
        } else {
            let outcome = symbol_outcome(
                symbol_db,
                obj,
                k - 1,
                obj.symbols@[k - 1],
                before.definitions[k - 1],
            );
            SymbolsOutcome {
                definitions: before.definitions.update(k - 1, outcome.definition),
                requested: with_item(before.requested, outcome.request),
                undefined: with_item(before.undefined, outcome.undefined),
                error: outcome.error,
            }
        }
    }
}

/// Whether each of the first `count` entries of the symbol table of `obj`
/// can be resolved without contradiction, given the definitions so far.
pub open spec fn symbols_resolvable(obj: &ParsedInputObject, definitions: Seq<SymbolId>, count: int) -> bool {
    forall|i: int| 0 <= i < count ==> is_resolvable(i, #[trigger] obj.symbols@[i], definitions[i])
}

/// How many entries of the symbol table of `obj` are dealt with: as many as
/// it has, but no more than there are definitions.
pub open spec fn symbols_to_resolve(obj: &ParsedInputObject, definitions: int) -> int {
    if obj.symbols@.len() <= definitions {
        obj.symbols@.len() as int
    } else {
        definitions
    }
}

/// Whether the symbol table of `obj` fits its range of symbol numbers, and
/// the range ends within the numbers that there are.
pub open spec fn symbols_in_range(obj: &ParsedInputObject) -> bool {
    &&& obj.symbols@.len() <= obj.symbol_id_range.num_symbols
    &&& obj.symbol_id_range.start_symbol_id@ + obj.symbol_id_range.num_symbols <= u32::MAX
}

/// Resolves the entries of the symbol table of a relocatable object, in
/// their order, and stops at the first that cannot be resolved.
pub fn resolve_symbols<'data>(
    obj: &ParsedInputObject<'data>,
    symbol_db: &SymbolDb<'data>,
    requested_files: &mut Vec<FileId>,
    undefined_symbols_out: &mut Vec<UndefinedSymbol<'data>>,
    definitions_out: &mut [SymbolId],
) -> (r: Result<(), Error>)
    requires
        symbol_db.wf(),
        symbols_in_range(obj),
        symbols_resolvable(
            obj,
            old(definitions_out)@,
            symbols_to_resolve(obj, old(definitions_out)@.len() as int),
        ),
    ensures
        ({
            let outcome = after_symbols(
                symbol_db,
                obj,
                SymbolsOutcome {
                    definitions: old(definitions_out)@,
                    requested: old(requested_files)@,
                    undefined: old(undefined_symbols_out)@,
                    error: None,
                },
                symbols_to_resolve(obj, old(definitions_out)@.len() as int),
            );
            &&& final(definitions_out)@ == outcome.definitions
            &&& final(requested_files)@ == outcome.requested
            &&& final(undefined_symbols_out)@ == outcome.undefined
            &&& match outcome.error {
                Some(e) => r == Err::<(), Error>(e),
                None => r is Ok,
            }
        }),
{
    resolve_symbol_table(obj, symbol_db, requested_files, undefined_symbols_out, definitions_out)
}

/// Resolves the entries of the symbol table of a shared object, in their
/// order, and stops at the first that cannot be resolved.
pub fn resolve_dynamic_symbols<'data>(
    obj: &ParsedInputObject<'data>,
    symbol_db: &SymbolDb<'data>,
    requested_files: &mut Vec<FileId>,
    undefined_symbols_out: &mut Vec<UndefinedSymbol<'data>>,
    definitions_out: &mut [SymbolId],
) -> (r: Result<(), Error>)
    requires
        symbol_db.wf(),
        symbols_in_range(obj),
        symbols_resolvable(
            obj,
            old(definitions_out)@,
            symbols_to_resolve(obj, old(definitions_out)@.len() as int),
        ),
    ensures
        ({
            let outcome = after_symbols(
                symbol_db,
                obj,
                SymbolsOutcome {
                    definitions: old(definitions_out)@,
                    requested: old(requested_files)@,
                    undefined: old(undefined_symbols_out)@,
                    error: None,
                },
                symbols_to_resolve(obj, old(definitions_out)@.len() as int),
            );
            &&& final(definitions_out)@ == outcome.definitions
            &&& final(requested_files)@ == outcome.requested
            &&& final(undefined_symbols_out)@ == outcome.undefined
            &&& match outcome.error {
                Some(e) => r == Err::<(), Error>(e),
                None => r is Ok,
            }
        }),
{
    resolve_symbol_table(obj, symbol_db, requested_files, undefined_symbols_out, definitions_out)
}

/// Resolves the entries of the symbol table of `obj`, each with the
/// definition at its position, and stops at the first that cannot be resolved.
fn resolve_symbol_table<'data>(
    obj: &ParsedInputObject<'data>,
    symbol_db: &SymbolDb<'data>,
    requested_files: &mut Vec<FileId>,
    undefined_symbols_out: &mut Vec<UndefinedSymbol<'data>>,
    definitions_out: &mut [SymbolId],
) -> (r: Result<(), Error>)
    requires
        symbol_db.wf(),
        symbols_in_range(obj),
        symbols_resolvable(
            obj,
            old(definitions_out)@,
            symbols_to_resolve(obj, old(definitions_out)@.len() as int),
        ),
    ensures
        ({
            let outcome = after_symbols(
                symbol_db,
                obj,
                SymbolsOutcome {
                    definitions: old(definitions_out)@,
                    requested: old(requested_files)@,
                    undefined: old(undefined_symbols_out)@,
                    error: None,
                },
                symbols_to_resolve(obj, old(definitions_out)@.len() as int),
            );
            &&& final(definitions_out)@ == outcome.definitions
            &&& final(requested_files)@ == outcome.requested
            &&& final(undefined_symbols_out)@ == outcome.undefined
            &&& match outcome.error {
                Some(e) => r == Err::<(), Error>(e),
                None => r is Ok,
            }
        }),
{
    let count = if obj.symbols.len() <= definitions_out.len() {
        obj.symbols.len()
    } else {
        definitions_out.len()
    };
    let ghost start = SymbolsOutcome {
        definitions: definitions_out@,
        requested: requested_files@,
        undefined: undefined_symbols_out@,
        error: None,
    };
    let mut i: usize = 0;
    while i < count
        invariant
            i <= count,
            start == (SymbolsOutcome {
                definitions: old(definitions_out)@,
                requested: old(requested_files)@,
                undefined: old(undefined_symbols_out)@,
                error: None,
            }),
            count == symbols_to_resolve(obj, start.definitions.len() as int),
            symbol_db.wf(),
            symbols_in_range(obj),
            symbols_resolvable(obj, start.definitions, count as int),
            definitions_out@.len() == start.definitions.len(),
            forall|j: int| i <= j < definitions_out@.len() ==> definitions_out@[j] == start.definitions[j],
            after_symbols(symbol_db, obj, start, i as int) == (SymbolsOutcome {
                definitions: definitions_out@,
                requested: requested_files@,
                undefined: undefined_symbols_out@,
                error: None,
            }),
        decreases count - i,
    {
        let r = resolve_symbol(
            i,
            &obj.symbols[i],
            &mut definitions_out[i],
            symbol_db,
            obj,
            requested_files,
            undefined_symbols_out,
        );
        if r.is_err() {
            proof {
                lemma_after_error(symbol_db, obj, start, i + 1, count as int);
            }
            return r;
        }
        i = i + 1;
    }
    Ok(())
}

/// Resolution changes definitions in their places: there are as many
/// afterwards as before.
pub proof fn lemma_after_symbols_len<'data>(
    symbol_db: &SymbolDb<'data>,
    obj: &ParsedInputObject<'data>,
    start: SymbolsOutcome<'data>,
    k: int,
)
    requires
        k <= start.definitions.len(),
    ensures
        after_symbols(symbol_db, obj, start, k).definitions.len() == start.definitions.len(),
    decreases k,
{
    if k > 0 {
        lemma_after_symbols_len(symbol_db, obj, start, k - 1);
    }
}

/// Every file that is asked for is the file of a symbol of the table.
pub proof fn lemma_requested_known<'data>(
    symbol_db: &SymbolDb<'data>,
    obj: &ParsedInputObject<'data>,
    start: SymbolsOutcome<'data>,
    k: int,
    known: spec_fn(FileId) -> bool,
)
    requires
        symbol_db.wf(),
        forall|i: int| 0 <= i < symbol_db.num_symbols() ==> known(#[trigger] symbol_db.symbol_file_ids@[i]),
        forall|i: int| 0 <= i < start.requested.len() ==> known(#[trigger] start.requested[i]),
    ensures
        forall|i: int|
            0 <= i < after_symbols(symbol_db, obj, start, k).requested.len() ==> known(
                #[trigger] after_symbols(symbol_db, obj, start, k).requested[i],
            ),
    decreases k,
{
    if k > 0 {
        lemma_requested_known(symbol_db, obj, start, k - 1, known);
        let before = after_symbols(symbol_db, obj, start, k - 1);
        if before.error is None {
            let symbol = obj.symbols@[k - 1];
            crate::merge_strings::lemma_position_of(
                symbol_db.names(),
                symbol.name@,
                symbol_db.names().len() as int,
            );
        }
    }
}

/// Where `allowed` holds of every definition at the start and of every
/// symbol that stands for a global name, it holds of every definition afterwards.
pub proof fn lemma_definitions_allowed<'data>(
    symbol_db: &SymbolDb<'data>,
    obj: &ParsedInputObject<'data>,
    start: SymbolsOutcome<'data>,
    k: int,
    allowed: spec_fn(SymbolId) -> bool,
)
    requires
        0 <= k <= start.definitions.len(),
        forall|i: int| 0 <= i < start.definitions.len() ==> allowed(#[trigger] start.definitions[i]),
        forall|g: int|
            0 <= g < symbol_db.global_names@.len() ==> allowed((#[trigger] symbol_db.global_names@[g]).symbol_id),
    ensures
        after_symbols(symbol_db, obj, start, k).definitions.len() == start.definitions.len(),
        forall|i: int|
            0 <= i < start.definitions.len() ==> allowed(
                #[trigger] after_symbols(symbol_db, obj, start, k).definitions[i],
            ),
    decreases k,
{
    if k > 0 {
        lemma_definitions_allowed(symbol_db, obj, start, k - 1, allowed);
        let before = after_symbols(symbol_db, obj, start, k - 1);
        if before.error is None {
            let symbol = obj.symbols@[k - 1];
            crate::merge_strings::lemma_position_of(
                symbol_db.names(),
                symbol.name@,
                symbol_db.names().len() as int,
            );
        }
    }
}

/// Where `allowed` holds of every reference at the start and of every
/// reference that an entry of the symbol table may leave undefined, it holds
/// of every reference afterwards.
pub proof fn lemma_undefined_allowed<'data>(
    symbol_db: &SymbolDb<'data>,
    obj: &ParsedInputObject<'data>,
    start: SymbolsOutcome<'data>,
    k: int,
    allowed: spec_fn(UndefinedSymbol<'data>) -> bool,
)
    requires
        forall|i: int| 0 <= i < start.undefined.len() ==> allowed(#[trigger] start.undefined[i]),
        forall|i: int, definition: SymbolId|
            0 <= i < k ==> ((#[trigger] symbol_outcome(
                symbol_db,
                obj,
                i,
                obj.symbols@[i],
                definition,
            )).undefined matches Some(record) ==> allowed(record)),
    ensures
        forall|i: int|
            0 <= i < after_symbols(symbol_db, obj, start, k).undefined.len() ==> allowed(
                #[trigger] after_symbols(symbol_db, obj, start, k).undefined[i],
            ),
    decreases k,
{
    if k > 0 {
        lemma_undefined_allowed(symbol_db, obj, start, k - 1, allowed);
    }
}

/// Whether the two tables agree in all that resolving the symbols of an
/// object reads: the global names, the files of the symbols, and the arguments.
pub open spec fn same_lookup<'data>(a: &SymbolDb<'data>, b: &SymbolDb<'data>) -> bool {
    &&& a.global_names == b.global_names
    &&& a.symbol_file_ids == b.symbol_file_ids
    &&& a.args == b.args
}

/// What resolving the symbols of an object comes to depends on the table of
/// symbols only in what `same_lookup` compares.
pub proof fn lemma_after_symbols_same<'data>(
    a: &SymbolDb<'data>,
    b: &SymbolDb<'data>,
    obj: &ParsedInputObject<'data>,
    start: SymbolsOutcome<'data>,
    k: int,
)
    requires
        same_lookup(a, b),
    ensures
        after_symbols(a, obj, start, k) == after_symbols(b, obj, start, k),
    decreases k,
{
    if k > 0 {
        lemma_after_symbols_same(a, b, obj, start, k - 1);
    }
}

/// Once resolution has stopped with an error, further entries change nothing.
pub proof fn lemma_after_error<'data>(
    symbol_db: &SymbolDb<'data>,
    obj: &ParsedInputObject<'data>,
    start: SymbolsOutcome<'data>,
    k: int,
    later: int,
)
    requires
        k <= later,
        after_symbols(symbol_db, obj, start, k).error is Some,
    ensures
        after_symbols(symbol_db, obj, start, later) == after_symbols(symbol_db, obj, start, k),
    decreases later - k,
{
    if k < later {
        lemma_after_error(symbol_db, obj, start, k, later - 1);
    }
}

impl<'data> NonDynamicResolved<'data> {
    /// Whether this is what classifying the sections of `obj` gives: a slot
    /// for each section, the records of the custom sections, and the sections
    /// of mergeable strings split into their strings.
    pub open spec fn classifies(&self, obj: &ParsedInputObject<'data>, strip_debug: bool) -> bool {
        let sections = obj.sections@;
        let merged = merging(sections, sections.len() as int);
        &&& self.sections@.len() == sections.len()
        &&& forall|i: int|
            0 <= i < sections.len() ==> #[trigger] self.sections@[i] == slot_for(sections[i], i, strip_debug)
        &&& self.custom_sections@ == records(sections, strip_debug, sections.len() as int)
        &&& self.merge_strings_sections@.len() == merged.len()
        &&& forall|k: int|
            0 <= k < merged.len() ==> {
                let section = #[trigger] self.merge_strings_sections@[k];
                &&& section.section_index == merged[k]
                &&& section.holds(sections[merged[k]].data@)
            }
    }
}

/// What processing the object `obj` comes to, starting from `start`: if it
/// is not a shared object and one of its sections cannot be dealt with,
/// nothing but the error; else what resolving its symbols comes to.
pub open spec fn object_outcome<'data>(
    symbol_db: &SymbolDb<'data>,
    obj: &ParsedInputObject<'data>,
    start: SymbolsOutcome<'data>,
) -> SymbolsOutcome<'data> {
    if !obj.dynamic && first_failure(obj.sections@, obj.sections@.len() as int) < obj.sections@.len() {
        SymbolsOutcome {
            definitions: start.definitions,
            requested: start.requested,
            undefined: start.undefined,
            error: Some(Error::UnterminatedString),
        }
    } else {
        after_symbols(symbol_db, obj, start, symbols_to_resolve(obj, start.definitions.len() as int))
    }
}

impl<'data> ResolvedObject<'data> {
    /// Whether this is the object `obj`, loaded.
    pub open spec fn is_loaded_from(&self, obj: &'data ParsedInputObject<'data>, strip_debug: bool) -> bool {
        &&& self.object == obj
        &&& self.file_id == obj.file_id
        &&& self.symbol_id_range == obj.symbol_id_range
        &&& match self.non_dynamic {
            Some(non_dynamic) => !obj.dynamic && non_dynamic.classifies(obj, strip_debug),
            None => obj.dynamic,
        }
    }

    /// Loads the object `obj`: classifies its sections, unless it is a
    /// shared object, and resolves its symbols.
    pub fn new(
        obj: &'data ParsedInputObject<'data>,
        symbol_db: &SymbolDb<'data>,
        definitions_out: &mut [SymbolId],
        requested_files: &mut Vec<FileId>,
        undefined_symbols_out: &mut Vec<UndefinedSymbol<'data>>,
    ) -> (r: Result<Self, Error>)
        requires
            symbol_db.wf(),
            symbols_in_range(obj),
            symbols_resolvable(
                obj,
                old(definitions_out)@,
                symbols_to_resolve(obj, old(definitions_out)@.len() as int),
            ),
        ensures
            ({
                let outcome = object_outcome(
                    symbol_db,
                    obj,
                    SymbolsOutcome {
                        definitions: old(definitions_out)@,
                        requested: old(requested_files)@,
                        undefined: old(undefined_symbols_out)@,
                        error: None,
                    },
                );
                &&& final(definitions_out)@ == outcome.definitions
                &&& final(requested_files)@ == outcome.requested
                &&& final(undefined_symbols_out)@ == outcome.undefined
                &&& match r {
                    Ok(resolved) => outcome.error is None && resolved.is_loaded_from(
                        obj,
                        symbol_db.args.strip_debug,
                    ),
                    Err(e) => outcome.error == Some(e),
                }
            }),
    {
        let non_dynamic = if obj.is_dynamic() {
            None
        } else {
            match classify(obj, &symbol_db.args) {
                Ok(non_dynamic) => Some(non_dynamic),
                Err(e) => {
                    return Err(e);
                },
            }
        };
        let resolved = if obj.is_dynamic() {
            resolve_dynamic_symbols(obj, symbol_db, requested_files, undefined_symbols_out, definitions_out)
        } else {
            resolve_symbols(obj, symbol_db, requested_files, undefined_symbols_out, definitions_out)
        };
        match resolved {
            Ok(()) => Ok(
                ResolvedObject {
                    object: obj,
                    file_id: obj.file_id,
                    symbol_id_range: obj.symbol_id_range,
                    non_dynamic,
                },
            ),
            Err(e) => Err(e),
        }
    }
}

/// Classifies the sections of an object that is not a shared object.
fn classify<'data>(obj: &ParsedInputObject<'data>, args: &crate::symbol_db::Args) -> (r: Result<
    NonDynamicResolved<'data>,
    Error,
>)
    ensures
        match r {
            Ok(non_dynamic) => first_failure(obj.sections@, obj.sections@.len() as int)
                == obj.sections@.len() && non_dynamic.classifies(obj, args.strip_debug),
            Err(e) => first_failure(obj.sections@, obj.sections@.len() as int) < obj.sections@.len() && e
                == Error::UnterminatedString,
        },
{
    let mut custom_sections: Vec<CustomSectionDetails<'data>> = Vec::new();
    let mut merge_strings_sections: Vec<UnresolvedMergeStringsFileSection<'data>> = Vec::new();
    let sections = match resolve_sections(obj, &mut custom_sections, &mut merge_strings_sections, args) {
        Ok(sections) => sections,
        Err(e) => {
            return Err(e);
        },
    };
    Ok(NonDynamicResolved { sections, merge_strings_sections, custom_sections })
}

/// Whether the groups hold the file `file_id`.
pub open spec fn has_input(groups: Seq<Group>, file_id: FileId) -> bool {
    file_id.group < groups.len() && file_id.file < groups[file_id.group as int].files@.len()
}

/// The file `file_id` of the groups.
pub open spec fn input_at<'data>(groups: Seq<Group<'data>>, file_id: FileId) -> ParsedInput<'data> {
    groups[file_id.group as int].files@[file_id.file as int]
}

/// What processing the file `file_id` comes to, starting from `start`:
/// nothing, unless the file is an object.
pub open spec fn file_outcome<'data>(
    symbol_db: &SymbolDb<'data>,
    groups: Seq<Group<'data>>,
    file_id: FileId,
    start: SymbolsOutcome<'data>,
) -> SymbolsOutcome<'data> {
    match input_at(groups, file_id) {
        ParsedInput::Object(obj) => object_outcome(symbol_db, &obj, start),
        _ => start,
    }
}

/// Whether the file `file_id`, if it is an object, can be processed with
/// the given definitions of its symbols.
pub open spec fn file_processable(groups: Seq<Group>, file_id: FileId, definitions: Seq<SymbolId>) -> bool {
    input_at(groups, file_id) matches ParsedInput::Object(obj) ==> {
        &&& symbols_in_range(&obj)
        &&& symbols_resolvable(&obj, definitions, symbols_to_resolve(&obj, definitions.len() as int))
    }
}

/// Processes the file `file_id` if it is an object: loads it and, if that
/// succeeds, appends it to `loaded`.
pub fn process_object<'data>(
    file_id: FileId,
    definitions_out: &mut [SymbolId],
    groups: &'data [Group<'data>],
    symbol_db: &SymbolDb<'data>,
    requested_files: &mut Vec<FileId>,
    undefined_symbols_out: &mut Vec<UndefinedSymbol<'data>>,
    loaded: &mut Vec<ResolvedObject<'data>>,
) -> (r: Result<(), Error>)
    requires
        symbol_db.wf(),
        has_input(groups@, file_id),
        file_processable(groups@, file_id, old(definitions_out)@),
    ensures
        ({
            let outcome = file_outcome(
                symbol_db,
                groups@,
                file_id,
                SymbolsOutcome {
                    definitions: old(definitions_out)@,
                    requested: old(requested_files)@,
                    undefined: old(undefined_symbols_out)@,
                    error: None,
                },
            );
            &&& final(definitions_out)@ == outcome.definitions
            &&& final(requested_files)@ == outcome.requested
            &&& final(undefined_symbols_out)@ == outcome.undefined
            &&& match outcome.error {
                Some(e) => r == Err::<(), Error>(e) && final(loaded)@ == old(loaded)@,
                None => {
                    &&& r is Ok
                    &&& match input_at(groups@, file_id) {
                        ParsedInput::Object(obj) => {
                            &&& final(loaded)@.len() == old(loaded)@.len() + 1
                            &&& final(loaded)@.drop_last() == old(loaded)@
                            &&& final(loaded)@.last().is_loaded_from(
                                &groups@[file_id.group as int].files@[file_id.file as int]->Object_0,
                                symbol_db.args.strip_debug,
                            )
                        },
                        _ => final(loaded)@ == old(loaded)@,
                    }
                },
            }
        }),
{
    if let ParsedInput::Object(obj) = &groups[file_id.group()].files[file_id.file()] {
        match ResolvedObject::new(obj, symbol_db, definitions_out, requested_files, undefined_symbols_out) {
            Ok(res) => {
                loaded.push(res);
            },
            Err(e) => {
                return Err(e);
            },
        }
    }
    Ok(())
}

} // verus!
