//! Tests whether the files of a link and its table of symbols belong
//! together, which is what resolution asks of them.

use crate::driver::{inputs_fit, own_definitions, ranges_apart};
use crate::input::{Group, ParsedInput, ParsedInputObject};
use crate::outputs::can_finish;
use crate::resolution::{
    file_processable, has_file, has_input, input_at, is_resolvable, symbols_in_range,
    symbols_resolvable, symbols_to_resolve, ResolvedFile, ResolvedGroup, UndefinedSymbol,
};
use crate::section_ids::records_have_parts;
use crate::section_slot::SectionSlot;
use crate::symbol_db::{ends_within, FileId, SymbolDb, SymbolId};
use vstd::prelude::*;

verus! {

impl<'data> SymbolDb<'data> {
    /// Whether following the earlier definitions from `id` ends with the
    /// undefined symbol.
    fn chain_ends(&self, id: SymbolId) -> (r: bool)
        requires
            self.alternative_definitions@.len() == self.num_symbols(),
            id@ < self.num_symbols(),
            forall|i: int|
                0 <= i < self.num_symbols() ==> (#[trigger] self.alternative_definitions@[i])@
                    < self.num_symbols(),
        ensures
            r == ends_within(self.alternative_definitions@, id, self.num_symbols() as nat),
    {
        let n = self.alternative_definitions.len();
        let mut current = id;
        let mut steps: usize = 0;
        while !current.is_undefined() && steps < n
            invariant
                n == self.alternative_definitions@.len(),
                n == self.num_symbols(),
                steps <= n,
                current@ < n,
                forall|i: int| 0 <= i < n ==> (#[trigger] self.alternative_definitions@[i])@ < n,
                ends_within(self.alternative_definitions@, id, n as nat) == ends_within(
                    self.alternative_definitions@,
                    current,
                    (n - steps) as nat,
                ),
            decreases n - steps,
        {
            current = self.alternative_definitions[current.as_usize()];
            steps = steps + 1;
        }
        current.is_undefined()
    }

    /// Whether the tables are well-formed: see `wf`.
    pub fn check_wf(&self) -> (r: bool)
        ensures
            r == self.wf(),
    {
        let n = self.symbol_file_ids.len();
        if n > u32::MAX as usize || self.symbol_value_flags.len() != n || self.alternative_definitions.len()
            != n {
            return false;
        }
        let mut g: usize = 0;
        while g < self.global_names.len()
            invariant
                g <= self.global_names@.len(),
                n == self.num_symbols(),
                forall|i: int| 0 <= i < g ==> (#[trigger] self.global_names@[i]).symbol_id@ < n,
            decreases self.global_names@.len() - g,
        {
            if self.global_names[g].symbol_id.as_usize() >= n {
                return false;
            }
            g = g + 1;
        }
        let mut i: usize = 0;
        while i < n
            invariant
                i <= n,
                n == self.num_symbols(),
                n == self.alternative_definitions@.len(),
                forall|k: int| 0 <= k < i ==> (#[trigger] self.alternative_definitions@[k])@ < n,
            decreases n - i,
        {
            if self.alternative_definitions[i].as_usize() >= n {
                return false;
            }
            i = i + 1;
        }
        let mut k: usize = 0;
        while k < self.symbols_with_alternatives.len()
            invariant
                k <= self.symbols_with_alternatives@.len(),
                n == self.num_symbols(),
                n == self.alternative_definitions@.len(),
                forall|i: int| 0 <= i < n ==> (#[trigger] self.alternative_definitions@[i])@ < n,
                forall|j: int|
                    0 <= j < k ==> {
                        let first = #[trigger] self.symbols_with_alternatives@[j];
                        &&& first@ < n
                        &&& ends_within(
                            self.alternative_definitions@,
                            self.alternative_definitions@[first@],
                            n as nat,
                        )
                    },
            decreases self.symbols_with_alternatives@.len() - k,
        {
            let first = self.symbols_with_alternatives[k];
            if first.as_usize() >= n {
                return false;
            }
            if !self.chain_ends(self.alternative_definitions[first.as_usize()]) {
                return false;
            }
            k = k + 1;
        }
        true
    }

    /// Whether the table of definitions is in place: see `has_definitions`.
    pub fn check_definitions(&self) -> (r: bool)
        ensures
            r == self.has_definitions(),
    {
        let n = self.symbol_file_ids.len();
        if self.symbol_definitions.len() != n {
            return false;
        }
        let mut i: usize = 0;
        while i < n
            invariant
                i <= n,
                n == self.num_symbols(),
                n == self.symbol_definitions@.len(),
                forall|k: int| 0 <= k < i ==> (#[trigger] self.symbol_definitions@[k])@ < n,
            decreases n - i,
        {
            if self.symbol_definitions[i].as_usize() >= n {
                return false;
            }
            i = i + 1;
        }
        true
    }
}

/// Whether the groups hold the file `file_id`.
pub fn holds_file(groups: &[Group], file_id: FileId) -> (r: bool)
    ensures
        r == has_input(groups@, file_id),
{
    file_id.group < groups.len() && file_id.file < groups[file_id.group].files.len()
}

/// The places of all files of the groups.
pub fn file_ids(groups: &[Group]) -> (ids: Vec<FileId>)
    ensures
        forall|file_id: FileId| #[trigger] has_input(groups@, file_id) ==> ids@.contains(file_id),
        forall|i: int| 0 <= i < ids@.len() ==> has_input(groups@, #[trigger] ids@[i]),
{
    let mut ids: Vec<FileId> = Vec::new();
    let mut g: usize = 0;
    while g < groups.len()
        invariant
            g <= groups@.len(),
            forall|file_id: FileId| #[trigger]
                has_input(groups@, file_id) && file_id.group < g ==> ids@.contains(file_id),
            forall|i: int| 0 <= i < ids@.len() ==> has_input(groups@, #[trigger] ids@[i]),
        decreases groups@.len() - g,
    {
        let mut f: usize = 0;
        while f < groups[g].files.len()
            invariant
                g < groups@.len(),
                f <= groups@[g as int].files@.len(),
                forall|file_id: FileId| #[trigger]
                    has_input(groups@, file_id) && (file_id.group < g || (file_id.group == g && file_id.file
                        < f)) ==> ids@.contains(file_id),
                forall|i: int| 0 <= i < ids@.len() ==> has_input(groups@, #[trigger] ids@[i]),
            decreases groups@[g as int].files@.len() - f,
        {
            let ghost before = ids@;
            let new_id = FileId { group: g, file: f };
            ids.push(new_id);
            proof {
                assert(ids@[before.len() as int] == new_id);
                assert forall|file_id: FileId| #[trigger]
                    has_input(groups@, file_id) && (file_id.group < g || (file_id.group == g
                        && file_id.file < f + 1)) implies ids@.contains(file_id) by {
                    if file_id == new_id {
                    } else {
                        assert(before.contains(file_id));
                        let i = choose|i: int| 0 <= i < before.len() && before[i] == file_id;
                        assert(ids@[i] == file_id);
                    }
                }
            }
            f = f + 1;
        }
        g = g + 1;
    }
    ids
}

/// Whether the object `obj`, found at the place `file_id`, knows its place,
/// has its symbols within the table `definitions`, and can be processed
/// with the definitions that its symbols have there.
pub open spec fn object_fits(obj: &ParsedInputObject, file_id: FileId, definitions: Seq<SymbolId>) -> bool {
    &&& obj.file_id == file_id
    &&& obj.symbol_id_range.start_symbol_id@ + obj.symbol_id_range.num_symbols <= definitions.len()
    &&& symbols_in_range(obj)
    &&& symbols_resolvable(
        obj,
        own_definitions(definitions, obj),
        symbols_to_resolve(obj, obj.symbol_id_range.num_symbols as int),
    )
}

/// Tests `object_fits`.
pub fn check_object(obj: &ParsedInputObject, file_id: FileId, definitions: &Vec<SymbolId>) -> (r: bool)
    ensures
        r == object_fits(obj, file_id, definitions@),
{
    let start = obj.symbol_id_range.start_symbol_id.as_usize();
    let num_symbols = obj.symbol_id_range.num_symbols;
    if obj.file_id.group != file_id.group || obj.file_id.file != file_id.file {
        return false;
    }
    if num_symbols > definitions.len() || start > definitions.len() - num_symbols {
        return false;
    }
    if obj.symbols.len() > num_symbols || start + num_symbols > u32::MAX as usize {
        return false;
    }
    let ghost own = own_definitions(definitions@, obj);
    let mut i: usize = 0;
    while i < obj.symbols.len()
        invariant
            i <= obj.symbols@.len(),
            obj.symbols@.len() <= num_symbols,
            start == obj.symbol_id_range.start_symbol_id@,
            num_symbols == obj.symbol_id_range.num_symbols,
            start + num_symbols <= definitions@.len(),
            definitions@.len() <= usize::MAX,
            own == own_definitions(definitions@, obj),
            forall|k: int| 0 <= k < i ==> is_resolvable(k, #[trigger] obj.symbols@[k], own[k]),
        decreases obj.symbols@.len() - i,
    {
        let symbol = &obj.symbols[i];
        let definition = definitions[start + i];
        assert(own[i as int] == definition);
        if definition.is_undefined() && i != 0 && !symbol.is_local() && symbol.is_definition() {
            return false;
        }
        i = i + 1;
    }
    true
}

/// Whether the symbols of the files `a` and `b`, if they are two objects,
/// have different numbers.
pub open spec fn pair_apart(groups: Seq<Group>, a: FileId, b: FileId) -> bool {
    a != b && input_at(groups, a) is Object && input_at(groups, b) is Object ==> ranges_apart(
        &input_at(groups, a)->Object_0,
        &input_at(groups, b)->Object_0,
    )
}

/// Whether the file `a` is an object whose symbols have numbers that the
/// symbols of no other object have.
fn is_apart(groups: &[Group], ids: &Vec<FileId>, a: FileId) -> (r: bool)
    requires
        has_input(groups@, a),
        forall|i: int| 0 <= i < ids@.len() ==> has_input(groups@, #[trigger] ids@[i]),
        forall|i: int|
            0 <= i < ids@.len() && input_at(groups@, #[trigger] ids@[i]) is Object ==> {
                let obj = input_at(groups@, ids@[i])->Object_0;
                obj.symbol_id_range.start_symbol_id@ + obj.symbol_id_range.num_symbols <= usize::MAX
            },
        ids@.contains(a),
    ensures
        r == forall|i: int| 0 <= i < ids@.len() ==> pair_apart(groups@, a, #[trigger] ids@[i]),
{
    let ParsedInput::Object(first) = &groups[a.group].files[a.file] else {
        return true;
    };
    let first_start = first.symbol_id_range.start_symbol_id.as_usize();
    let first_end = first_start + first.symbol_id_range.num_symbols;
    let mut b: usize = 0;
    while b < ids.len()
        invariant
            b <= ids@.len(),
            has_input(groups@, a),
            input_at(groups@, a) == ParsedInput::Object(*first),
            first_start == first.symbol_id_range.start_symbol_id@,
            first_end == first_start + first.symbol_id_range.num_symbols,
            forall|i: int| 0 <= i < ids@.len() ==> has_input(groups@, #[trigger] ids@[i]),
            forall|i: int|
                0 <= i < ids@.len() && input_at(groups@, #[trigger] ids@[i]) is Object ==> {
                    let obj = input_at(groups@, ids@[i])->Object_0;
                    obj.symbol_id_range.start_symbol_id@ + obj.symbol_id_range.num_symbols <= usize::MAX
                },
            forall|i: int| 0 <= i < b ==> pair_apart(groups@, a, #[trigger] ids@[i]),
        decreases ids@.len() - b,
    {
        let other = ids[b];
        if other.group != a.group || other.file != a.file {
            if let ParsedInput::Object(second) = &groups[other.group].files[other.file] {
                let second_start = second.symbol_id_range.start_symbol_id.as_usize();
                let second_end = second_start + second.symbol_id_range.num_symbols;
                if !(first_end <= second_start || second_end <= first_start) {
                    assert(!pair_apart(groups@, a, ids@[b as int]));
                    return false;
                }
            }
        }
        b = b + 1;
    }
    true
}

/// Whether the file at the place `file_id`, if it is an object, fits the
/// table of definitions: see `object_fits`.
pub open spec fn file_fits(groups: Seq<Group>, file_id: FileId, definitions: Seq<SymbolId>) -> bool {
    input_at(groups, file_id) is Object ==> object_fits(&input_at(groups, file_id)->Object_0, file_id, definitions)
}

/// Whether the files and the table of symbols belong together, so that the
/// symbols of the files can be resolved: the tables of the symbols are
/// well-formed and the table of definitions is in place; the first file
/// holds the linker's own symbols; every symbol belongs to a file of the
/// groups; every object knows its place, has its own range of symbol numbers
/// within the table of definitions, and defines no global symbol that the
/// table has as undefined.
pub fn inputs_are_valid<'data>(groups: &[Group<'data>], symbol_db: &SymbolDb<'data>) -> (r: bool)
    ensures
        r == (inputs_fit(groups@, symbol_db, symbol_db.symbol_definitions@) && symbol_db.has_definitions()),
{
    proof {
        reveal(inputs_fit);
    }
    if !symbol_db.check_wf() || !symbol_db.check_definitions() {
        return false;
    }
    if !holds_file(groups, FileId { group: 0, file: 0 }) || !holds_file(groups, symbol_db.epilogue_file_id) {
        return false;
    }
    match &groups[0].files[0] {
        ParsedInput::Prelude(_) => {},
        _ => {
            return false;
        },
    }
    let mut i: usize = 0;
    while i < symbol_db.symbol_file_ids.len()
        invariant
            i <= symbol_db.symbol_file_ids@.len(),
            forall|k: int| 0 <= k < i ==> has_input(groups@, #[trigger] symbol_db.symbol_file_ids@[k]),
        decreases symbol_db.symbol_file_ids@.len() - i,
    {
        if !holds_file(groups, symbol_db.symbol_file_ids[i]) {
            proof {
                reveal(inputs_fit);
            }
            return false;
        }
        i = i + 1;
    }
    let ghost definitions = symbol_db.symbol_definitions@;
    let ids = file_ids(groups);
    let mut k: usize = 0;
    while k < ids.len()
        invariant
            k <= ids@.len(),
            definitions == symbol_db.symbol_definitions@,
            forall|i: int| 0 <= i < ids@.len() ==> has_input(groups@, #[trigger] ids@[i]),
            forall|i: int| 0 <= i < k ==> file_fits(groups@, #[trigger] ids@[i], definitions),
        decreases ids@.len() - k,
    {
        let file_id = ids[k];
        if let ParsedInput::Object(obj) = &groups[file_id.group].files[file_id.file] {
            if !check_object(obj, file_id, &symbol_db.symbol_definitions) {
                proof {
                    reveal(inputs_fit);
                    assert(input_at(groups@, file_id) is Object);
                }
                return false;
            }
        }
        k = k + 1;
    }
    assert forall|file_id: FileId| has_input(groups@, file_id) implies #[trigger] file_fits(
        groups@,
        file_id,
        definitions,
    ) by {
        assert(ids@.contains(file_id));
        let i = choose|i: int| 0 <= i < ids@.len() && ids@[i] == file_id;
        assert(file_fits(groups@, ids@[i], definitions));
    }
    let mut a: usize = 0;
    while a < ids.len()
        invariant
            a <= ids@.len(),
            definitions == symbol_db.symbol_definitions@,
            forall|file_id: FileId| #[trigger] has_input(groups@, file_id) ==> ids@.contains(file_id),
            forall|i: int| 0 <= i < ids@.len() ==> has_input(groups@, #[trigger] ids@[i]),
            forall|file_id: FileId| has_input(groups@, file_id) ==> #[trigger] file_fits(groups@, file_id, definitions),
            forall|i: int, j: int|
                0 <= i < a && 0 <= j < ids@.len() ==> pair_apart(groups@, #[trigger] ids@[i], #[trigger] ids@[j]),
        decreases ids@.len() - a,
    {
        proof {
            assert forall|i: int|
                0 <= i < ids@.len() && input_at(groups@, #[trigger] ids@[i]) is Object implies {
                let obj = input_at(groups@, ids@[i])->Object_0;
                obj.symbol_id_range.start_symbol_id@ + obj.symbol_id_range.num_symbols <= usize::MAX
            } by {
                assert(file_fits(groups@, ids@[i], definitions));
            }
            assert(ids@.contains(ids@[a as int]));
        }
        if !is_apart(groups, &ids, ids[a]) {
            proof {
                let first = ids@[a as int];
                let j = choose|j: int| 0 <= j < ids@.len() && !pair_apart(groups@, first, #[trigger] ids@[j]);
                let second = ids@[j];
                reveal(inputs_fit);
                assert(input_at(groups@, first) is Object);
                assert(input_at(groups@, second) is Object);
            }
            return false;
        }
        a = a + 1;
    }
    proof {
        assert forall|a: FileId, b: FileId|
            has_input(groups@, a) && has_input(groups@, b) && a != b && #[trigger] input_at(groups@, a) is Object
                && #[trigger] input_at(groups@, b) is Object implies ranges_apart(
            &input_at(groups@, a)->Object_0,
            &input_at(groups@, b)->Object_0,
        ) by {
            assert(ids@.contains(a));
            assert(ids@.contains(b));
            let i = choose|i: int| 0 <= i < ids@.len() && ids@[i] == a;
            let j = choose|j: int| 0 <= j < ids@.len() && ids@[j] == b;
            assert(pair_apart(groups@, ids@[i], ids@[j]));
        }
        assert forall|file_id: FileId|
            has_input(groups@, file_id) && #[trigger] input_at(groups@, file_id) is Object implies {
            let obj = input_at(groups@, file_id)->Object_0;
            &&& obj.file_id == file_id
            &&& obj.symbol_id_range.start_symbol_id@ + obj.symbol_id_range.num_symbols <= definitions.len()
            &&& file_processable(groups@, file_id, own_definitions(definitions, &obj))
        } by {
            assert(file_fits(groups@, file_id, definitions));
        }
    }
    true
}

/// Whether the resolved groups hold the file `file_id`.
pub fn holds_resolved_file(resolved: &[ResolvedGroup], file_id: FileId) -> (r: bool)
    ensures
        r == has_file(resolved@, file_id),
{
    file_id.group < resolved.len() && file_id.file < resolved[file_id.group].files.len()
}

/// Whether each record of a custom section of `file` that names a section
/// of the file names one whose slot carries a part.
pub fn has_parts_for_records(file: &ResolvedFile) -> (r: bool)
    ensures
        r == records_have_parts(*file),
{
    if let ResolvedFile::Object(obj) = file {
        if let Some(non_dynamic) = &obj.non_dynamic {
            let mut k: usize = 0;
            while k < non_dynamic.custom_sections.len()
                invariant
                    k <= non_dynamic.custom_sections@.len(),
                    *file == ResolvedFile::Object(*obj),
                    obj.non_dynamic == Some(*non_dynamic),
                    forall|j: int|
                        0 <= j < k && (#[trigger] non_dynamic.custom_sections@[j]).index
                            < non_dynamic.sections@.len()
                            ==> non_dynamic.sections@[non_dynamic.custom_sections@[j].index as int].has_part_id(),
                decreases non_dynamic.custom_sections@.len() - k,
            {
                let index = non_dynamic.custom_sections[k].index;
                if index < non_dynamic.sections.len() {
                    match non_dynamic.sections[index] {
                        SectionSlot::Discard | SectionSlot::EhFrameData(_) => {
                            assert(non_dynamic.custom_sections@[k as int].index == index);
                            assert(file->Object_0.non_dynamic->Some_0 == *non_dynamic);
                            return false;
                        },
                        _ => {},
                    }
                }
                k = k + 1;
            }
        }
    }
    true
}

/// Whether the files that resolution has come to, and the references that
/// it has left undefined, fit the table of symbols, so that resolution can
/// be finished: see `can_finish`.
pub fn can_be_finished<'data>(
    symbol_db: &SymbolDb<'data>,
    resolved: &[ResolvedGroup<'data>],
    undefined: &Vec<UndefinedSymbol<'data>>,
) -> (r: bool)
    ensures
        r == can_finish(symbol_db, resolved@, undefined@),
{
    if !symbol_db.check_wf() || !symbol_db.check_definitions() {
        return false;
    }
    if !holds_resolved_file(resolved, symbol_db.epilogue_file_id) || !holds_resolved_file(
        resolved,
        FileId { group: 0, file: 0 },
    ) {
        return false;
    }
    let mut i: usize = 0;
    while i < symbol_db.symbol_file_ids.len()
        invariant
            i <= symbol_db.symbol_file_ids@.len(),
            forall|k: int| 0 <= k < i ==> has_file(resolved@, #[trigger] symbol_db.symbol_file_ids@[k]),
        decreases symbol_db.symbol_file_ids@.len() - i,
    {
        if !holds_resolved_file(resolved, symbol_db.symbol_file_ids[i]) {
            return false;
        }
        i = i + 1;
    }
    let mut g: usize = 0;
    while g < resolved.len()
        invariant
            g <= resolved@.len(),
            forall|a: int, b: int|
                0 <= a < g && 0 <= b < resolved@[a].files@.len() ==> records_have_parts(
                    #[trigger] resolved@[a].files@[b],
                ),
        decreases resolved@.len() - g,
    {
        let mut f: usize = 0;
        while f < resolved[g].files.len()
            invariant
                g < resolved@.len(),
                f <= resolved@[g as int].files@.len(),
                forall|a: int, b: int|
                    0 <= a < g && 0 <= b < resolved@[a].files@.len() ==> records_have_parts(
                        #[trigger] resolved@[a].files@[b],
                    ),
                forall|b: int| 0 <= b < f ==> records_have_parts(#[trigger] resolved@[g as int].files@[b]),
            decreases resolved@[g as int].files@.len() - f,
        {
            if !has_parts_for_records(&resolved[g].files[f]) {
                return false;
            }
            f = f + 1;
        }
        g = g + 1;
    }
    let mut k: usize = 0;
    while k < undefined.len()
        invariant
            k <= undefined@.len(),
            forall|j: int|
                0 <= j < k ==> {
                    let record = #[trigger] undefined@[j];
                    &&& record.symbol_id@ < symbol_db.num_symbols()
                    &&& record.ignore_if_loaded matches Some(file_id) ==> has_file(resolved@, file_id)
                },
        decreases undefined@.len() - k,
    {
        let record = &undefined[k];
        if record.symbol_id.as_usize() >= symbol_db.symbol_file_ids.len() {
            return false;
        }
        if let Some(file_id) = record.ignore_if_loaded {
            if !holds_resolved_file(resolved, file_id) {
                return false;
            }
        }
        k = k + 1;
    }
    true
}

} // verus!
