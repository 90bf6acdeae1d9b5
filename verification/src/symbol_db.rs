//! Symbols and files by number, and the table that knows, for each symbol,
//! its file, its flags and the symbol that defines it.

use crate::hash::{hash_bytes, hash_of, PreHashed};
use crate::merge_strings::{lemma_found, position_of};
use crate::output_section_id::bytes_equal;
use crate::value_flags::ValueFlags;
use vstd::prelude::*;

verus! {

/// Identifies a symbol over the whole link. The symbol 0 is the undefined
/// symbol. Its view is the number.
#[derive(Clone, Copy, Debug, PartialEq, Eq, Structural, Hash)]
pub struct SymbolId(pub u32);

impl View for SymbolId {
    type V = int;

    open spec fn view(&self) -> int {
        self.0 as int
    }
}

impl SymbolId {
    /// The undefined symbol.
    pub fn undefined() -> (r: SymbolId)
        ensures
            r@ == 0,
    {
        SymbolId(0)
    }

    /// Whether this is the undefined symbol.
    pub fn is_undefined(self) -> (r: bool)
        ensures
            r == (self@ == 0),
    {
        self.0 == 0
    }

    /// The number of the symbol.
    pub fn as_usize(self) -> (r: usize)
        ensures
            r == self@,
    {
        self.0 as usize
    }

    /// The symbol with the given number.
    pub fn from_usize(number: usize) -> (r: SymbolId)
        requires
            number <= u32::MAX,
        ensures
            r@ == number,
    {
        SymbolId(number as u32)
    }
}

/// Identifies an input file: the group that it belongs to and its position
/// in the group.
#[derive(Clone, Copy, Debug, PartialEq, Eq, Structural, Hash)]
pub struct FileId {
    pub group: usize,
    pub file: usize,
}

impl FileId {
    /// The file at position `file` of the group `group`.
    pub fn new(group: usize, file: usize) -> (r: FileId)
        ensures
            r.group == group,
            r.file == file,
    {
        FileId { group, file }
    }

    /// The file that holds the symbols that the linker itself defines: the
    /// first file of the first group.
    pub fn prelude() -> (r: FileId)
        ensures
            r == (FileId { group: 0, file: 0 }),
    {
        FileId { group: 0, file: 0 }
    }

    /// Stands for a file that is not known yet.
    pub fn uninitialised() -> (r: FileId)
        ensures
            r == (FileId { group: usize::MAX, file: usize::MAX }),
    {
        FileId { group: usize::MAX, file: usize::MAX }
    }

    /// The group that the file belongs to.
    pub fn group(self) -> (r: usize)
        ensures
            r == self.group,
    {
        self.group
    }

    /// The position of the file in its group.
    pub fn file(self) -> (r: usize)
        ensures
            r == self.file,
    {
        self.file
    }
}

/// The symbols of one file: a range of consecutive symbol numbers.
#[derive(Clone, Copy, Debug, PartialEq, Eq, Structural, Hash)]
pub struct SymbolIdRange {
    pub start_symbol_id: SymbolId,
    pub num_symbols: usize,
}

impl SymbolIdRange {
    /// The range of the file that holds the linker's own symbols: it starts
    /// with the undefined symbol.
    pub fn prelude(num_symbols: usize) -> (r: SymbolIdRange)
        ensures
            r.start_symbol_id@ == 0,
            r.num_symbols == num_symbols,
    {
        SymbolIdRange { start_symbol_id: SymbolId::undefined(), num_symbols }
    }

    /// The range of `num_symbols` symbols that starts with `start`.
    pub fn input(start: SymbolId, num_symbols: usize) -> (r: SymbolIdRange)
        ensures
            r.start_symbol_id == start,
            r.num_symbols == num_symbols,
    {
        SymbolIdRange { start_symbol_id: start, num_symbols }
    }

    /// The number of symbols in the range.
    pub fn len(&self) -> (r: usize)
        ensures
            r == self.num_symbols,
    {
        self.num_symbols
    }

    /// Whether the range holds the symbol with the number `id`.
    pub open spec fn holds(&self, id: int) -> bool {
        self.start_symbol_id@ <= id < self.start_symbol_id@ + self.num_symbols
    }

    /// The number over the whole link of the symbol that has the number
    /// `index` in its file.
    pub fn input_to_id(&self, index: usize) -> (r: SymbolId)
        requires
            index < self.num_symbols,
            self.start_symbol_id@ + self.num_symbols <= u32::MAX,
        ensures
            r@ == self.start_symbol_id@ + index,
    {
        SymbolId::from_usize(self.start_symbol_id.as_usize() + index)
    }

    /// The number in its file of the symbol `id`.
    pub fn to_input(&self, id: SymbolId) -> (r: usize)
        requires
            self.holds(id@),
        ensures
            r == id@ - self.start_symbol_id@,
    {
        id.as_usize() - self.start_symbol_id.as_usize()
    }
}

/// The name of a symbol.
#[derive(Clone, Copy, Debug, PartialEq, Eq)]
pub struct SymbolName<'data> {
    pub bytes: &'data [u8],
}

impl<'data> SymbolName<'data> {
    /// The name with its hash.
    pub fn prehashed(bytes: &'data [u8]) -> (r: PreHashed<SymbolName<'data>>)
        ensures
            r.value.bytes == bytes,
            r.hash == hash_of(bytes@),
    {
        PreHashed::new(SymbolName { bytes }, hash_bytes(bytes))
    }

    /// The bytes of the name.
    pub fn bytes(&self) -> (r: &'data [u8])
        ensures
            r == self.bytes,
    {
        self.bytes
    }
}

/// What the user asked for, as far as resolution is concerned.
#[derive(Clone, Copy, Debug, PartialEq, Eq)]
pub struct Args {
    /// How many threads to use. At least one.
    pub num_threads: usize,
    /// The address at which the output is loaded.
    pub base_address: u64,
    /// Whether sections of debug information are dropped.
    pub strip_debug: bool,
}

/// A global name and the symbol that stands for it.
#[derive(Clone, Copy, Debug)]
pub struct GlobalName<'data> {
    pub name: PreHashed<SymbolName<'data>>,
    pub symbol_id: SymbolId,
}

/// Whether following the earlier definitions from `id` reaches the undefined
/// symbol within `steps` steps.
pub open spec fn ends_within(earlier: Seq<SymbolId>, id: SymbolId, steps: nat) -> bool
    decreases steps,
{
    id@ == 0 || (steps > 0 && id@ < earlier.len() && ends_within(earlier, earlier[id@], (steps - 1) as nat))
}

/// The symbols that following the earlier definitions from `id` reaches
/// within `steps` steps, `id` first, the undefined symbol left out.
pub open spec fn chain(earlier: Seq<SymbolId>, id: SymbolId, steps: nat) -> Seq<SymbolId>
    decreases steps,
{
    if id@ == 0 || steps == 0 || id@ >= earlier.len() {
        Seq::empty()
    } else {
        seq![id] + chain(earlier, earlier[id@], (steps - 1) as nat)
    }
}

/// The symbols of a link. Each symbol has a number; the tables are indexed
/// by it.
#[derive(Debug)]
pub struct SymbolDb<'data> {
    pub args: Args,
    /// The global names, each with the symbol of its first definition.
    pub global_names: Vec<GlobalName<'data>>,
    /// The file of each symbol.
    pub symbol_file_ids: Vec<FileId>,
    /// For each symbol, the symbol that defines it; the undefined symbol
    /// where that is not known.
    pub symbol_definitions: Vec<SymbolId>,
    /// The flags of each symbol.
    pub symbol_value_flags: Vec<ValueFlags>,
    /// For each symbol, an earlier symbol with the same name, or the
    /// undefined symbol where there is none.
    pub alternative_definitions: Vec<SymbolId>,
    /// The symbols whose name is defined more than once.
    pub symbols_with_alternatives: Vec<SymbolId>,
    /// The names of the symbols that mark the start or the end of a custom
    /// section.
    pub start_stop_symbol_names: Vec<PreHashed<SymbolName<'data>>>,
    /// The file that the symbols which the linker adds at the end belong to.
    pub epilogue_file_id: FileId,
}

impl<'data> SymbolDb<'data> {
    /// The number of symbols.
    pub open spec fn num_symbols(&self) -> int {
        self.symbol_file_ids@.len() as int
    }

    /// The global names as byte strings.
    pub open spec fn names(&self) -> Seq<Seq<u8>> {
        self.global_names@.map_values(|g: GlobalName| g.name.value.bytes@)
    }

    /// The symbol that stands for the global name `name`, if the name is known.
    pub open spec fn global(&self, name: Seq<u8>) -> Option<SymbolId> {
        let position = position_of(self.names(), name, self.names().len() as int);
        if position < self.global_names@.len() {
            Some(self.global_names@[position].symbol_id)
        } else {
            None
        }
    }

    /// The tables cover the same symbols, every symbol that they name is one
    /// of them, and the earlier definitions of a symbol with alternatives end
    /// with the undefined symbol.
    pub open spec fn wf(&self) -> bool {
        &&& self.num_symbols() <= u32::MAX
        &&& self.symbol_value_flags@.len() == self.num_symbols()
        &&& self.alternative_definitions@.len() == self.num_symbols()
        &&& forall|g: int|
            0 <= g < self.global_names@.len() ==> (#[trigger] self.global_names@[g]).symbol_id@
                < self.num_symbols()
        &&& forall|i: int|
            0 <= i < self.num_symbols() ==> (#[trigger] self.alternative_definitions@[i])@
                < self.num_symbols()
        &&& forall|i: int|
            0 <= i < self.symbols_with_alternatives@.len() ==> {
                let first = #[trigger] self.symbols_with_alternatives@[i];
                &&& first@ < self.num_symbols()
                &&& ends_within(
                    self.alternative_definitions@,
                    self.alternative_definitions@[first@],
                    self.num_symbols() as nat,
                )
            }
    }

    /// The table of definitions is in place and covers every symbol.
    pub open spec fn has_definitions(&self) -> bool {
        &&& self.symbol_definitions@.len() == self.num_symbols()
        &&& forall|i: int|
            0 <= i < self.num_symbols() ==> (#[trigger] self.symbol_definitions@[i])@ < self.num_symbols()
    }

    /// The symbol that stands for the global name `name`, if the name is known.
    pub fn lookup_global(&self, name: &PreHashed<SymbolName<'data>>) -> (r: Option<SymbolId>)
        ensures
            r == self.global(name.value.bytes@),
    {
        let mut k: usize = 0;
        while k < self.global_names.len()
            invariant
                k <= self.global_names@.len(),
                self.names().len() == self.global_names@.len(),
                position_of(self.names(), name.value.bytes@, k as int) == k,
            decreases self.global_names@.len() - k,
        {
            let candidate = &self.global_names[k];
            if bytes_equal(candidate.name.value.bytes, name.value.bytes) {
                proof {
                    lemma_found(self.names(), name.value.bytes@, k as int, self.names().len() as int);
                }
                return Some(candidate.symbol_id);
            }
            k = k + 1;
        }
        None
    }

    /// The file that the symbol belongs to.
    pub fn file_id_for_symbol(&self, symbol_id: SymbolId) -> (r: FileId)
        requires
            symbol_id@ < self.num_symbols(),
        ensures
            r == self.symbol_file_ids@[symbol_id@],
    {
        self.symbol_file_ids[symbol_id.as_usize()]
    }

    /// The flags of the symbol.
    pub fn symbol_value_flags(&self, symbol_id: SymbolId) -> (r: ValueFlags)
        requires
            symbol_id@ < self.symbol_value_flags@.len(),
        ensures
            r == self.symbol_value_flags@[symbol_id@],
    {
        self.symbol_value_flags[symbol_id.as_usize()]
    }

    /// Makes `to` the symbol that defines `from`.
    pub fn replace_definition(&mut self, from: SymbolId, to: SymbolId)
        requires
            from@ < old(self).symbol_definitions@.len(),
        ensures
            final(self).symbol_definitions@ == old(self).symbol_definitions@.update(from@, to),
            final(self).args == old(self).args,
            final(self).global_names == old(self).global_names,
            final(self).symbol_file_ids == old(self).symbol_file_ids,
            final(self).symbol_value_flags == old(self).symbol_value_flags,
            final(self).alternative_definitions == old(self).alternative_definitions,
            final(self).symbols_with_alternatives == old(self).symbols_with_alternatives,
            final(self).start_stop_symbol_names == old(self).start_stop_symbol_names,
            final(self).epilogue_file_id == old(self).epilogue_file_id,
    {
        self.symbol_definitions[from.as_usize()] = to;
    }

    /// Adds a symbol that marks the start or the end of a custom section. It
    /// gets the next free number, belongs to the file for symbols that the
    /// linker adds at the end, defines itself, and has an address that needs
    /// no entry in the global offset table.
    pub fn add_start_stop_symbol(&mut self, symbol_name: PreHashed<SymbolName<'data>>) -> (r: SymbolId)
        requires
            old(self).wf(),
            old(self).has_definitions(),
            old(self).num_symbols() < u32::MAX,
        ensures
            final(self).wf(),
            final(self).has_definitions(),
            r@ == old(self).num_symbols(),
            final(self).num_symbols() == old(self).num_symbols() + 1,
            final(self).symbol_file_ids@ == old(self).symbol_file_ids@.push(old(self).epilogue_file_id),
            final(self).symbol_definitions@ == old(self).symbol_definitions@.push(r),
            final(self).symbol_value_flags@ == old(self).symbol_value_flags@.push(ValueFlags(0x11)),
            final(self).alternative_definitions@ == old(self).alternative_definitions@.push(SymbolId(0)),
            final(self).start_stop_symbol_names@ == old(self).start_stop_symbol_names@.push(symbol_name),
            final(self).args == old(self).args,
            final(self).global_names == old(self).global_names,
            final(self).symbols_with_alternatives == old(self).symbols_with_alternatives,
            final(self).epilogue_file_id == old(self).epilogue_file_id,
    {
        let symbol_id = SymbolId::from_usize(self.symbol_file_ids.len());
        self.symbol_file_ids.push(self.epilogue_file_id);
        self.symbol_definitions.push(symbol_id);
        self.symbol_value_flags.push(ValueFlags::from_bits(0x11));
        self.alternative_definitions.push(SymbolId::undefined());
        self.start_stop_symbol_names.push(symbol_name);
        proof {
            let before = old(self).alternative_definitions@;
            let after = self.alternative_definitions@;
            assert forall|i: int| 0 <= i < self.symbols_with_alternatives@.len() implies {
                let first = #[trigger] self.symbols_with_alternatives@[i];
                &&& first@ < self.num_symbols()
                &&& ends_within(after, after[first@], self.num_symbols() as nat)
            } by {
                let first = self.symbols_with_alternatives@[i];
                lemma_ends_within_grows(before, after, before[first@], old(self).num_symbols() as nat);
            }
        }
        symbol_id
    }

    /// Takes the table of definitions out, so that it can be written while
    /// the rest is read.
    pub fn take_definitions(&mut self) -> (r: Vec<SymbolId>)
        ensures
            r == old(self).symbol_definitions,
            final(self).symbol_definitions@.len() == 0,
            final(self).args == old(self).args,
            final(self).global_names == old(self).global_names,
            final(self).symbol_file_ids == old(self).symbol_file_ids,
            final(self).symbol_value_flags == old(self).symbol_value_flags,
            final(self).alternative_definitions == old(self).alternative_definitions,
            final(self).symbols_with_alternatives == old(self).symbols_with_alternatives,
            final(self).start_stop_symbol_names == old(self).start_stop_symbol_names,
            final(self).epilogue_file_id == old(self).epilogue_file_id,
    {
        let mut taken: Vec<SymbolId> = Vec::new();
        core::mem::swap(&mut self.symbol_definitions, &mut taken);
        taken
    }

    /// Puts the table of definitions back.
    pub fn restore_definitions(&mut self, definitions: Vec<SymbolId>)
        ensures
            final(self).symbol_definitions == definitions,
            final(self).args == old(self).args,
            final(self).global_names == old(self).global_names,
            final(self).symbol_file_ids == old(self).symbol_file_ids,
            final(self).symbol_value_flags == old(self).symbol_value_flags,
            final(self).alternative_definitions == old(self).alternative_definitions,
            final(self).symbols_with_alternatives == old(self).symbols_with_alternatives,
            final(self).start_stop_symbol_names == old(self).start_stop_symbol_names,
            final(self).epilogue_file_id == old(self).epilogue_file_id,
    {
        self.symbol_definitions = definitions;
    }
}

/// A chain that ends keeps ending when the table grows and more steps are allowed.
pub proof fn lemma_ends_within_grows(before: Seq<SymbolId>, after: Seq<SymbolId>, id: SymbolId, steps: nat)
    requires
        before.len() <= after.len(),
        forall|i: int| 0 <= i < before.len() ==> before[i] == after[i],
        ends_within(before, id, steps),
    ensures
        ends_within(after, id, steps + 1),
    decreases steps,
{
    if id@ != 0 {
        lemma_ends_within_grows(before, after, before[id@], (steps - 1) as nat);
    }
}

} // verus!
