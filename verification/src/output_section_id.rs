//! Output sections: their identifiers, the built-in ones, and the table that
//! records which custom sections a link has and in what order all of them
//! are laid out.

use crate::alignment::Alignment;
use crate::elf::{
    SectionFlags, SectionType, SHF_ALLOC, SHF_EXECINSTR, SHF_GNU_RETAIN, SHF_INFO_LINK, SHF_TLS,
    SHF_WRITE, SHT_FINI_ARRAY, SHT_INIT_ARRAY, SHT_NOBITS, SHT_NULL, SHT_PREINIT_ARRAY,
    SHT_PROGBITS, SHT_RELA, SHT_STRTAB, SHT_SYMTAB,
};
use crate::output_section_map::OutputSectionMap;
use vstd::prelude::*;

verus! {

/// How many sections the linker generates itself. Their identifiers come first.
pub const NUM_GENERATED_SECTIONS: usize = 7;

/// How many built-in sections are filled from input sections.
pub const NUM_REGULAR_SECTIONS: usize = 11;

/// How many sections have a fixed identifier.
pub const NUM_BUILT_IN_SECTIONS: usize = 18;

/// Identifies an output section. Its view is its index.
#[derive(Clone, Copy, Debug, PartialEq, Eq, Structural, Hash)]
pub struct OutputSectionId(pub u32);

impl View for OutputSectionId {
    type V = int;

    open spec fn view(&self) -> int {
        self.0 as int
    }
}

/// The file headers.
pub fn headers() -> (r: OutputSectionId)
    ensures
        r@ == 0,
{
    OutputSectionId(0)
}

/// The section-header string table.
pub fn shstrtab() -> (r: OutputSectionId)
    ensures
        r@ == 1,
{
    OutputSectionId(1)
}

/// The symbol table.
pub fn symtab() -> (r: OutputSectionId)
    ensures
        r@ == 2,
{
    OutputSectionId(2)
}

/// The symbol string table.
pub fn strtab() -> (r: OutputSectionId)
    ensures
        r@ == 3,
{
    OutputSectionId(3)
}

/// The global offset table.
pub fn got() -> (r: OutputSectionId)
    ensures
        r@ == 4,
{
    OutputSectionId(4)
}

/// The procedure linkage table.
pub fn plt() -> (r: OutputSectionId)
    ensures
        r@ == 5,
{
    OutputSectionId(5)
}

/// The relocations of the procedure linkage table.
pub fn rela_plt() -> (r: OutputSectionId)
    ensures
        r@ == 6,
{
    OutputSectionId(6)
}

/// Read-only data.
pub fn rodata() -> (r: OutputSectionId)
    ensures
        r@ == 7,
{
    OutputSectionId(7)
}

/// Pointers to initialisers.
pub fn init_array() -> (r: OutputSectionId)
    ensures
        r@ == 8,
{
    OutputSectionId(8)
}

/// Pointers to finalisers.
pub fn fini_array() -> (r: OutputSectionId)
    ensures
        r@ == 9,
{
    OutputSectionId(9)
}

/// Pointers to pre-initialisers.
pub fn preinit_array() -> (r: OutputSectionId)
    ensures
        r@ == 10,
{
    OutputSectionId(10)
}

/// Code.
pub fn text() -> (r: OutputSectionId)
    ensures
        r@ == 11,
{
    OutputSectionId(11)
}

/// Initialisation code.
pub fn init() -> (r: OutputSectionId)
    ensures
        r@ == 12,
{
    OutputSectionId(12)
}

/// Finalisation code.
pub fn fini() -> (r: OutputSectionId)
    ensures
        r@ == 13,
{
    OutputSectionId(13)
}

/// Writable data.
pub fn data() -> (r: OutputSectionId)
    ensures
        r@ == 14,
{
    OutputSectionId(14)
}

/// Initialised thread-local data.
pub fn tdata() -> (r: OutputSectionId)
    ensures
        r@ == 15,
{
    OutputSectionId(15)
}

/// Zero-initialised thread-local data.
pub fn tbss() -> (r: OutputSectionId)
    ensures
        r@ == 16,
{
    OutputSectionId(16)
}

/// Zero-initialised data.
pub fn bss() -> (r: OutputSectionId)
    ensures
        r@ == 17,
{
    OutputSectionId(17)
}

/// What is fixed about a section: its type, its flags and the least alignment
/// that anything placed in it gets.
#[derive(Clone, Copy, Debug, PartialEq, Eq)]
pub struct SectionDetails {
    pub ty: SectionType,
    pub section_flags: SectionFlags,
    pub min_alignment: Alignment,
}

/// The exponent of the least alignment of the section with index `id`.
pub open spec fn min_alignment_exponent(id: int) -> nat {
    if id == 5 {
        4
    } else if id == 2 || id == 4 || id == 6 || id == 8 || id == 9 || id == 10 {
        3
    } else {
        0
    }
}

/// The type of the built-in section with index `id`.
pub open spec fn built_in_type(id: int) -> u32 {
    if id == 0 {
        SHT_NULL
    } else if id == 1 || id == 3 {
        SHT_STRTAB
    } else if id == 2 {
        SHT_SYMTAB
    } else if id == 6 {
        SHT_RELA
    } else if id == 8 {
        SHT_INIT_ARRAY
    } else if id == 9 {
        SHT_FINI_ARRAY
    } else if id == 10 {
        SHT_PREINIT_ARRAY
    } else if id == 16 || id == 17 {
        SHT_NOBITS
    } else {
        SHT_PROGBITS
    }
}

/// The flags of the built-in section with index `id`.
pub open spec fn built_in_flags(id: int) -> u64 {
    if id == 0 || id == 7 {
        SHF_ALLOC
    } else if id == 1 || id == 2 || id == 3 {
        0
    } else if id == 4 || id == 14 || id == 17 {
        0x3
    } else if id == 5 || id == 11 {
        0x6
    } else if id == 6 {
        0x42
    } else if id == 8 || id == 9 || id == 10 {
        0x20_0003
    } else if id == 12 || id == 13 {
        0x20_0006
    } else {
        0x403
    }
}

impl OutputSectionId {
    /// The identifier with the given index, if it fits.
    pub fn from_usize(index: usize) -> (r: Option<OutputSectionId>)
        ensures
            index <= u32::MAX ==> r == Some(OutputSectionId(index as u32)),
            index > u32::MAX ==> r.is_none(),
    {
        if index <= u32::MAX as usize {
            Some(OutputSectionId(index as u32))
        } else {
            None
        }
    }

    /// The index of the section.
    pub fn as_usize(self) -> (r: usize)
        ensures
            r == self@,
    {
        self.0 as usize
    }

    /// Whether the section has a fixed identifier.
    pub open spec fn is_built_in(self) -> bool {
        self@ < NUM_BUILT_IN_SECTIONS
    }

    /// The position of a regular section among the regular sections.
    pub open spec fn regular_offset(self) -> int {
        self@ - NUM_GENERATED_SECTIONS
    }

    /// The least alignment of anything placed in the section. Custom sections
    /// have no least alignment beyond one byte.
    pub fn min_alignment(self) -> (r: Alignment)
        ensures
            r@ == min_alignment_exponent(self@),
    {
        let exponent: u8 = if self.0 == 5 {
            4
        } else if self.0 == 2 || self.0 == 4 || self.0 == 6 || self.0 == 8 || self.0 == 9 || self.0
            == 10 {
            3
        } else {
            0
        };
        Alignment::from_exponent(exponent).unwrap()
    }

    /// The details of a built-in section, `None` for a custom one.
    pub fn opt_built_in_details(self) -> (r: Option<SectionDetails>)
        ensures
            r.is_some() == self.is_built_in(),
            r matches Some(d) ==> {
                &&& d.ty.0 == built_in_type(self@)
                &&& d.section_flags.0 == built_in_flags(self@)
                &&& d.min_alignment@ == min_alignment_exponent(self@)
            },
    {
        let id: u32 = self.0;
        if id >= 18 {
            return None;
        }
        let ty: u32 = if id == 0 {
            SHT_NULL
        } else if id == 1 || id == 3 {
            SHT_STRTAB
        } else if id == 2 {
            SHT_SYMTAB
        } else if id == 6 {
            SHT_RELA
        } else if id == 8 {
            SHT_INIT_ARRAY
        } else if id == 9 {
            SHT_FINI_ARRAY
        } else if id == 10 {
            SHT_PREINIT_ARRAY
        } else if id == 16 || id == 17 {
            SHT_NOBITS
        } else {
            SHT_PROGBITS
        };
        let flags: u64 = if id == 0 || id == 7 {
            SHF_ALLOC
        } else if id == 1 || id == 2 || id == 3 {
            0
        } else if id == 4 || id == 14 || id == 17 {
            SHF_WRITE | SHF_ALLOC
        } else if id == 5 || id == 11 {
            SHF_ALLOC | SHF_EXECINSTR
        } else if id == 6 {
            SHF_ALLOC | SHF_INFO_LINK
        } else if id == 8 || id == 9 || id == 10 {
            SHF_WRITE | SHF_ALLOC | SHF_GNU_RETAIN
        } else if id == 12 || id == 13 {
            SHF_ALLOC | SHF_EXECINSTR | SHF_GNU_RETAIN
        } else {
            SHF_WRITE | SHF_ALLOC | SHF_TLS
        };
        proof {
            assert(0x1u64 | 0x2u64 == 0x3u64) by (bit_vector);
            assert(0x2u64 | 0x4u64 == 0x6u64) by (bit_vector);
            assert(0x2u64 | 0x40u64 == 0x42u64) by (bit_vector);
            assert(0x1u64 | 0x2u64 | 0x20_0000u64 == 0x20_0003u64) by (bit_vector);
            assert(0x2u64 | 0x4u64 | 0x20_0000u64 == 0x20_0006u64) by (bit_vector);
            assert(0x1u64 | 0x2u64 | 0x400u64 == 0x403u64) by (bit_vector);
        }
        Some(
            SectionDetails {
                ty: SectionType(ty),
                section_flags: SectionFlags(flags),
                min_alignment: self.min_alignment(),
            },
        )
    }

    /// Whether the built-in section has to be kept even where nothing refers
    /// to what is placed in it.
    pub open spec fn built_in_retained(self) -> bool {
        8 <= self@ <= 10 || 12 <= self@ <= 13
    }

    /// The retained built-in sections are those whose flags say so.
    pub proof fn lemma_built_in_retained(self)
        requires
            self.is_built_in(),
        ensures
            self.built_in_retained() == SectionFlags(built_in_flags(self@)).has(SHF_GNU_RETAIN),
    {
        assert(0x2u64 & 0x20_0000u64 != 0x20_0000u64) by (bit_vector);
        assert(0x0u64 & 0x20_0000u64 != 0x20_0000u64) by (bit_vector);
        assert(0x3u64 & 0x20_0000u64 != 0x20_0000u64) by (bit_vector);
        assert(0x6u64 & 0x20_0000u64 != 0x20_0000u64) by (bit_vector);
        assert(0x42u64 & 0x20_0000u64 != 0x20_0000u64) by (bit_vector);
        assert(0x403u64 & 0x20_0000u64 != 0x20_0000u64) by (bit_vector);
        assert(0x20_0003u64 & 0x20_0000u64 == 0x20_0000u64) by (bit_vector);
        assert(0x20_0006u64 & 0x20_0000u64 == 0x20_0000u64) by (bit_vector);
    }
}

/// A custom section of the output: its name and what is fixed about it.
#[derive(Clone, Debug, PartialEq, Eq)]
pub struct CustomSection {
    pub name: Vec<u8>,
    pub details: SectionDetails,
}

/// The sections of the output: the built-in ones and, after them, the custom
/// sections of this link. The custom section at position `k` of `custom` has
/// the index `NUM_BUILT_IN_SECTIONS + k`. Each custom section stands in one of
/// four lists, which say where it is laid out.
#[derive(Clone, Debug, PartialEq, Eq)]
pub struct OutputSections {
    pub custom: Vec<CustomSection>,
    /// Read-only custom sections.
    pub ro_custom: Vec<OutputSectionId>,
    /// Executable custom sections.
    pub exec_custom: Vec<OutputSectionId>,
    /// Writable custom sections with contents.
    pub data_custom: Vec<OutputSectionId>,
    /// Writable custom sections without contents.
    pub bss_custom: Vec<OutputSectionId>,
    pub base_address: u64,
}

/// Custom sections as plain values: the name and the details of each.
pub type CustomTable = Seq<(Seq<u8>, SectionDetails)>;

/// The given custom sections as plain values.
pub open spec fn table_of(custom: Seq<CustomSection>) -> CustomTable {
    custom.map_values(|c: CustomSection| (c.name@, c.details))
}

/// The position of the first of the first `limit` names that is `name`, or
/// `limit` if none of them is.
pub open spec fn position_of_name(names: CustomTable, name: Seq<u8>, limit: int) -> int
    decreases limit,
{
    if limit <= 0 {
        0
    } else {
        let before = position_of_name(names, name, limit - 1);
        if before < limit - 1 {
            before
        } else if names[limit - 1].0 == name {
            limit - 1
        } else {
            limit
        }
    }
}

/// What `position_of_name` finds is `name`, and nothing before it is.
pub proof fn lemma_position_of_name(names: CustomTable, name: Seq<u8>, limit: int)
    requires
        0 <= limit <= names.len(),
    ensures
        0 <= position_of_name(names, name, limit) <= limit,
        position_of_name(names, name, limit) < limit ==> names[position_of_name(names, name, limit)].0
            == name,
        forall|k: int| 0 <= k < position_of_name(names, name, limit) ==> (#[trigger] names[k]).0 != name,
    decreases limit,
{
    if limit > 0 {
        lemma_position_of_name(names, name, limit - 1);
    }
}

/// Once a name has been found, looking further finds the same one.
pub proof fn lemma_found_position(names: CustomTable, name: Seq<u8>, k: int, limit: int)
    requires
        0 <= k < limit <= names.len(),
        position_of_name(names, name, k) == k,
        names[k].0 == name,
    ensures
        position_of_name(names, name, limit) == k,
    decreases limit,
{
    if limit > k + 1 {
        lemma_found_position(names, name, k, limit - 1);
    }
}

/// The position of the first custom section with the name `name`, or the
/// number of custom sections if none has it.
pub fn find_name(custom: &Vec<CustomSection>, name: &[u8]) -> (r: usize)
    ensures
        r == position_of_name(table_of(custom@), name@, custom@.len() as int),
        r <= custom@.len(),
{
    let mut k: usize = 0;
    while k < custom.len()
        invariant
            k <= custom@.len(),
            position_of_name(table_of(custom@), name@, k as int) == k,
        decreases custom@.len() - k,
    {
        if bytes_equal(custom[k].name.as_slice(), name) {
            proof {
                lemma_found_position(table_of(custom@), name@, k as int, custom@.len() as int);
            }
            return k;
        }
        k = k + 1;
    }
    k
}

/// The identifiers of the given indices.
pub open spec fn ids(indices: Seq<int>) -> Seq<OutputSectionId> {
    indices.map_values(|i: int| OutputSectionId(i as u32))
}

impl OutputSections {
    /// The number of sections, built-in and custom.
    pub open spec fn num_sections(&self) -> int {
        NUM_BUILT_IN_SECTIONS + self.custom@.len()
    }

    /// The custom sections in the order in which they are laid out.
    pub open spec fn custom_ids(&self) -> Seq<OutputSectionId> {
        self.ro_custom@ + self.exec_custom@ + self.data_custom@ + self.bss_custom@
    }

    /// The four lists hold each custom section exactly once, and nothing else.
    pub open spec fn wf(&self) -> bool {
        &&& self.num_sections() <= u32::MAX
        &&& self.custom_ids().no_duplicates()
        &&& forall|i: int|
            0 <= i < self.custom_ids().len() ==> NUM_BUILT_IN_SECTIONS <= (#[trigger] self.custom_ids()[i])@
                < self.num_sections()
        &&& forall|id: OutputSectionId|
            NUM_BUILT_IN_SECTIONS <= id@ < self.num_sections() ==> #[trigger] self.custom_ids().contains(id)
    }

    /// All sections in the order in which they are laid out in the output:
    /// the headers, the read-only sections, the executable ones, the writable
    /// ones with contents, the writable ones without; in each group the
    /// built-in sections before the custom ones.
    pub open spec fn output_order(&self) -> Seq<OutputSectionId> {
        ids(seq![0, 7, 8, 9, 10, 1, 2, 3, 6]) + self.ro_custom@ + ids(seq![5, 11, 12, 13])
            + self.exec_custom@ + ids(seq![4, 14]) + self.data_custom@ + ids(seq![15, 16, 17])
            + self.bss_custom@
    }

    /// Each of the four lists holds custom sections of the table only.
    pub proof fn lemma_custom_lists(&self)
        requires
            self.wf(),
        ensures
            forall|k: int|
                0 <= k < self.ro_custom@.len() ==> NUM_BUILT_IN_SECTIONS <= (#[trigger] self.ro_custom@[k])@
                    < self.num_sections(),
            forall|k: int|
                0 <= k < self.exec_custom@.len() ==> NUM_BUILT_IN_SECTIONS <= (
                #[trigger] self.exec_custom@[k])@ < self.num_sections(),
            forall|k: int|
                0 <= k < self.data_custom@.len() ==> NUM_BUILT_IN_SECTIONS <= (
                #[trigger] self.data_custom@[k])@ < self.num_sections(),
            forall|k: int|
                0 <= k < self.bss_custom@.len() ==> NUM_BUILT_IN_SECTIONS <= (
                #[trigger] self.bss_custom@[k])@ < self.num_sections(),
    {
        let all = self.custom_ids();
        let ro = self.ro_custom@.len() as int;
        let ex = self.exec_custom@.len() as int;
        let da = self.data_custom@.len() as int;
        assert forall|k: int| 0 <= k < self.ro_custom@.len() implies NUM_BUILT_IN_SECTIONS <= (
        #[trigger] self.ro_custom@[k])@ < self.num_sections() by {
            assert(all[k] == self.ro_custom@[k]);
        }
        assert forall|k: int| 0 <= k < self.exec_custom@.len() implies NUM_BUILT_IN_SECTIONS <= (
        #[trigger] self.exec_custom@[k])@ < self.num_sections() by {
            assert(all[ro + k] == self.exec_custom@[k]);
        }
        assert forall|k: int| 0 <= k < self.data_custom@.len() implies NUM_BUILT_IN_SECTIONS <= (
        #[trigger] self.data_custom@[k])@ < self.num_sections() by {
            assert(all[ro + ex + k] == self.data_custom@[k]);
        }
        assert forall|k: int| 0 <= k < self.bss_custom@.len() implies NUM_BUILT_IN_SECTIONS <= (
        #[trigger] self.bss_custom@[k])@ < self.num_sections() by {
            assert(all[ro + ex + da + k] == self.bss_custom@[k]);
        }
    }

    /// A custom section of the table stands in one of the four lists.
    pub proof fn lemma_custom_section_listed(&self, id: OutputSectionId)
        requires
            self.wf(),
            NUM_BUILT_IN_SECTIONS <= id@ < self.num_sections(),
        ensures
            self.ro_custom@.contains(id) || self.exec_custom@.contains(id) || self.data_custom@.contains(id)
                || self.bss_custom@.contains(id),
    {
        let all = self.custom_ids();
        assert(all.contains(id));
        let i = choose|i: int| 0 <= i < all.len() && all[i] == id;
    }

    /// The number of sections, built-in and custom.
    pub fn len(&self) -> (r: usize)
        requires
            self.wf(),
        ensures
            r == self.num_sections(),
    {
        NUM_BUILT_IN_SECTIONS + self.custom.len()
    }

    /// What is fixed about the section `id`.
    pub fn details(&self, id: OutputSectionId) -> (r: SectionDetails)
        requires
            id@ < self.num_sections(),
        ensures
            r == self.details_of(id),
    {
        match id.opt_built_in_details() {
            Some(d) => {
                proof {
                    Alignment::lemma_view_of(d.min_alignment);
                }
                d
            },
            None => self.custom[id.as_usize() - NUM_BUILT_IN_SECTIONS].details,
        }
    }

    /// What is fixed about the section `id`.
    pub open spec fn details_of(&self, id: OutputSectionId) -> SectionDetails {
        if id.is_built_in() {
            SectionDetails {
                ty: SectionType(built_in_type(id@)),
                section_flags: SectionFlags(built_in_flags(id@)),
                min_alignment: Alignment::of(min_alignment_exponent(id@)),
            }
        } else {
            self.custom@[id@ - NUM_BUILT_IN_SECTIONS].details
        }
    }

    /// The custom sections as plain values, by ascending identifier.
    pub open spec fn table(&self) -> CustomTable {
        table_of(self.custom@)
    }

    /// The custom section with the name `name`, if there is one; the first
    /// one, if there are several.
    pub open spec fn id_of_name(&self, name: Seq<u8>) -> Option<OutputSectionId> {
        let position = position_of_name(self.table(), name, self.custom@.len() as int);
        if position < self.custom@.len() {
            Some(OutputSectionId((NUM_BUILT_IN_SECTIONS + position) as u32))
        } else {
            None
        }
    }

    /// The custom section with the name `name`, if there is one.
    pub fn custom_name_to_id(&self, name: &[u8]) -> (r: Option<OutputSectionId>)
        requires
            self.wf(),
        ensures
            r == self.id_of_name(name@),
    {
        let position = find_name(&self.custom, name);
        if position < self.custom.len() {
            Some(OutputSectionId((NUM_BUILT_IN_SECTIONS + position) as u32))
        } else {
            None
        }
    }

    /// A table with the default value for each section.
    pub fn new_section_map<T: Default>(&self) -> (r: OutputSectionMap<T>)
        requires
            self.wf(),
        ensures
            r@.len() == self.num_sections(),
            forall|i: int| 0 <= i < r@.len() ==> crate::alignment::is_default(#[trigger] r@[i]),
    {
        let n = self.len();
        let mut values: Vec<T> = Vec::new();
        while values.len() < n
            invariant
                values@.len() <= n,
                forall|i: int| 0 <= i < values@.len() ==> crate::alignment::is_default(#[trigger] values@[i]),
            decreases n - values@.len(),
        {
            values.push(T::default());
        }
        OutputSectionMap::from_values(values)
    }

    /// Calls `cb` for each section, in the order in which the sections are
    /// laid out, with the section's identifier and details.
    pub fn sections_do<F: FnMut(OutputSectionId, &SectionDetails)>(&self, mut cb: F)
        requires
            self.wf(),
            forall|id: OutputSectionId|
                id@ < self.num_sections() ==> #[trigger] call_requires(cb, (id, &self.details_of(id))),
        ensures
            forall|i: int|
                0 <= i < self.output_order().len() ==> call_ensures(
                    cb,
                    (#[trigger] self.output_order()[i], &self.details_of(self.output_order()[i])),
                    (),
                ),
    {
        let ghost f = cb;
        let order = self.sections_in_output_order();
        let mut i: usize = 0;
        while i < order.len()
            invariant
                cb == f,
                i <= order@.len(),
                self.wf(),
                order@ == self.output_order(),
                forall|id: OutputSectionId|
                    id@ < self.num_sections() ==> #[trigger] call_requires(cb, (id, &self.details_of(id))),
                forall|k: int|
                    0 <= k < i ==> call_ensures(cb, (#[trigger] order@[k], &self.details_of(order@[k])), ()),
            decreases order@.len() - i,
        {
            let id = order[i];
            proof {
                self.lemma_output_order_in_range(i as int);
            }
            let details = self.details(id);
            cb(id, &details);
            i = i + 1;
        }
    }

    /// Every section of the output order is a section of the table.
    pub proof fn lemma_output_order_in_range(&self, i: int)
        requires
            self.wf(),
            0 <= i < self.output_order().len(),
        ensures
            0 <= self.output_order()[i]@ < self.num_sections(),
    {
        let ro = self.ro_custom@;
        let ex = self.exec_custom@;
        let da = self.data_custom@;
        let all = self.custom_ids();
        if i < 9 {
        } else if i < 9 + ro.len() {
            assert(self.output_order()[i] == all[i - 9]);
        } else if i < 13 + ro.len() {
        } else if i < 13 + ro.len() + ex.len() {
            assert(self.output_order()[i] == all[i - 13]);
        } else if i < 15 + ro.len() + ex.len() {
        } else if i < 15 + ro.len() + ex.len() + da.len() {
            assert(self.output_order()[i] == all[i - 15]);
        } else if i < 18 + ro.len() + ex.len() + da.len() {
        } else {
            assert(self.output_order()[i] == all[i - 18]);
        }
    }

    /// All sections in the order in which they are laid out in the output.
    pub fn sections_in_output_order(&self) -> (r: Vec<OutputSectionId>)
        ensures
            r@ == self.output_order(),
    {
        let mut out: Vec<OutputSectionId> = Vec::new();
        out.push(headers());
        out.push(rodata());
        out.push(init_array());
        out.push(fini_array());
        out.push(preinit_array());
        out.push(shstrtab());
        out.push(symtab());
        out.push(strtab());
        out.push(rela_plt());
        append_ids(&mut out, &self.ro_custom);
        let ghost before = out@;
        out.push(plt());
        out.push(text());
        out.push(init());
        out.push(fini());
        append_ids(&mut out, &self.exec_custom);
        let ghost before = out@;
        out.push(got());
        out.push(data());
        append_ids(&mut out, &self.data_custom);
        let ghost before = out@;
        out.push(tdata());
        out.push(tbss());
        out.push(bss());
        append_ids(&mut out, &self.bss_custom);
        out
    }
}

/// Appends `more` to `out`.
fn append_ids(out: &mut Vec<OutputSectionId>, more: &Vec<OutputSectionId>)
    ensures
        final(out)@ == old(out)@ + more@,
{
    let mut i: usize = 0;
    while i < more.len()
        invariant
            i <= more@.len(),
            out@ == old(out)@ + more@.subrange(0, i as int),
        decreases more@.len() - i,
    {
        out.push(more[i]);
        i = i + 1;
    }
}

/// Whether two byte strings are the same.
pub fn bytes_equal(a: &[u8], b: &[u8]) -> (r: bool)
    ensures
        r == (a@ == b@),
{
    if a.len() != b.len() {
        return false;
    }
    let mut i: usize = 0;
    while i < a.len()
        invariant
            i <= a@.len(),
            a@.len() == b@.len(),
            forall|k: int| 0 <= k < i ==> a@[k] == b@[k],
        decreases a@.len() - i,
    {
        if a[i] != b[i] {
            return false;
        }
        i = i + 1;
    }
    assert(a@ =~= b@);
    true
}

} // verus!
