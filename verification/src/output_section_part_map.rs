//! A value for each part of each output section.

use crate::alignment::{
    default_is_fixed, highest_populated, highest_populated_below, is_default, is_exponent,
    Alignment, AlignmentMap, MAX_EXPONENT, NUM_ALIGNMENTS,
};
use crate::output_section_id::{
    bss, data, fini, fini_array, got, headers, init, init_array, min_alignment_exponent, plt,
    preinit_array, rela_plt, rodata, shstrtab, strtab, symtab, tbss, tdata, text, OutputSectionId,
    OutputSections, NUM_BUILT_IN_SECTIONS, NUM_GENERATED_SECTIONS, NUM_REGULAR_SECTIONS,
};
use crate::output_section_map::OutputSectionMap;
use vstd::prelude::*;
use vstd::std_specs::cmp::PartialEqSpec;
use vstd::std_specs::ops::AddSpec;

verus! {

/// A map from each part of each output section to a value. Sections are split
/// into parts in different ways: a section that is filled from input sections
/// has one part per alignment; the symbol table has one part for the local and
/// one for the global symbols; the other generated sections have one part.
#[derive(Clone, PartialEq, Eq, Debug)]
pub struct OutputSectionPartMap<T> {
    /// The regular sections, by ascending identifier: `regular[o]` belongs to
    /// the section with index `NUM_GENERATED_SECTIONS + o`.
    pub regular: Vec<AlignmentMap<T>>,
    pub file_headers: T,
    pub got: T,
    pub plt: T,
    pub symtab_locals: T,
    pub symtab_globals: T,
    pub symtab_strings: T,
    pub shstrtab: T,
    pub rela_plt: T,
}

/// The exponent of the alignment that is reported for the bucket with
/// exponent `e` of a section whose buckets are `buckets` and whose least
/// alignment has the exponent `min_exponent`: `e`, raised to the section's
/// least alignment, but no more than the highest populated bucket. Where no
/// bucket is populated, the section's least alignment.
pub open spec fn effective_exponent<T: Default + PartialEq>(
    buckets: Seq<T>,
    min_exponent: nat,
    e: int,
) -> nat {
    let highest = highest_populated(buckets);
    let max = if highest >= 0 {
        highest
    } else {
        min_exponent as int
    };
    let raised = if e >= min_exponent {
        e
    } else {
        min_exponent as int
    };
    if raised <= max {
        raised as nat
    } else {
        max as nat
    }
}

/// Calls `cb` once for each bucket of `alignment_map`, highest alignment
/// first, with the section, the alignment to report for the bucket and the
/// bucket's value, and collects what it returns under the bucket's alignment.
pub fn map_alignment_map<T: Default + PartialEq, U: Default, F: FnMut(OutputSectionId, Alignment, &T) -> U>(
    alignment_map: &AlignmentMap<T>,
    cb: &mut F,
    output_section_id: OutputSectionId,
) -> (out: AlignmentMap<U>)
    requires
        default_is_fixed::<T>(),
        forall|e: int| #[trigger]
            is_exponent(e) ==> call_requires(
                *old(cb),
                (
                    output_section_id,
                    Alignment::of(
                        effective_exponent(alignment_map@, min_alignment_exponent(output_section_id@), e),
                    ),
                    &alignment_map@[e],
                ),
            ),
    ensures
        *final(cb) == *old(cb),
        forall|e: int| #[trigger]
            is_exponent(e) ==> call_ensures(
                *old(cb),
                (
                    output_section_id,
                    Alignment::of(
                        effective_exponent(alignment_map@, min_alignment_exponent(output_section_id@), e),
                    ),
                    &alignment_map@[e],
                ),
                out@[e],
            ),
{
    let min_alignment = output_section_id.min_alignment();
    let max_alignment = match highest_populated_alignment(alignment_map) {
        Some(a) => a,
        None => min_alignment,
    };
    let mut out = AlignmentMap::<U>::default();
    let mut remaining: usize = NUM_ALIGNMENTS;
    while remaining > 0
        invariant
            remaining <= NUM_ALIGNMENTS,
            alignment_map@.len() == NUM_ALIGNMENTS,
            min_alignment@ == min_alignment_exponent(output_section_id@),
            max_alignment@ == if highest_populated(alignment_map@) >= 0 {
                highest_populated(alignment_map@)
            } else {
                min_alignment@ as int
            },
            *cb == *old(cb),
            forall|e: int| #[trigger]
                is_exponent(e) ==> call_requires(
                    *cb,
                    (
                        output_section_id,
                        Alignment::of(
                            effective_exponent(
                                alignment_map@,
                                min_alignment_exponent(output_section_id@),
                                e,
                            ),
                        ),
                        &alignment_map@[e],
                    ),
                ),
            forall|e: int| #[trigger]
                is_exponent(e) && e >= remaining ==> call_ensures(
                    *cb,
                    (
                        output_section_id,
                        Alignment::of(
                            effective_exponent(
                                alignment_map@,
                                min_alignment_exponent(output_section_id@),
                                e,
                            ),
                        ),
                        &alignment_map@[e],
                    ),
                    out@[e],
                ),
        decreases remaining,
    {
        remaining = remaining - 1;
        let alignment = Alignment::from_exponent(remaining as u8).unwrap();
        let reported = max_alignment.min(alignment.max(min_alignment));
        proof {
            assert(is_exponent(remaining as int));
            Alignment::lemma_view_of(reported);
        }
        let value = cb(output_section_id, reported, &alignment_map.values[remaining]);
        out.values[remaining] = value;
    }
    out
}

/// The highest alignment whose bucket differs from the default value, if any does.
pub fn highest_populated_alignment<T: Default + PartialEq>(alignment_map: &AlignmentMap<T>) -> (r: Option<
    Alignment,
>)
    requires
        default_is_fixed::<T>(),
    ensures
        match r {
            Some(a) => a@ == highest_populated(alignment_map@),
            None => highest_populated(alignment_map@) == -1,
        },
{
    let default_value = T::default();
    let mut remaining: usize = NUM_ALIGNMENTS;
    while remaining > 0
        invariant
            remaining <= NUM_ALIGNMENTS,
            alignment_map@.len() == NUM_ALIGNMENTS,
            default_is_fixed::<T>(),
            is_default(default_value),
            highest_populated(alignment_map@) == highest_populated_below(alignment_map@, remaining as int),
        decreases remaining,
    {
        remaining = remaining - 1;
        if alignment_map.values[remaining] != default_value {
            return Alignment::from_exponent(remaining as u8);
        }
    }
    None
}

impl<T> OutputSectionPartMap<T> {
    /// The number of sections that the map covers.
    pub open spec fn num_sections(&self) -> int {
        NUM_GENERATED_SECTIONS + self.regular@.len()
    }

    /// The number of sections that the map covers.
    pub fn len(&self) -> (r: usize)
        requires
            self.num_sections() <= usize::MAX,
        ensures
            r == self.num_sections(),
    {
        self.regular.len() + NUM_GENERATED_SECTIONS
    }

    /// The value for the part of the regular section `output_section_id` with
    /// the given alignment.
    pub fn regular(&self, output_section_id: OutputSectionId, alignment: Alignment) -> (r: &T)
        requires
            NUM_GENERATED_SECTIONS <= output_section_id@ < self.num_sections(),
        ensures
            *r == self.regular@[output_section_id.regular_offset()]@[alignment@ as int],
    {
        self.regular[output_section_id.as_usize() - NUM_GENERATED_SECTIONS].get(alignment)
    }

    /// The value for the part of the regular section `output_section_id` with
    /// the given alignment, for writing. Nothing else can change.
    pub fn regular_mut(&mut self, output_section_id: OutputSectionId, alignment: Alignment) -> (r: &mut T)
        requires
            NUM_GENERATED_SECTIONS <= output_section_id@ < old(self).num_sections(),
        ensures
            *r == old(self).regular@[output_section_id.regular_offset()]@[alignment@ as int],
            final(self).regular@.len() == old(self).regular@.len(),
            final(self).regular@[output_section_id.regular_offset()]@
                == old(self).regular@[output_section_id.regular_offset()]@.update(
                alignment@ as int,
                *final(r),
            ),
            forall|o: int|
                0 <= o < old(self).regular@.len() && o != output_section_id.regular_offset()
                    ==> final(self).regular@[o] == old(self).regular@[o],
            final(self).file_headers == old(self).file_headers,
            final(self).got == old(self).got,
            final(self).plt == old(self).plt,
            final(self).symtab_locals == old(self).symtab_locals,
            final(self).symtab_globals == old(self).symtab_globals,
            final(self).symtab_strings == old(self).symtab_strings,
            final(self).shstrtab == old(self).shstrtab,
            final(self).rela_plt == old(self).rela_plt,
    {
        self.regular[output_section_id.as_usize() - NUM_GENERATED_SECTIONS].get_mut(alignment)
    }

    /// Whether every part holds a default value.
    pub open spec fn all_default(&self) -> bool
        where T: Default
    {
        &&& is_default(self.file_headers)
        &&& is_default(self.got)
        &&& is_default(self.plt)
        &&& is_default(self.symtab_locals)
        &&& is_default(self.symtab_globals)
        &&& is_default(self.symtab_strings)
        &&& is_default(self.shstrtab)
        &&& is_default(self.rela_plt)
        &&& forall|o: int, e: int|
            0 <= o < self.regular@.len() && is_exponent(e) ==> is_default(#[trigger] self.regular@[o]@[e])
    }
}

impl<T: Default> OutputSectionPartMap<T> {
    /// A map for `size` sections in which every part holds the default value.
    pub fn with_size(size: usize) -> (r: Self)
        requires
            size >= NUM_GENERATED_SECTIONS,
        ensures
            r.num_sections() == size,
            r.all_default(),
    {
        let mut regular: Vec<AlignmentMap<T>> = Vec::new();
        extend_with_default(&mut regular, size - NUM_GENERATED_SECTIONS);
        Self {
            regular,
            file_headers: Default::default(),
            got: Default::default(),
            plt: Default::default(),
            symtab_locals: Default::default(),
            symtab_globals: Default::default(),
            symtab_strings: Default::default(),
            shstrtab: Default::default(),
            rela_plt: Default::default(),
        }
    }

    /// Makes the map cover `num_sections` sections. The sections that it
    /// covered before and still covers keep their values; those that are new
    /// hold the default value in every part.
    pub fn resize(&mut self, num_sections: usize)
        requires
            num_sections >= NUM_GENERATED_SECTIONS,
        ensures
            final(self).num_sections() == num_sections,
            forall|o: int|
                0 <= o < old(self).regular@.len() && o < final(self).regular@.len()
                    ==> #[trigger] final(self).regular@[o] == old(self).regular@[o],
            forall|o: int, e: int|
                old(self).regular@.len() <= o < final(self).regular@.len() && is_exponent(e)
                    ==> is_default(#[trigger] final(self).regular@[o]@[e]),
            final(self).file_headers == old(self).file_headers,
            final(self).got == old(self).got,
            final(self).plt == old(self).plt,
            final(self).symtab_locals == old(self).symtab_locals,
            final(self).symtab_globals == old(self).symtab_globals,
            final(self).symtab_strings == old(self).symtab_strings,
            final(self).shstrtab == old(self).shstrtab,
            final(self).rela_plt == old(self).rela_plt,
    {
        let target = num_sections - NUM_GENERATED_SECTIONS;
        if self.regular.len() > target {
            self.regular.truncate(target);
        } else {
            extend_with_default(&mut self.regular, target);
        }
    }
}

/// Appends maps of default values to `regular` until it holds `target` maps.
fn extend_with_default<T: Default>(regular: &mut Vec<AlignmentMap<T>>, target: usize)
    requires
        old(regular)@.len() <= target,
    ensures
        final(regular)@.len() == target,
        forall|o: int| 0 <= o < old(regular)@.len() ==> #[trigger] final(regular)@[o] == old(regular)@[o],
        forall|o: int, e: int|
            old(regular)@.len() <= o < target && is_exponent(e) ==> is_default(
                #[trigger] final(regular)@[o]@[e],
            ),
{
    while regular.len() < target
        invariant
            old(regular)@.len() <= regular@.len() <= target,
            forall|o: int| 0 <= o < old(regular)@.len() ==> #[trigger] regular@[o] == old(regular)@[o],
            forall|o: int, e: int|
                old(regular)@.len() <= o < regular@.len() && is_exponent(e) ==> is_default(
                    #[trigger] regular@[o]@[e],
                ),
        decreases target - regular@.len(),
    {
        regular.push(AlignmentMap::default());
    }
}

/// The alignment that is reported for a generated section: its least alignment.
pub open spec fn fixed_alignment(index: int) -> Alignment {
    Alignment::of(min_alignment_exponent(index))
}

/// The alignment that is reported for a generated section.
fn least_alignment(id: OutputSectionId) -> (r: Alignment)
    ensures
        r == fixed_alignment(id@),
{
    let alignment = id.min_alignment();
    proof {
        Alignment::lemma_view_of(alignment);
    }
    alignment
}

/// The identifier of the regular section at position `o` among the regular sections.
pub open spec fn regular_id(o: int) -> OutputSectionId {
    OutputSectionId((o + NUM_GENERATED_SECTIONS) as u32)
}

impl<T: Default + PartialEq> OutputSectionPartMap<T> {
    /// The alignment that is reported for the bucket with exponent `e` of the
    /// regular section at position `o`.
    pub open spec fn regular_alignment(&self, o: int, e: int) -> Alignment {
        Alignment::of(
            effective_exponent(self.regular@[o]@, min_alignment_exponent(o + NUM_GENERATED_SECTIONS), e),
        )
    }

    /// Whether `cb` accepts what it is called with for each bucket of the
    /// regular section at position `o`.
    pub open spec fn regular_callable<U, F: FnMut(OutputSectionId, Alignment, &T) -> U>(
        &self,
        cb: F,
        o: int,
    ) -> bool {
        forall|e: int| #[trigger]
            is_exponent(e) ==> call_requires(
                cb,
                (regular_id(o), self.regular_alignment(o, e), &self.regular@[o]@[e]),
            )
    }

    /// Whether each bucket of `out[o]` holds what `cb` may return for the
    /// same bucket of the regular section at position `o`.
    pub open spec fn regular_mapped<U, F: FnMut(OutputSectionId, Alignment, &T) -> U>(
        &self,
        cb: F,
        out: Seq<AlignmentMap<U>>,
        o: int,
    ) -> bool {
        forall|e: int| #[trigger]
            is_exponent(e) ==> call_ensures(
                cb,
                (regular_id(o), self.regular_alignment(o, e), &self.regular@[o]@[e]),
                out[o]@[e],
            )
    }

    /// Maps the buckets of the regular section `id` and stores the result in `out`.
    pub fn map_regular<U: Default, F: FnMut(OutputSectionId, Alignment, &T) -> U>(
        &self,
        id: OutputSectionId,
        cb: &mut F,
        out: &mut Vec<AlignmentMap<U>>,
    )
        requires
            NUM_GENERATED_SECTIONS <= id@ < self.num_sections(),
            old(out)@.len() == self.regular@.len(),
            default_is_fixed::<T>(),
            self.regular_callable(*old(cb), id.regular_offset()),
        ensures
            *final(cb) == *old(cb),
            final(out)@.len() == old(out)@.len(),
            forall|o: int|
                0 <= o < old(out)@.len() && o != id.regular_offset() ==> #[trigger] final(out)@[o] == old(out)@[o],
            self.regular_mapped(*old(cb), final(out)@, id.regular_offset()),
    {
        let offset = id.as_usize() - NUM_GENERATED_SECTIONS;
        let alignment_map = &self.regular[offset];
        let mapped = map_alignment_map(alignment_map, cb, id);
        out[offset] = mapped;
    }
}

impl<T: Default + PartialEq> OutputSectionPartMap<T> {
    /// Maps the buckets of each of the custom sections `ids`, in their order,
    /// and stores the results in `out`.
    fn map_custom<U: Default, F: FnMut(OutputSectionId, Alignment, &T) -> U>(
        &self,
        ids: &Vec<OutputSectionId>,
        num_sections: usize,
        cb: &mut F,
        out: &mut Vec<AlignmentMap<U>>,
    )
        requires
            num_sections <= self.num_sections(),
            forall|k: int|
                0 <= k < ids@.len() ==> NUM_GENERATED_SECTIONS <= (#[trigger] ids@[k])@ < num_sections,
            old(out)@.len() == self.regular@.len(),
            default_is_fixed::<T>(),
            forall|o: int|
                0 <= o < num_sections - NUM_GENERATED_SECTIONS ==> #[trigger] self.regular_callable(
                    *old(cb),
                    o,
                ),
        ensures
            *final(cb) == *old(cb),
            final(out)@.len() == old(out)@.len(),
            forall|o: int|
                num_sections - NUM_GENERATED_SECTIONS <= o < old(out)@.len() ==> #[trigger] final(out)@[o]
                    == old(out)@[o],
            forall|o: int|
                0 <= o < old(out)@.len() && #[trigger] self.regular_mapped(*old(cb), old(out)@, o)
                    ==> self.regular_mapped(*old(cb), final(out)@, o),
            forall|k: int|
                0 <= k < ids@.len() ==> self.regular_mapped(
                    *old(cb),
                    final(out)@,
                    (#[trigger] ids@[k]).regular_offset(),
                ),
    {
        let mut i: usize = 0;
        while i < ids.len()
            invariant
                i <= ids@.len(),
                num_sections <= self.num_sections(),
                forall|k: int|
                    0 <= k < ids@.len() ==> NUM_GENERATED_SECTIONS <= (#[trigger] ids@[k])@ < num_sections,
                out@.len() == self.regular@.len(),
                out@.len() == old(out)@.len(),
                default_is_fixed::<T>(),
                *cb == *old(cb),
                forall|o: int|
                    0 <= o < num_sections - NUM_GENERATED_SECTIONS ==> #[trigger] self.regular_callable(
                        *cb,
                        o,
                    ),
                forall|o: int|
                    num_sections - NUM_GENERATED_SECTIONS <= o < out@.len() ==> #[trigger] out@[o] == old(out)@[o],
                forall|o: int|
                    0 <= o < out@.len() && #[trigger] self.regular_mapped(*cb, old(out)@, o)
                        ==> self.regular_mapped(*cb, out@, o),
                forall|k: int|
                    0 <= k < i ==> self.regular_mapped(*cb, out@, (#[trigger] ids@[k]).regular_offset()),
            decreases ids@.len() - i,
        {
            let id = ids[i];
            self.map_regular(id, cb, out);
            i = i + 1;
        }
    }

    /// Calls `cb` once for each part of each section that `output_sections`
    /// knows, in the order in which the parts are laid out in the output, and
    /// returns the map that holds, for each part, what `cb` returned for it.
    ///
    /// `cb` is given the section, the alignment to report for the part, and the
    /// part's value. The order is that of `part_order`. Within a regular
    /// section the buckets come by descending alignment. A regular section that
    /// `output_sections` does not know keeps default values.
    pub fn output_order_map<U: Default, F: FnMut(OutputSectionId, Alignment, &T) -> U>(
        &self,
        output_sections: &OutputSections,
        mut cb: F,
    ) -> (out: OutputSectionPartMap<U>)
        requires
            output_sections.wf(),
            output_sections.num_sections() <= self.num_sections(),
            default_is_fixed::<T>(),
            call_requires(cb, (OutputSectionId(0), fixed_alignment(0), &self.file_headers)),
            call_requires(cb, (OutputSectionId(1), fixed_alignment(1), &self.shstrtab)),
            call_requires(cb, (OutputSectionId(2), fixed_alignment(2), &self.symtab_locals)),
            call_requires(cb, (OutputSectionId(2), fixed_alignment(2), &self.symtab_globals)),
            call_requires(cb, (OutputSectionId(3), fixed_alignment(3), &self.symtab_strings)),
            call_requires(cb, (OutputSectionId(4), fixed_alignment(4), &self.got)),
            call_requires(cb, (OutputSectionId(5), fixed_alignment(5), &self.plt)),
            call_requires(cb, (OutputSectionId(6), fixed_alignment(6), &self.rela_plt)),
            forall|o: int|
                0 <= o < output_sections.num_sections() - NUM_GENERATED_SECTIONS
                    ==> #[trigger] self.regular_callable(cb, o),
        ensures
            out.regular@.len() == self.regular@.len(),
            call_ensures(cb, (OutputSectionId(0), fixed_alignment(0), &self.file_headers), out.file_headers),
            call_ensures(cb, (OutputSectionId(1), fixed_alignment(1), &self.shstrtab), out.shstrtab),
            call_ensures(
                cb,
                (OutputSectionId(2), fixed_alignment(2), &self.symtab_locals),
                out.symtab_locals,
            ),
            call_ensures(
                cb,
                (OutputSectionId(2), fixed_alignment(2), &self.symtab_globals),
                out.symtab_globals,
            ),
            call_ensures(
                cb,
                (OutputSectionId(3), fixed_alignment(3), &self.symtab_strings),
                out.symtab_strings,
            ),
            call_ensures(cb, (OutputSectionId(4), fixed_alignment(4), &self.got), out.got),
            call_ensures(cb, (OutputSectionId(5), fixed_alignment(5), &self.plt), out.plt),
            call_ensures(cb, (OutputSectionId(6), fixed_alignment(6), &self.rela_plt), out.rela_plt),
            forall|o: int|
                0 <= o < output_sections.num_sections() - NUM_GENERATED_SECTIONS
                    ==> #[trigger] self.regular_mapped(cb, out.regular@, o),
            forall|o: int, e: int|
                output_sections.num_sections() - NUM_GENERATED_SECTIONS <= o < self.regular@.len()
                    && is_exponent(e) ==> is_default(#[trigger] out.regular@[o]@[e]),
    {
        let num_sections = output_sections.len();
        let mut regular: Vec<AlignmentMap<U>> = Vec::new();
        extend_with_default(&mut regular, self.regular.len());
        let file_headers = cb(headers(), least_alignment(headers()), &self.file_headers);
        self.map_built_in(rodata(), &mut cb, &mut regular);
        self.map_built_in(init_array(), &mut cb, &mut regular);
        self.map_built_in(fini_array(), &mut cb, &mut regular);
        self.map_built_in(preinit_array(), &mut cb, &mut regular);
        let shstrtab = cb(shstrtab(), least_alignment(shstrtab()), &self.shstrtab);
        let symtab_locals = cb(symtab(), least_alignment(symtab()), &self.symtab_locals);
        let symtab_globals = cb(symtab(), least_alignment(symtab()), &self.symtab_globals);
        let symtab_strings = cb(strtab(), least_alignment(strtab()), &self.symtab_strings);
        let rela_plt = cb(rela_plt(), least_alignment(rela_plt()), &self.rela_plt);
        proof {
            output_sections.lemma_custom_lists();
        }
        self.map_custom(&output_sections.ro_custom, num_sections, &mut cb, &mut regular);
        let plt = cb(plt(), least_alignment(plt()), &self.plt);
        self.map_built_in(text(), &mut cb, &mut regular);
        self.map_built_in(init(), &mut cb, &mut regular);
        self.map_built_in(fini(), &mut cb, &mut regular);
        self.map_custom(&output_sections.exec_custom, num_sections, &mut cb, &mut regular);
        let got = cb(got(), least_alignment(got()), &self.got);
        self.map_built_in(data(), &mut cb, &mut regular);
        self.map_custom(&output_sections.data_custom, num_sections, &mut cb, &mut regular);
        self.map_built_in(tdata(), &mut cb, &mut regular);
        self.map_built_in(tbss(), &mut cb, &mut regular);
        self.map_built_in(bss(), &mut cb, &mut regular);
        self.map_custom(&output_sections.bss_custom, num_sections, &mut cb, &mut regular);
        proof {
            assert forall|o: int|
                0 <= o < output_sections.num_sections() - NUM_GENERATED_SECTIONS implies #[trigger] self.regular_mapped(
                cb,
                regular@,
                o,
            ) by {
                if o >= 11 {
                    output_sections.lemma_custom_section_listed(regular_id(o));
                }
            }
        }
        OutputSectionPartMap {
            regular,
            file_headers,
            got,
            plt,
            symtab_locals,
            symtab_globals,
            symtab_strings,
            shstrtab,
            rela_plt,
        }
    }

    /// Maps the buckets of the built-in regular section `id` and stores the
    /// result in `out`. What was mapped before stays mapped.
    fn map_built_in<U: Default, F: FnMut(OutputSectionId, Alignment, &T) -> U>(
        &self,
        id: OutputSectionId,
        cb: &mut F,
        out: &mut Vec<AlignmentMap<U>>,
    )
        requires
            NUM_GENERATED_SECTIONS <= id@ < NUM_BUILT_IN_SECTIONS <= self.num_sections(),
            old(out)@.len() == self.regular@.len(),
            default_is_fixed::<T>(),
            self.regular_callable(*old(cb), id.regular_offset()),
        ensures
            *final(cb) == *old(cb),
            final(out)@.len() == old(out)@.len(),
            forall|o: int|
                NUM_REGULAR_SECTIONS <= o < old(out)@.len() ==> #[trigger] final(out)@[o] == old(out)@[o],
            forall|o: int|
                0 <= o < old(out)@.len() && #[trigger] self.regular_mapped(*old(cb), old(out)@, o)
                    ==> self.regular_mapped(*old(cb), final(out)@, o),
            self.regular_mapped(*old(cb), final(out)@, id.regular_offset()),
    {
        self.map_regular(id, cb, out);
    }
}

impl<T: Default + PartialEq> OutputSectionPartMap<T> {
    /// Whether each bucket of `out[o]` holds what `cb` may return for the
    /// same bucket of the regular section at position `o`.
    pub open spec fn regular_mapped_plain<U, F: Fn(OutputSectionId, &T) -> U>(
        &self,
        cb: F,
        out: Seq<AlignmentMap<U>>,
        o: int,
    ) -> bool {
        forall|e: int| #[trigger]
            is_exponent(e) ==> call_ensures(cb, (regular_id(o), &self.regular@[o]@[e]), out[o]@[e])
    }

    /// Calls `cb` once for each part of each section that `output_sections`
    /// knows, with the section and the part's value, and returns the map that
    /// holds, for each part, what `cb` returned for it. A regular section that
    /// `output_sections` does not know keeps default values.
    pub fn map<U: Default, F: Fn(OutputSectionId, &T) -> U>(
        &self,
        output_sections: &OutputSections,
        cb: F,
    ) -> (out: OutputSectionPartMap<U>)
        requires
            output_sections.wf(),
            output_sections.num_sections() <= self.num_sections(),
            default_is_fixed::<T>(),
            call_requires(cb, (OutputSectionId(0), &self.file_headers)),
            call_requires(cb, (OutputSectionId(1), &self.shstrtab)),
            call_requires(cb, (OutputSectionId(2), &self.symtab_locals)),
            call_requires(cb, (OutputSectionId(2), &self.symtab_globals)),
            call_requires(cb, (OutputSectionId(3), &self.symtab_strings)),
            call_requires(cb, (OutputSectionId(4), &self.got)),
            call_requires(cb, (OutputSectionId(5), &self.plt)),
            call_requires(cb, (OutputSectionId(6), &self.rela_plt)),
            forall|o: int, e: int|
                0 <= o < output_sections.num_sections() - NUM_GENERATED_SECTIONS && is_exponent(e)
                    ==> call_requires(cb, (regular_id(o), &#[trigger] self.regular@[o]@[e])),
        ensures
            out.regular@.len() == self.regular@.len(),
            call_ensures(cb, (OutputSectionId(0), &self.file_headers), out.file_headers),
            call_ensures(cb, (OutputSectionId(1), &self.shstrtab), out.shstrtab),
            call_ensures(cb, (OutputSectionId(2), &self.symtab_locals), out.symtab_locals),
            call_ensures(cb, (OutputSectionId(2), &self.symtab_globals), out.symtab_globals),
            call_ensures(cb, (OutputSectionId(3), &self.symtab_strings), out.symtab_strings),
            call_ensures(cb, (OutputSectionId(4), &self.got), out.got),
            call_ensures(cb, (OutputSectionId(5), &self.plt), out.plt),
            call_ensures(cb, (OutputSectionId(6), &self.rela_plt), out.rela_plt),
            forall|o: int|
                0 <= o < output_sections.num_sections() - NUM_GENERATED_SECTIONS
                    ==> #[trigger] self.regular_mapped_plain(cb, out.regular@, o),
            forall|o: int, e: int|
                output_sections.num_sections() - NUM_GENERATED_SECTIONS <= o < self.regular@.len()
                    && is_exponent(e) ==> is_default(#[trigger] out.regular@[o]@[e]),
    {
        let ghost accepts: spec_fn(OutputSectionId, &T) -> bool = |id: OutputSectionId, v: &T|
            call_requires(cb, (id, v));
        let ghost produces: spec_fn(OutputSectionId, &T, U) -> bool = |id: OutputSectionId, v: &T, u: U|
            call_ensures(cb, (id, v), u);
        let with_alignment = |section_id: OutputSectionId, _alignment: Alignment, v: &T| -> (u: U)
            requires
                accepts(section_id, v),
            ensures
                produces(section_id, v, u),
            {
                cb(section_id, v)
            };
        let out = self.output_order_map(output_sections, with_alignment);
        proof {
            assert forall|o: int|
                0 <= o < output_sections.num_sections()
                    - NUM_GENERATED_SECTIONS implies #[trigger] self.regular_mapped_plain(
                cb,
                out.regular@,
                o,
            ) by {
                assert(self.regular_mapped(with_alignment, out.regular@, o));
            }
        }
        out
    }
}

/// Whether `o` is the position of one of the first `sections` regular
/// sections and `e` the exponent of one of its buckets.
pub open spec fn is_bucket(o: int, e: int, sections: int) -> bool {
    0 <= o < sections && is_exponent(e)
}

/// The smaller of two lengths.
pub open spec fn shorter(a: int, b: int) -> int {
    if a <= b {
        a
    } else {
        b
    }
}

impl<T> OutputSectionPartMap<T> {
    /// Whether `mine` is the value of a part of `self` of which `other` has
    /// the same part, with the value `theirs`.
    pub open spec fn is_pair<U>(&self, other: &OutputSectionPartMap<U>, mine: T, theirs: U) -> bool {
        ||| mine == self.file_headers && theirs == other.file_headers
        ||| mine == self.got && theirs == other.got
        ||| mine == self.plt && theirs == other.plt
        ||| mine == self.symtab_locals && theirs == other.symtab_locals
        ||| mine == self.symtab_globals && theirs == other.symtab_globals
        ||| mine == self.symtab_strings && theirs == other.symtab_strings
        ||| mine == self.shstrtab && theirs == other.shstrtab
        ||| mine == self.rela_plt && theirs == other.rela_plt
        ||| exists|o: int, e: int| #[trigger]
            is_bucket(o, e, shorter(self.regular@.len() as int, other.regular@.len() as int)) && mine
                == self.regular@[o]@[e] && theirs == other.regular@[o]@[e]
    }

    /// Calls `cb` once for each part that both maps have, with the value of
    /// `self` for writing and the value of `other` for reading, and returns
    /// the map that holds, for each such part, what `cb` returned for it. The
    /// regular sections come first, by ascending identifier and alignment, then
    /// the other parts. A section that `other` lacks keeps its values and is
    /// missing in the result.
    pub fn mut_with_map<U, V: Default, F: FnMut(&mut T, &U) -> V>(
        &mut self,
        other: &OutputSectionPartMap<U>,
        mut cb: F,
    ) -> (out: OutputSectionPartMap<V>)
        requires
            forall|t: &mut T, u: &U|
                old(self).is_pair(other, mut_ref_current(t), *u) ==> #[trigger] call_requires(cb, (t, u)),
        ensures
            final(self).regular@.len() == old(self).regular@.len(),
            out.regular@.len() == shorter(old(self).regular@.len() as int, other.regular@.len() as int),
            forall|o: int, e: int| #[trigger]
                is_bucket(o, e, out.regular@.len() as int) ==> exists|t: &mut T|
                    #![trigger call_ensures(cb, (t, &other.regular@[o]@[e]), out.regular@[o]@[e])]
                    mut_ref_current(t) == old(self).regular@[o]@[e] && mut_ref_future(t)
                        == final(self).regular@[o]@[e] && call_ensures(
                        cb,
                        (t, &other.regular@[o]@[e]),
                        out.regular@[o]@[e],
                    ),
            forall|o: int|
                out.regular@.len() <= o < old(self).regular@.len() ==> #[trigger] final(self).regular@[o]
                    == old(self).regular@[o],
            exists|t: &mut T|
                #![trigger call_ensures(cb, (t, &other.file_headers), out.file_headers)]
                mut_ref_current(t) == old(self).file_headers && mut_ref_future(t) == final(self).file_headers
                    && call_ensures(cb, (t, &other.file_headers), out.file_headers),
            exists|t: &mut T|
                #![trigger call_ensures(cb, (t, &other.got), out.got)]
                mut_ref_current(t) == old(self).got && mut_ref_future(t) == final(self).got
                    && call_ensures(cb, (t, &other.got), out.got),
            exists|t: &mut T|
                #![trigger call_ensures(cb, (t, &other.plt), out.plt)]
                mut_ref_current(t) == old(self).plt && mut_ref_future(t) == final(self).plt
                    && call_ensures(cb, (t, &other.plt), out.plt),
            exists|t: &mut T|
                #![trigger call_ensures(cb, (t, &other.symtab_locals), out.symtab_locals)]
                mut_ref_current(t) == old(self).symtab_locals && mut_ref_future(t) == final(self).symtab_locals
                    && call_ensures(cb, (t, &other.symtab_locals), out.symtab_locals),
            exists|t: &mut T|
                #![trigger call_ensures(cb, (t, &other.symtab_globals), out.symtab_globals)]
                mut_ref_current(t) == old(self).symtab_globals && mut_ref_future(t)
                    == final(self).symtab_globals && call_ensures(cb, (t, &other.symtab_globals), out.symtab_globals),
            exists|t: &mut T|
                #![trigger call_ensures(cb, (t, &other.symtab_strings), out.symtab_strings)]
                mut_ref_current(t) == old(self).symtab_strings && mut_ref_future(t)
                    == final(self).symtab_strings && call_ensures(cb, (t, &other.symtab_strings), out.symtab_strings),
            exists|t: &mut T|
                #![trigger call_ensures(cb, (t, &other.shstrtab), out.shstrtab)]
                mut_ref_current(t) == old(self).shstrtab && mut_ref_future(t) == final(self).shstrtab
                    && call_ensures(cb, (t, &other.shstrtab), out.shstrtab),
            exists|t: &mut T|
                #![trigger call_ensures(cb, (t, &other.rela_plt), out.rela_plt)]
                mut_ref_current(t) == old(self).rela_plt && mut_ref_future(t) == final(self).rela_plt
                    && call_ensures(cb, (t, &other.rela_plt), out.rela_plt),
    {
        let mut regular: Vec<AlignmentMap<V>> = Vec::new();
        let sections = if self.regular.len() <= other.regular.len() {
            self.regular.len()
        } else {
            other.regular.len()
        };
        let mut done: usize = 0;
        let ghost initial_cb = cb;
        while done < sections
            invariant
                done <= sections,
                cb == initial_cb,
                sections == shorter(old(self).regular@.len() as int, other.regular@.len() as int),
                self.regular@.len() == old(self).regular@.len(),
                regular@.len() == done,
                self.file_headers == old(self).file_headers,
                self.got == old(self).got,
                self.plt == old(self).plt,
                self.symtab_locals == old(self).symtab_locals,
                self.symtab_globals == old(self).symtab_globals,
                self.symtab_strings == old(self).symtab_strings,
                self.shstrtab == old(self).shstrtab,
                self.rela_plt == old(self).rela_plt,
                forall|t: &mut T, u: &U|
                    old(self).is_pair(other, mut_ref_current(t), *u) ==> #[trigger] call_requires(
                        cb,
                        (t, u),
                    ),
                forall|o: int| done <= o < self.regular@.len() ==> #[trigger] self.regular@[o] == old(self).regular@[o],
                forall|o: int, e: int| #[trigger]
                    is_bucket(o, e, done as int) ==> exists|t: &mut T|
                        #![trigger call_ensures(cb, (t, &other.regular@[o]@[e]), regular@[o]@[e])]
                        mut_ref_current(t) == old(self).regular@[o]@[e] && mut_ref_future(t)
                            == self.regular@[o]@[e] && call_ensures(
                            cb,
                            (t, &other.regular@[o]@[e]),
                            regular@[o]@[e],
                        ),
            decreases sections - done,
        {
            let ghost regular_before = regular@;
            proof {
                assert forall|t: &mut T, u: &U|
                    (exists|e: int|
                        is_exponent(e) && mut_ref_current(t) == #[trigger] self.regular@[done as int]@[e]
                            && *u == other.regular@[done as int]@[e]) implies #[trigger] call_requires(
                    cb,
                    (t, u),
                ) by {
                    let e = choose|e: int|
                        is_exponent(e) && mut_ref_current(t) == #[trigger] self.regular@[done as int]@[e]
                            && *u == other.regular@[done as int]@[e];
                    assert(is_bucket(done as int, e, sections as int));
                }
            }
            let zipped = self.regular[done].mut_zip(&other.regular[done], &mut cb);
            regular.push(zipped);
            proof {
                assert forall|o: int, e: int| #[trigger] is_bucket(o, e, done + 1) implies exists|
                    t: &mut T,
                |
                    #![trigger call_ensures(cb, (t, &other.regular@[o]@[e]), regular@[o]@[e])]
                    mut_ref_current(t) == old(self).regular@[o]@[e] && mut_ref_future(t)
                        == self.regular@[o]@[e] && call_ensures(
                        cb,
                        (t, &other.regular@[o]@[e]),
                        regular@[o]@[e],
                    ) by {
                    if o < done {
                        assert(is_bucket(o, e, done as int));
                        assert(regular@[o] == regular_before[o]);
                    } else {
                        assert(regular@[o] == zipped);
                    }
                }
            }
            done = done + 1;
        }
        let file_headers = cb(&mut self.file_headers, &other.file_headers);
        let got = cb(&mut self.got, &other.got);
        let plt = cb(&mut self.plt, &other.plt);
        let symtab_locals = cb(&mut self.symtab_locals, &other.symtab_locals);
        let symtab_globals = cb(&mut self.symtab_globals, &other.symtab_globals);
        let symtab_strings = cb(&mut self.symtab_strings, &other.symtab_strings);
        let shstrtab = cb(&mut self.shstrtab, &other.shstrtab);
        let rela_plt = cb(&mut self.rela_plt, &other.rela_plt);
        let out = OutputSectionPartMap {
            regular,
            file_headers,
            got,
            plt,
            symtab_locals,
            symtab_globals,
            symtab_strings,
            shstrtab,
            rela_plt,
        };
        proof {
            assert(out.file_headers == file_headers);
            assert(out.got == got);
            assert(out.plt == plt);
            assert(out.symtab_locals == symtab_locals);
            assert(out.symtab_globals == symtab_globals);
            assert(out.symtab_strings == symtab_strings);
            assert(out.shstrtab == shstrtab);
            assert(out.rela_plt == rela_plt);
        }
        out
    }
}

/// Whether `merged` may be what `cb` returns for a slice that holds `parts`.
pub open spec fn merged_from<T, U, F: FnMut(&[T]) -> U>(cb: F, parts: Seq<T>, merged: U) -> bool {
    exists|s: &[T]| s@ == parts && #[trigger] call_ensures(cb, (s,), merged)
}

impl<T> OutputSectionPartMap<T> {
    /// The values of the parts of the section with index `i`, in the order in
    /// which the section is split: for a regular section the buckets by
    /// ascending alignment, for the symbol table the local symbols and then
    /// the global ones.
    pub open spec fn section_parts(&self, i: int) -> Seq<T> {
        if i == 0 {
            seq![self.file_headers]
        } else if i == 1 {
            seq![self.shstrtab]
        } else if i == 2 {
            seq![self.symtab_locals, self.symtab_globals]
        } else if i == 3 {
            seq![self.symtab_strings]
        } else if i == 4 {
            seq![self.got]
        } else if i == 5 {
            seq![self.plt]
        } else if i == 6 {
            seq![self.rela_plt]
        } else {
            self.regular@[i - NUM_GENERATED_SECTIONS]@
        }
    }
}

impl<T: Copy> OutputSectionPartMap<T> {
    /// Merges the parts of each section into one value: calls `cb` once for
    /// each section, by ascending identifier, with the values of the section's
    /// parts, and returns the table that holds, at the section's index, what
    /// `cb` returned for it.
    pub fn merge_parts<U: Default + Copy, F: FnMut(&[T]) -> U>(&self, mut cb: F) -> (out: OutputSectionMap<U>)
        requires
            forall|s: &[T]|
                (exists|i: int| 0 <= i < self.num_sections() && s@ == #[trigger] self.section_parts(i))
                    ==> #[trigger] call_requires(cb, (s,)),
        ensures
            out@.len() == self.num_sections(),
            forall|i: int|
                0 <= i < self.num_sections() ==> merged_from(cb, self.section_parts(i), #[trigger] out@[i]),
    {
        let ghost f = cb;
        let mut values_out: Vec<U> = Vec::new();
        let headers = [self.file_headers];
        assert(headers@ =~= self.section_parts(0));
        values_out.push(cb(headers.as_slice()));
        let shstrtab = [self.shstrtab];
        assert(shstrtab@ =~= self.section_parts(1));
        values_out.push(cb(shstrtab.as_slice()));
        let symtab = [self.symtab_locals, self.symtab_globals];
        assert(symtab@ =~= self.section_parts(2));
        values_out.push(cb(symtab.as_slice()));
        let strtab = [self.symtab_strings];
        assert(strtab@ =~= self.section_parts(3));
        values_out.push(cb(strtab.as_slice()));
        let got = [self.got];
        assert(got@ =~= self.section_parts(4));
        values_out.push(cb(got.as_slice()));
        let plt = [self.plt];
        assert(plt@ =~= self.section_parts(5));
        values_out.push(cb(plt.as_slice()));
        let rela_plt = [self.rela_plt];
        assert(rela_plt@ =~= self.section_parts(6));
        values_out.push(cb(rela_plt.as_slice()));
        let mut o: usize = 0;
        while o < self.regular.len()
            invariant
                o <= self.regular@.len(),
                cb == f,
                values_out@.len() == NUM_GENERATED_SECTIONS + o,
                forall|s: &[T]|
                    (exists|i: int| 0 <= i < self.num_sections() && s@ == #[trigger] self.section_parts(i))
                        ==> #[trigger] call_requires(cb, (s,)),
                forall|i: int|
                    0 <= i < values_out@.len() ==> merged_from(
                        cb,
                        self.section_parts(i),
                        #[trigger] values_out@[i],
                    ),
            decreases self.regular@.len() - o,
        {
            let parts = self.regular[o].raw_values();
            assert(parts@ == self.section_parts(o + NUM_GENERATED_SECTIONS));
            let merged = cb(parts);
            values_out.push(merged);
            o = o + 1;
        }
        OutputSectionMap::from_values(values_out)
    }
}

/// Whether `sum` is what adding `rhs` to a default value gives.
pub open spec fn added_to_default<T: core::ops::Add<Output = T> + Default>(rhs: T, sum: T) -> bool {
    exists|d: T| #[trigger] is_default(d) && sum == d.add_spec(rhs)
}

/// The larger of two lengths.
pub open spec fn longer(a: int, b: int) -> int {
    if a >= b {
        a
    } else {
        b
    }
}

impl<T: core::ops::Add<Output = T> + Copy + Default> OutputSectionPartMap<T> {
    /// Whether each part of `rhs` can be added to the same part of `self`, or,
    /// where `self` lacks the section, to a default value.
    pub open spec fn can_merge(&self, rhs: &Self) -> bool {
        &&& T::obeys_add_spec()
        &&& self.file_headers.add_req(rhs.file_headers)
        &&& self.got.add_req(rhs.got)
        &&& self.plt.add_req(rhs.plt)
        &&& self.symtab_locals.add_req(rhs.symtab_locals)
        &&& self.symtab_globals.add_req(rhs.symtab_globals)
        &&& self.symtab_strings.add_req(rhs.symtab_strings)
        &&& self.shstrtab.add_req(rhs.shstrtab)
        &&& self.rela_plt.add_req(rhs.rela_plt)
        &&& forall|o: int, e: int| #[trigger]
            is_bucket(o, e, shorter(self.regular@.len() as int, rhs.regular@.len() as int))
                ==> self.regular@[o]@[e].add_req(rhs.regular@[o]@[e])
        &&& forall|o: int, e: int, d: T|
            #![trigger is_bucket(o, e, rhs.regular@.len() as int), is_default(d)]
            is_bucket(o, e, rhs.regular@.len() as int) && o >= self.regular@.len() && is_default(d)
                ==> d.add_req(rhs.regular@[o]@[e])
    }

    /// Adds each part of `rhs` to the same part of `self`. Where `rhs` covers
    /// more sections than `self`, `self` first grows to cover as many, the new
    /// parts starting from the default value.
    pub fn merge(&mut self, rhs: &Self)
        requires
            old(self).can_merge(rhs),
        ensures
            final(self).regular@.len() == longer(old(self).regular@.len() as int, rhs.regular@.len() as int),
            final(self).file_headers == old(self).file_headers.add_spec(rhs.file_headers),
            final(self).got == old(self).got.add_spec(rhs.got),
            final(self).plt == old(self).plt.add_spec(rhs.plt),
            final(self).symtab_locals == old(self).symtab_locals.add_spec(rhs.symtab_locals),
            final(self).symtab_globals == old(self).symtab_globals.add_spec(rhs.symtab_globals),
            final(self).symtab_strings == old(self).symtab_strings.add_spec(rhs.symtab_strings),
            final(self).shstrtab == old(self).shstrtab.add_spec(rhs.shstrtab),
            final(self).rela_plt == old(self).rela_plt.add_spec(rhs.rela_plt),
            forall|o: int, e: int|
                0 <= o < shorter(old(self).regular@.len() as int, rhs.regular@.len() as int)
                    && is_exponent(e) ==> #[trigger] final(self).regular@[o]@[e]
                        == old(self).regular@[o]@[e].add_spec(rhs.regular@[o]@[e]),
            forall|o: int, e: int|
                old(self).regular@.len() <= o < rhs.regular@.len() && is_exponent(e) ==> added_to_default(
                    rhs.regular@[o]@[e],
                    #[trigger] final(self).regular@[o]@[e],
                ),
            forall|o: int|
                rhs.regular@.len() <= o < old(self).regular@.len() ==> #[trigger] final(self).regular@[o]
                    == old(self).regular@[o],
    {
        if self.regular.len() < rhs.regular.len() {
            extend_with_default(&mut self.regular, rhs.regular.len());
        }
        let ghost grown = self.regular@;
        let mut o: usize = 0;
        while o < rhs.regular.len()
            invariant
                o <= rhs.regular@.len() <= self.regular@.len(),
                self.regular@.len() == grown.len(),
                grown.len() == longer(old(self).regular@.len() as int, rhs.regular@.len() as int),
                old(self).can_merge(rhs),
                self.file_headers == old(self).file_headers,
                self.got == old(self).got,
                self.plt == old(self).plt,
                self.symtab_locals == old(self).symtab_locals,
                self.symtab_globals == old(self).symtab_globals,
                self.symtab_strings == old(self).symtab_strings,
                self.shstrtab == old(self).shstrtab,
                self.rela_plt == old(self).rela_plt,
                forall|k: int| 0 <= k < old(self).regular@.len() ==> #[trigger] grown[k] == old(self).regular@[k],
                forall|k: int, e: int|
                    old(self).regular@.len() <= k < grown.len() && is_exponent(e) ==> is_default(
                        #[trigger] grown[k]@[e],
                    ),
                forall|k: int| o <= k < self.regular@.len() ==> #[trigger] self.regular@[k] == grown[k],
                forall|k: int, e: int| #[trigger]
                    is_bucket(k, e, o as int) ==> self.regular@[k]@[e] == grown[k]@[e].add_spec(
                        rhs.regular@[k]@[e],
                    ),
            decreases rhs.regular@.len() - o,
        {
            proof {
                assert forall|e: int| #[trigger] is_exponent(e) implies self.regular@[o as int]@[e].add_req(
                    rhs.regular@[o as int]@[e],
                ) by {
                    if o < old(self).regular@.len() {
                        assert(is_bucket(
                            o as int,
                            e,
                            shorter(old(self).regular@.len() as int, rhs.regular@.len() as int),
                        ));
                    } else {
                        assert(is_bucket(o as int, e, rhs.regular@.len() as int));
                    }
                }
            }
            self.regular[o].merge(&rhs.regular[o]);
            proof {
                assert forall|k: int, e: int| #[trigger] is_bucket(k, e, o + 1) implies self.regular@[k]@[e]
                    == grown[k]@[e].add_spec(rhs.regular@[k]@[e]) by {
                    if k < o {
                        assert(is_bucket(k, e, o as int));
                    }
                }
            }
            o = o + 1;
        }
        self.file_headers = self.file_headers + rhs.file_headers;
        self.got = self.got + rhs.got;
        self.plt = self.plt + rhs.plt;
        self.symtab_locals = self.symtab_locals + rhs.symtab_locals;
        self.symtab_globals = self.symtab_globals + rhs.symtab_globals;
        self.symtab_strings = self.symtab_strings + rhs.symtab_strings;
        self.shstrtab = self.shstrtab + rhs.shstrtab;
        self.rela_plt = self.rela_plt + rhs.rela_plt;
        proof {
            assert forall|o: int, e: int|
                0 <= o < shorter(old(self).regular@.len() as int, rhs.regular@.len() as int)
                    && is_exponent(e) implies #[trigger] self.regular@[o]@[e]
                        == old(self).regular@[o]@[e].add_spec(rhs.regular@[o]@[e]) by {
                assert(is_bucket(o, e, rhs.regular@.len() as int));
            }
            assert forall|o: int, e: int|
                old(self).regular@.len() <= o < rhs.regular@.len() && is_exponent(e) implies added_to_default(
                rhs.regular@[o]@[e],
                #[trigger] self.regular@[o]@[e],
            ) by {
                assert(is_bucket(o, e, rhs.regular@.len() as int));
            }
        }
    }
}

/// Splits the first `size` bytes off `buffer` and returns them; `buffer`
/// keeps the rest.
pub fn slice_take_prefix_mut<'out>(buffer: &mut &'out mut [u8], size: usize) -> (prefix: &'out mut [u8])
    requires
        size <= old(buffer)@.len(),
    ensures
        prefix@ == old(buffer)@.subrange(0, size as int),
        final(buffer)@ == old(buffer)@.subrange(size as int, old(buffer)@.len() as int),
{
    let mut taken: &'out mut [u8] = &mut [];
    core::mem::swap(buffer, &mut taken);
    let (prefix, rest) = taken.split_at_mut(size);
    *buffer = rest;
    prefix
}

/// Whether `taken` and `rest` are what splitting `size` bytes off `before` gives.
pub open spec fn is_split(before: Seq<u8>, size: usize, taken: Seq<u8>, rest: Seq<u8>) -> bool {
    &&& size <= before.len()
    &&& taken == before.subrange(0, size as int)
    &&& rest == before.subrange(size as int, before.len() as int)
}

impl<'out> OutputSectionPartMap<&'out mut [u8]> {
    /// Whether each buffer is at least as long as `sizes` says for the same part.
    pub open spec fn can_take(&self, sizes: &OutputSectionPartMap<usize>) -> bool {
        &&& sizes.file_headers <= self.file_headers@.len()
        &&& sizes.got <= self.got@.len()
        &&& sizes.plt <= self.plt@.len()
        &&& sizes.symtab_locals <= self.symtab_locals@.len()
        &&& sizes.symtab_globals <= self.symtab_globals@.len()
        &&& sizes.symtab_strings <= self.symtab_strings@.len()
        &&& sizes.shstrtab <= self.shstrtab@.len()
        &&& sizes.rela_plt <= self.rela_plt@.len()
        &&& forall|o: int, e: int| #[trigger]
            is_bucket(o, e, shorter(self.regular@.len() as int, sizes.regular@.len() as int))
                ==> sizes.regular@[o]@[e] <= self.regular@[o]@[e]@.len()
    }

    /// Splits off each buffer as many bytes as `sizes` says for the same part
    /// and returns the map of what was split off; `self` keeps the rest.
    pub fn take_mut(&mut self, sizes: &OutputSectionPartMap<usize>) -> (out: OutputSectionPartMap<
        &'out mut [u8],
    >)
        requires
            old(self).can_take(sizes),
        ensures
            final(self).regular@.len() == old(self).regular@.len(),
            out.regular@.len() == shorter(old(self).regular@.len() as int, sizes.regular@.len() as int),
            is_split(
                old(self).file_headers@,
                sizes.file_headers,
                out.file_headers@,
                final(self).file_headers@,
            ),
            is_split(old(self).got@, sizes.got, out.got@, final(self).got@),
            is_split(old(self).plt@, sizes.plt, out.plt@, final(self).plt@),
            is_split(
                old(self).symtab_locals@,
                sizes.symtab_locals,
                out.symtab_locals@,
                final(self).symtab_locals@,
            ),
            is_split(
                old(self).symtab_globals@,
                sizes.symtab_globals,
                out.symtab_globals@,
                final(self).symtab_globals@,
            ),
            is_split(
                old(self).symtab_strings@,
                sizes.symtab_strings,
                out.symtab_strings@,
                final(self).symtab_strings@,
            ),
            is_split(old(self).shstrtab@, sizes.shstrtab, out.shstrtab@, final(self).shstrtab@),
            is_split(old(self).rela_plt@, sizes.rela_plt, out.rela_plt@, final(self).rela_plt@),
            forall|o: int, e: int|
                0 <= o < out.regular@.len() && is_exponent(e) ==> is_split(
                    old(self).regular@[o]@[e]@,
                    sizes.regular@[o]@[e],
                    #[trigger] out.regular@[o]@[e]@,
                    final(self).regular@[o]@[e]@,
                ),
            forall|o: int|
                out.regular@.len() <= o < old(self).regular@.len() ==> #[trigger] final(self).regular@[o]
                    == old(self).regular@[o],
    {
        let take = |buffer: &mut &'out mut [u8], size: &usize| -> (prefix: &'out mut [u8])
            requires
                *size <= old(buffer)@.len(),
            ensures
                is_split(old(buffer)@, *size, prefix@, final(buffer)@),
            {
                slice_take_prefix_mut(buffer, *size)
            };
        let out = self.mut_with_map(sizes, take);
        proof {
            assert forall|o: int, e: int| 0 <= o < out.regular@.len() && is_exponent(e) implies is_split(
                old(self).regular@[o]@[e]@,
                sizes.regular@[o]@[e],
                #[trigger] out.regular@[o]@[e]@,
                self.regular@[o]@[e]@,
            ) by {
                assert(is_bucket(o, e, out.regular@.len() as int));
            }
        }
        out
    }
}

/// A part of an output section.
pub enum Part {
    FileHeaders,
    Shstrtab,
    SymtabLocals,
    SymtabGlobals,
    SymtabStrings,
    Got,
    Plt,
    RelaPlt,
    /// The bucket of a regular section for the alignment with the given exponent.
    Regular(OutputSectionId, int),
}

/// The section that the part belongs to.
pub open spec fn section_of(part: Part) -> OutputSectionId {
    match part {
        Part::FileHeaders => OutputSectionId(0),
        Part::Shstrtab => OutputSectionId(1),
        Part::SymtabLocals => OutputSectionId(2),
        Part::SymtabGlobals => OutputSectionId(2),
        Part::SymtabStrings => OutputSectionId(3),
        Part::Got => OutputSectionId(4),
        Part::Plt => OutputSectionId(5),
        Part::RelaPlt => OutputSectionId(6),
        Part::Regular(id, _) => id,
    }
}

/// The parts of the section `id` in the order in which they are laid out:
/// the local symbols before the global ones, and the buckets of a regular
/// section by descending alignment.
pub open spec fn parts_of(id: OutputSectionId) -> Seq<Part> {
    if id@ == 0 {
        seq![Part::FileHeaders]
    } else if id@ == 1 {
        seq![Part::Shstrtab]
    } else if id@ == 2 {
        seq![Part::SymtabLocals, Part::SymtabGlobals]
    } else if id@ == 3 {
        seq![Part::SymtabStrings]
    } else if id@ == 4 {
        seq![Part::Got]
    } else if id@ == 5 {
        seq![Part::Plt]
    } else if id@ == 6 {
        seq![Part::RelaPlt]
    } else {
        Seq::new(NUM_ALIGNMENTS as nat, |k: int| Part::Regular(id, MAX_EXPONENT - k))
    }
}

/// The parts of the first `k` of `sections`, section by section.
pub open spec fn parts_through(sections: Seq<OutputSectionId>, k: int) -> Seq<Part>
    decreases k,
{
    if k <= 0 {
        Seq::empty()
    } else {
        parts_through(sections, k - 1) + parts_of(sections[k - 1])
    }
}

/// The order in which `output_order_map` and `map` visit the parts: the
/// parts of each section that `output_sections` knows, in the order in which
/// the sections are laid out.
pub open spec fn part_order(output_sections: &OutputSections) -> Seq<Part> {
    parts_through(output_sections.output_order(), output_sections.output_order().len() as int)
}

/// The first `k` of `ids` with every run of equal identifiers reduced to one.
pub open spec fn without_repeats(ids: Seq<OutputSectionId>, k: int) -> Seq<OutputSectionId>
    decreases k,
{
    if k <= 0 {
        Seq::empty()
    } else if k >= 2 && ids[k - 1] == ids[k - 2] {
        without_repeats(ids, k - 1)
    } else {
        without_repeats(ids, k - 1).push(ids[k - 1])
    }
}

/// The sections of the given parts.
pub open spec fn sections_of(parts: Seq<Part>) -> Seq<OutputSectionId> {
    parts.map_values(|part: Part| section_of(part))
}

/// Whether no two neighbours among `sections` are the same.
pub open spec fn neighbours_differ(sections: Seq<OutputSectionId>) -> bool {
    forall|i: int| 0 <= i < sections.len() - 1 ==> #[trigger] sections[i] != sections[i + 1]
}

/// Reducing runs does not depend on what follows.
proof fn lemma_without_repeats_prefix(a: Seq<OutputSectionId>, b: Seq<OutputSectionId>, k: int)
    requires
        0 <= k <= a.len() <= b.len(),
        forall|i: int| 0 <= i < k ==> a[i] == b[i],
    ensures
        without_repeats(a, k) == without_repeats(b, k),
    decreases k,
{
    if k > 0 {
        lemma_without_repeats_prefix(a, b, k - 1);
    }
}

/// A run of one section after sections that end with another adds that section once.
proof fn lemma_run(before: Seq<OutputSectionId>, id: OutputSectionId, run: Seq<OutputSectionId>, k: int)
    requires
        before.len() == 0 || before.last() != id,
        1 <= k <= run.len(),
        forall|i: int| 0 <= i < run.len() ==> run[i] == id,
    ensures
        without_repeats(before + run, before.len() + k) == without_repeats(before, before.len() as int).push(id),
    decreases k,
{
    let all = before + run;
    if k > 1 {
        lemma_run(before, id, run, k - 1);
    } else {
        lemma_without_repeats_prefix(before, all, before.len() as int);
    }
}

/// The parts of the first `k` sections belong, run by run, to those sections.
proof fn lemma_parts_through(sections: Seq<OutputSectionId>, k: int)
    requires
        0 <= k <= sections.len(),
        neighbours_differ(sections),
    ensures
        without_repeats(
            sections_of(parts_through(sections, k)),
            parts_through(sections, k).len() as int,
        ) == sections.subrange(0, k),
        k > 0 ==> parts_through(sections, k).len() > 0 && section_of(parts_through(sections, k).last())
            == sections[k - 1],
    decreases k,
{
    if k > 0 {
        lemma_parts_through(sections, k - 1);
        let id = sections[k - 1];
        let before = sections_of(parts_through(sections, k - 1));
        let run = sections_of(parts_of(id));
        assert(sections_of(parts_through(sections, k)) =~= before + run);
        lemma_run(before, id, run, run.len() as int);
    }
}

/// In the order in which the sections are laid out, no section follows itself.
pub proof fn lemma_output_order_neighbours(output_sections: &OutputSections)
    requires
        output_sections.wf(),
    ensures
        neighbours_differ(output_sections.output_order()),
{
    let order = output_sections.output_order();
    let ro = output_sections.ro_custom@;
    let ex = output_sections.exec_custom@;
    let da = output_sections.data_custom@;
    let all = output_sections.custom_ids();
    assert forall|i: int| 0 <= i < order.len() - 1 implies #[trigger] order[i] != order[i + 1] by {
        if i + 1 < 9 {
        } else if i + 1 < 9 + ro.len() {
            assert(order[i + 1] == all[i + 1 - 9]);
            if i >= 9 {
                assert(order[i] == all[i - 9]);
            }
        } else if i + 1 < 13 + ro.len() {
            if i < 9 + ro.len() && i >= 9 {
                assert(order[i] == all[i - 9]);
            }
        } else if i + 1 < 13 + ro.len() + ex.len() {
            assert(order[i + 1] == all[i + 1 - 13]);
            if i >= 13 + ro.len() {
                assert(order[i] == all[i - 13]);
            }
        } else if i + 1 < 15 + ro.len() + ex.len() {
            if i < 13 + ro.len() + ex.len() && i >= 13 + ro.len() {
                assert(order[i] == all[i - 13]);
            }
        } else if i + 1 < 15 + ro.len() + ex.len() + da.len() {
            assert(order[i + 1] == all[i + 1 - 15]);
            if i >= 15 + ro.len() + ex.len() {
                assert(order[i] == all[i - 15]);
            }
        } else if i + 1 < 18 + ro.len() + ex.len() + da.len() {
            if i < 15 + ro.len() + ex.len() + da.len() && i >= 15 + ro.len() + ex.len() {
                assert(order[i] == all[i - 15]);
            }
        } else {
            assert(order[i + 1] == all[i + 1 - 18]);
            if i >= 18 + ro.len() + ex.len() + da.len() {
                assert(order[i] == all[i - 18]);
            }
        }
    }
}

/// The order in which the parts are visited is consistent with the order in
/// which the sections are laid out: the sections of the parts, each run of
/// one section taken once, are the sections in the order of `sections_do`.
pub proof fn lemma_part_order_consistent(output_sections: &OutputSections)
    requires
        output_sections.wf(),
    ensures
        without_repeats(
            sections_of(part_order(output_sections)),
            part_order(output_sections).len() as int,
        ) == output_sections.output_order(),
{
    let order = output_sections.output_order();
    lemma_output_order_neighbours(output_sections);
    lemma_parts_through(order, order.len() as int);
}

/// The sum of the given values.
pub open spec fn sum_of(values: Seq<u32>) -> int
    decreases values.len(),
{
    if values.len() == 0 {
        0
    } else {
        sum_of(values.drop_last()) + values.last()
    }
}

/// The sum of values that are all the same is that value times their number.
pub proof fn lemma_sum_of_same(values: Seq<u32>, value: u32)
    requires
        forall|i: int| 0 <= i < values.len() ==> values[i] == value,
    ensures
        sum_of(values) == values.len() * value,
    decreases values.len(),
{
    if values.len() > 0 {
        lemma_sum_of_same(values.drop_last(), value);
        assert(values.len() * value == (values.len() - 1) * value + value) by (nonlinear_arith);
    }
}

impl OutputSectionPartMap<u32> {
    /// Whether every part but the file headers holds `value`.
    pub open spec fn all_but_headers_are(&self, value: u32) -> bool {
        &&& self.got == value
        &&& self.plt == value
        &&& self.symtab_locals == value
        &&& self.symtab_globals == value
        &&& self.symtab_strings == value
        &&& self.shstrtab == value
        &&& self.rela_plt == value
        &&& forall|o: int, e: int|
            0 <= o < self.regular@.len() && is_exponent(e) ==> #[trigger] self.regular@[o]@[e] == value
    }

    /// Every section has a part: in a map whose parts all hold 1, the parts
    /// of each section sum up to more than nothing.
    pub proof fn lemma_every_section_has_parts(&self, section: int)
        requires
            self.file_headers == 1,
            self.all_but_headers_are(1),
            0 <= section < self.num_sections(),
        ensures
            sum_of(self.section_parts(section)) > 0,
    {
        let parts = self.section_parts(section);
        if section >= NUM_GENERATED_SECTIONS {
            self.regular@[section - NUM_GENERATED_SECTIONS].lemma_len();
        }
        lemma_sum_of_same(parts, 1);
    }

    /// What is added to the file headers shows in the section of the headers
    /// and in no other: in a map whose other parts all hold 0, the parts of
    /// the headers sum up to what the file headers hold, and the parts of
    /// every other section to nothing.
    pub proof fn lemma_headers_only(&self, section: int)
        requires
            self.all_but_headers_are(0),
            0 <= section < self.num_sections(),
        ensures
            sum_of(self.section_parts(section)) == if section == 0 {
                self.file_headers as int
            } else {
                0
            },
    {
        let parts = self.section_parts(section);
        if section == 0 {
            assert(sum_of(parts.drop_last()) == 0);
        } else {
            if section >= NUM_GENERATED_SECTIONS {
                self.regular@[section - NUM_GENERATED_SECTIONS].lemma_len();
            }
            lemma_sum_of_same(parts, 0);
        }
    }
}

} // verus!
