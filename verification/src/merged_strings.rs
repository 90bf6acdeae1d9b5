//! Merges the strings of all sections of mergeable strings of a link, output
//! section by output section.

use crate::error::Error;
use crate::merge_strings::{
    start_of, total_len, with_strings, MergeStringsSection,
    UnresolvedMergeStringsFileSection, MERGE_STRING_BUCKETS,
};
use crate::output_section_id::{OutputSectionId, OutputSections};
use crate::output_section_map::OutputSectionMap;
use crate::resolution::{NonDynamicResolved, ResolvedFile, ResolvedGroup};
use crate::section_slot::SectionSlot;
use vstd::prelude::*;

verus! {

/// A section of mergeable strings of an object together with the output
/// section that its strings go to.
pub type MergeEntry<'data> = (OutputSectionId, UnresolvedMergeStringsFileSection<'data>);

/// Whether the first `k` sections of mergeable strings of the object are in
/// order: each names a section of the object, and the slot of that section
/// says that it holds mergeable strings.
pub open spec fn slots_agree(sections: &NonDynamicResolved, k: int) -> bool {
    forall|j: int|
        0 <= j < k ==> {
            let index = (#[trigger] sections.merge_strings_sections@[j]).section_index;
            index < sections.sections@.len() && sections.sections@[index as int] is MergeStrings
        }
}

/// The first `k` sections of mergeable strings of the object, each with the
/// output section that its slot names.
pub open spec fn object_entries<'data>(sections: &NonDynamicResolved<'data>, k: int) -> Seq<MergeEntry<'data>>
    decreases k,
{
    if k <= 0 {
        Seq::empty()
    } else {
        let fragments = sections.merge_strings_sections@[k - 1];
        object_entries(sections, k - 1).push(
            (sections.sections@[fragments.section_index as int]->MergeStrings_0.part_id.section, fragments),
        )
    }
}

/// The sections of mergeable strings of the file, each with its output section.
pub open spec fn file_entries<'data>(file: ResolvedFile<'data>) -> Seq<MergeEntry<'data>> {
    match file {
        ResolvedFile::Object(obj) => match obj.non_dynamic {
            Some(sections) => object_entries(&sections, sections.merge_strings_sections@.len() as int),
            None => Seq::empty(),
        },
        _ => Seq::empty(),
    }
}

/// Whether the sections of mergeable strings of the file are in order.
pub open spec fn file_agrees(file: ResolvedFile) -> bool {
    match file {
        ResolvedFile::Object(obj) => match obj.non_dynamic {
            Some(sections) => slots_agree(&sections, sections.merge_strings_sections@.len() as int),
            None => true,
        },
        _ => true,
    }
}

/// The sections of mergeable strings of the files before the file `f` of
/// the group `g`, group by group and file by file.
pub open spec fn entries_before<'data>(groups: Seq<ResolvedGroup<'data>>, g: int, f: int) -> Seq<MergeEntry<'data>>
    decreases g, f,
{
    if g < 0 || f < 0 {
        Seq::empty()
    } else if f > 0 {
        entries_before(groups, g, f - 1) + file_entries(groups[g].files@[f - 1])
    } else if g > 0 {
        entries_before(groups, g - 1, groups[g - 1].files@.len() as int)
    } else {
        Seq::empty()
    }
}

/// All sections of mergeable strings of the link, in the order of the files.
pub open spec fn merge_entries<'data>(groups: Seq<ResolvedGroup<'data>>) -> Seq<MergeEntry<'data>> {
    entries_before(groups, groups.len() as int, 0)
}

/// Whether the sections of mergeable strings of every file are in order.
pub open spec fn all_agree(groups: Seq<ResolvedGroup>) -> bool {
    forall|g: int, f: int|
        0 <= g < groups.len() && 0 <= f < groups[g].files@.len() ==> file_agrees(#[trigger] groups[g].files@[f])
}

/// The strings of the bucket `b` of the output section `section` after the
/// first `k` of `entries` have been merged: the strings of each entry for
/// that section are added in their order, each unless the bucket holds an
/// equal string already.
pub open spec fn bucket_strings(entries: Seq<MergeEntry>, section: int, b: int, k: int) -> Seq<Seq<u8>>
    decreases k,
{
    if k <= 0 {
        Seq::empty()
    } else {
        let before = bucket_strings(entries, section, b, k - 1);
        if entries[k - 1].0@ == section {
            with_strings(before, entries[k - 1].1.bucket(b), entries[k - 1].1.bucket(b).len() as int)
        } else {
            before
        }
    }
}

/// The total length of the strings that the first `k` of `entries` add to
/// the bucket `b` of the output section `section`, equal strings counted
/// each time.
pub open spec fn bytes_added(entries: Seq<MergeEntry>, section: int, b: int, k: int) -> int
    decreases k,
{
    if k <= 0 {
        0
    } else if entries[k - 1].0@ == section {
        bytes_added(entries, section, b, k - 1) + entries[k - 1].1.bucket_bytes(b)
    } else {
        bytes_added(entries, section, b, k - 1)
    }
}

/// How many strings the first `k` of `entries` add to the bucket `b` of the
/// output section `section`, equal strings counted each time.
pub open spec fn strings_added(entries: Seq<MergeEntry>, section: int, b: int, k: int) -> int
    decreases k,
{
    if k <= 0 {
        0
    } else if entries[k - 1].0@ == section {
        strings_added(entries, section, b, k - 1) + entries[k - 1].1.bucket(b).len()
    } else {
        strings_added(entries, section, b, k - 1)
    }
}

/// The total length of the strings that the first `k` of `entries` add to
/// the first `b` buckets of the output section `section`.
pub open spec fn section_bytes(entries: Seq<MergeEntry>, section: int, b: int, k: int) -> int
    decreases b,
{
    if b <= 0 {
        0
    } else {
        section_bytes(entries, section, b - 1, k) + bytes_added(entries, section, b - 1, k)
    }
}

/// The total length of the strings of the first `b` buckets of `fragments`.
pub open spec fn fragment_bytes(fragments: UnresolvedMergeStringsFileSection, b: int) -> int
    decreases b,
{
    if b <= 0 {
        0
    } else {
        fragment_bytes(fragments, b - 1) + fragments.bucket_bytes(b - 1)
    }
}

/// The number of the strings of the first `b` buckets of `fragments`.
pub open spec fn fragment_strings(fragments: UnresolvedMergeStringsFileSection, b: int) -> int
    decreases b,
{
    if b <= 0 {
        0
    } else {
        fragment_strings(fragments, b - 1) + fragments.bucket(b - 1).len()
    }
}

/// The total length of the strings of the first `k` of `entries`.
pub open spec fn total_bytes(entries: Seq<MergeEntry>, k: int) -> int
    decreases k,
{
    if k <= 0 {
        0
    } else {
        total_bytes(entries, k - 1) + fragment_bytes(entries[k - 1].1, MERGE_STRING_BUCKETS as int)
    }
}

/// The number of the strings of the first `k` of `entries`.
pub open spec fn total_strings(entries: Seq<MergeEntry>, k: int) -> int
    decreases k,
{
    if k <= 0 {
        0
    } else {
        total_strings(entries, k - 1) + fragment_strings(entries[k - 1].1, MERGE_STRING_BUCKETS as int)
    }
}

/// Whether each of `entries` names one of `num_sections` output sections
/// and has its strings in `MERGE_STRING_BUCKETS` buckets.
pub open spec fn entries_fit(entries: Seq<MergeEntry>, num_sections: int) -> bool {
    forall|k: int|
        0 <= k < entries.len() ==> (#[trigger] entries[k]).0@ < num_sections && entries[k].1.buckets@.len()
            == MERGE_STRING_BUCKETS
}

/// Whether the strings of `entries` can be counted, and their lengths added up.
pub open spec fn is_countable(entries: Seq<MergeEntry>) -> bool {
    total_bytes(entries, entries.len() as int) <= usize::MAX && total_strings(entries, entries.len() as int)
        <= usize::MAX
}

/// Whether `entries` can be merged into `num_sections` output sections.
pub open spec fn can_merge(entries: Seq<MergeEntry>, num_sections: int) -> bool {
    entries_fit(entries, num_sections) && is_countable(entries)
}

/// The strings of some buckets are no longer and no more than those of more buckets.
pub proof fn lemma_fragment_monotonic(fragments: UnresolvedMergeStringsFileSection, a: int, b: int)
    requires
        0 <= a <= b,
    ensures
        0 <= fragment_bytes(fragments, a) <= fragment_bytes(fragments, b),
        0 <= fragment_strings(fragments, a) <= fragment_strings(fragments, b),
        a < b ==> fragments.bucket_bytes(a) <= fragment_bytes(fragments, b) && fragments.bucket(a).len()
            <= fragment_strings(fragments, b),
    decreases b,
{
    if b > 0 {
        let bucket = fragments.bucket(b - 1);
        crate::merge_strings::lemma_total_len_monotonic(bucket, 0, bucket.len() as int);
        if a < b {
            lemma_fragment_monotonic(fragments, a, b - 1);
        } else {
            lemma_fragment_monotonic(fragments, a - 1, b - 1);
        }
    }
}

/// The totals grow with the number of entries.
pub proof fn lemma_total_monotonic(entries: Seq<MergeEntry>, i: int, j: int)
    requires
        0 <= i <= j <= entries.len(),
    ensures
        0 <= total_bytes(entries, i) <= total_bytes(entries, j),
        0 <= total_strings(entries, i) <= total_strings(entries, j),
    decreases j,
{
    if j > 0 {
        lemma_fragment_monotonic(entries[j - 1].1, 0, MERGE_STRING_BUCKETS as int);
        if i < j {
            lemma_total_monotonic(entries, i, j - 1);
        } else {
            lemma_total_monotonic(entries, i - 1, j - 1);
        }
    }
}

/// What is added to one bucket is no more than everything.
pub proof fn lemma_added_within_total(entries: Seq<MergeEntry>, section: int, b: int, k: int)
    requires
        0 <= k <= entries.len(),
        0 <= b < MERGE_STRING_BUCKETS,
    ensures
        bytes_added(entries, section, b, k) <= total_bytes(entries, k),
        strings_added(entries, section, b, k) <= total_strings(entries, k),
    decreases k,
{
    if k > 0 {
        lemma_added_within_total(entries, section, b, k - 1);
        lemma_fragment_monotonic(entries[k - 1].1, b, MERGE_STRING_BUCKETS as int);
    }
}

/// What one more entry adds to the first `b` buckets of a section.
proof fn lemma_section_bytes_step(entries: Seq<MergeEntry>, section: int, b: int, k: int)
    requires
        1 <= k <= entries.len(),
        0 <= b,
    ensures
        section_bytes(entries, section, b, k) == section_bytes(entries, section, b, k - 1) + if entries[k
            - 1].0@ == section {
            fragment_bytes(entries[k - 1].1, b)
        } else {
            0
        },
    decreases b,
{
    if b > 0 {
        lemma_section_bytes_step(entries, section, b - 1, k);
    }
}

/// What is added to the buckets of one section is no more than everything.
pub proof fn lemma_section_within_total(entries: Seq<MergeEntry>, section: int, b: int, k: int)
    requires
        0 <= k <= entries.len(),
        0 <= b <= MERGE_STRING_BUCKETS,
    ensures
        section_bytes(entries, section, b, k) <= total_bytes(entries, k),
    decreases k,
{
    if k > 0 {
        lemma_section_within_total(entries, section, b, k - 1);
        lemma_section_bytes_step(entries, section, b, k);
        lemma_fragment_monotonic(entries[k - 1].1, b, MERGE_STRING_BUCKETS as int);
    } else {
        lemma_section_bytes_zero(entries, section, b);
    }
}

/// No entries add nothing.
proof fn lemma_section_bytes_zero(entries: Seq<MergeEntry>, section: int, b: int)
    requires
        0 <= b,
    ensures
        section_bytes(entries, section, b, 0) == 0,
    decreases b,
{
    if b > 0 {
        lemma_section_bytes_zero(entries, section, b - 1);
    }
}

/// What is added grows with the number of entries.
pub proof fn lemma_added_monotonic(entries: Seq<MergeEntry>, section: int, b: int, i: int, j: int)
    requires
        0 <= i <= j <= entries.len(),
    ensures
        0 <= bytes_added(entries, section, b, i) <= bytes_added(entries, section, b, j),
        0 <= strings_added(entries, section, b, i) <= strings_added(entries, section, b, j),
    decreases j,
{
    if i < j {
        lemma_added_monotonic(entries, section, b, i, j - 1);
        let bucket = entries[j - 1].1.bucket(b);
        crate::merge_strings::lemma_total_len_monotonic(bucket, 0, bucket.len() as int);
    } else if j > 0 {
        lemma_added_monotonic(entries, section, b, i - 1, j - 1);
        let bucket = entries[j - 1].1.bucket(b);
        crate::merge_strings::lemma_total_len_monotonic(bucket, 0, bucket.len() as int);
    }
}

/// Collects the sections of mergeable strings of all loaded objects, each
/// with the output section that its slot names. Fails if a slot does not
/// say that its section holds mergeable strings.
pub fn gather_merge_entries<'a, 'data>(resolved: &'a [ResolvedGroup<'data>]) -> (r: Result<
    Vec<(OutputSectionId, &'a UnresolvedMergeStringsFileSection<'data>)>,
    Error,
>)
    ensures
        match r {
            Ok(entries) => all_agree(resolved@) && entry_values(entries@) == merge_entries(resolved@),
            Err(e) => !all_agree(resolved@) && e == Error::ExpectedMergeStringsSlot,
        },
{
    let mut entries: Vec<(OutputSectionId, &'a UnresolvedMergeStringsFileSection<'data>)> = Vec::new();
    let mut g: usize = 0;
    while g < resolved.len()
        invariant
            g <= resolved@.len(),
            forall|i: int, f: int|
                0 <= i < g && 0 <= f < resolved@[i].files@.len() ==> file_agrees(
                    #[trigger] resolved@[i].files@[f],
                ),
            entry_values(entries@) == entries_before(resolved@, g as int, 0),
        decreases resolved@.len() - g,
    {
        let group = &resolved[g];
        let mut f: usize = 0;
        while f < group.files.len()
            invariant
                g < resolved@.len(),
                *group == resolved@[g as int],
                f <= group.files@.len(),
                forall|i: int, f: int|
                    0 <= i < g && 0 <= f < resolved@[i].files@.len() ==> file_agrees(
                        #[trigger] resolved@[i].files@[f],
                    ),
                forall|k: int| 0 <= k < f ==> file_agrees(#[trigger] group.files@[k]),
                entry_values(entries@) == entries_before(resolved@, g as int, f as int),
            decreases group.files@.len() - f,
        {
            let ghost entries_at_file = entry_values(entries@);
            if let ResolvedFile::Object(obj) = &group.files[f] {
                if let Some(non_dynamic) = &obj.non_dynamic {
                    let mut k: usize = 0;
                    while k < non_dynamic.merge_strings_sections.len()
                        invariant
                            k <= non_dynamic.merge_strings_sections@.len(),
                            g < resolved@.len(),
                            f < resolved@[g as int].files@.len(),
                            resolved@[g as int].files@[f as int] == ResolvedFile::Object(*obj),
                            obj.non_dynamic == Some(*non_dynamic),
                            slots_agree(non_dynamic, k as int),
                            entry_values(entries@) == entries_at_file + object_entries(non_dynamic, k as int),
                        decreases non_dynamic.merge_strings_sections@.len() - k,
                    {
                        let merge_info = &non_dynamic.merge_strings_sections[k];
                        let ghost before = entry_values(entries@);
                        if merge_info.section_index >= non_dynamic.sections.len() {
                            return Err(Error::ExpectedMergeStringsSlot);
                        }
                        match non_dynamic.sections[merge_info.section_index] {
                            SectionSlot::MergeStrings(sec) => {
                                entries.push((sec.part_id.output_section_id(), merge_info));
                                proof {
                                    assert(entry_values(entries@) =~= before.push(
                                        (sec.part_id.section, *merge_info),
                                    ));
                                }
                            },
                            _ => {
                                return Err(Error::ExpectedMergeStringsSlot);
                            },
                        }
                        k = k + 1;
                    }
                }
            }
            f = f + 1;
        }
        g = g + 1;
    }
    Ok(entries)
}

/// The entries that the references stand for.
pub open spec fn entry_values<'a, 'data>(
    entries: Seq<(OutputSectionId, &'a UnresolvedMergeStringsFileSection<'data>)>,
) -> Seq<MergeEntry<'data>> {
    entries.map_values(|e: (OutputSectionId, &'a UnresolvedMergeStringsFileSection<'data>)| (e.0, *e.1))
}

/// Whether `merged` holds, bucket by bucket, what the first `k` of `entries`
/// add to the output section `section`.
pub open spec fn holds_merged(merged: MergeStringsSection, entries: Seq<MergeEntry>, section: int, k: int) -> bool {
    &&& merged.counted()
    &&& forall|b: int|
        0 <= b < MERGE_STRING_BUCKETS ==> {
            let bucket = #[trigger] merged.buckets@[b];
            &&& bucket@ == bucket_strings(entries, section, b, k)
            &&& bucket.totally_added == bytes_added(entries, section, b, k)
            &&& bucket.totally_added_strings == strings_added(entries, section, b, k)
        }
}

/// A section is no larger than what was added to its buckets.
pub proof fn lemma_size_bound(merged: MergeStringsSection, entries: Seq<MergeEntry>, section: int, b: int)
    requires
        holds_merged(merged, entries, section, entries.len() as int),
        0 <= b <= MERGE_STRING_BUCKETS,
    ensures
        start_of(merged.buckets@, b) <= section_bytes(entries, section, b, entries.len() as int),
    decreases b,
{
    if b > 0 {
        lemma_size_bound(merged, entries, section, b - 1);
    }
}

/// The total length and the number of the strings `strings`, unless they
/// cannot be counted.
fn bucket_totals<'data>(strings: &Vec<crate::hash::PreHashed<crate::merge_strings::StringToMerge<'data>>>) -> (r:
    Option<usize>)
    ensures
        match r {
            Some(bytes) => bytes == total_len(
                crate::merge_strings::contents(strings@),
                strings@.len() as int,
            ),
            None => total_len(crate::merge_strings::contents(strings@), strings@.len() as int) > usize::MAX,
        },
{
    let ghost all = crate::merge_strings::contents(strings@);
    let mut bytes: usize = 0;
    let mut i: usize = 0;
    while i < strings.len()
        invariant
            i <= strings@.len(),
            all == crate::merge_strings::contents(strings@),
            bytes == total_len(all, i as int),
        decreases strings@.len() - i,
    {
        let len = strings[i].value.bytes.len();
        if bytes > usize::MAX - len {
            proof {
                crate::merge_strings::lemma_total_len_monotonic(all, i + 1, all.len() as int);
            }
            return None;
        }
        bytes = bytes + len;
        i = i + 1;
    }
    Some(bytes)
}

/// The total length and the number of the strings of `fragments`, unless
/// they cannot be counted.
fn fragment_totals<'data>(fragments: &UnresolvedMergeStringsFileSection<'data>) -> (r: Option<(usize, usize)>)
    requires
        fragments.buckets@.len() == MERGE_STRING_BUCKETS,
    ensures
        match r {
            Some((bytes, strings)) => bytes == fragment_bytes(*fragments, MERGE_STRING_BUCKETS as int)
                && strings == fragment_strings(*fragments, MERGE_STRING_BUCKETS as int),
            None => fragment_bytes(*fragments, MERGE_STRING_BUCKETS as int) > usize::MAX || fragment_strings(
                *fragments,
                MERGE_STRING_BUCKETS as int,
            ) > usize::MAX,
        },
{
    let mut bytes: usize = 0;
    let mut strings: usize = 0;
    let mut b: usize = 0;
    while b < MERGE_STRING_BUCKETS
        invariant
            b <= MERGE_STRING_BUCKETS,
            fragments.buckets@.len() == MERGE_STRING_BUCKETS,
            bytes == fragment_bytes(*fragments, b as int),
            strings == fragment_strings(*fragments, b as int),
        decreases MERGE_STRING_BUCKETS - b,
    {
        proof {
            lemma_fragment_monotonic(*fragments, b + 1, MERGE_STRING_BUCKETS as int);
        }
        let more = match bucket_totals(&fragments.buckets[b]) {
            Some(more) => more,
            None => {
                return None;
            },
        };
        let count = fragments.buckets[b].len();
        if bytes > usize::MAX - more || strings > usize::MAX - count {
            return None;
        }
        bytes = bytes + more;
        strings = strings + count;
        b = b + 1;
    }
    Some((bytes, strings))
}

/// Checks that `entries` can be merged into `num_sections` output sections:
/// that each names one of the sections and has a list of strings for each
/// bucket, and that the strings can be counted.
pub fn check_entries<'a, 'data>(
    entries: &Vec<(OutputSectionId, &'a UnresolvedMergeStringsFileSection<'data>)>,
    num_sections: usize,
) -> (r: Result<(), Error>)
    ensures
        match r {
            Ok(()) => can_merge(entry_values(entries@), num_sections as int),
            Err(e) => if e == Error::TooLarge {
                entries_fit(entry_values(entries@), num_sections as int) && !is_countable(
                    entry_values(entries@),
                )
            } else {
                e == Error::ExpectedMergeStringsSlot && !entries_fit(entry_values(entries@), num_sections as int)
            },
        },
{
    let ghost values = entry_values(entries@);
    let mut k: usize = 0;
    while k < entries.len()
        invariant
            k <= entries@.len(),
            values == entry_values(entries@),
            forall|i: int|
                0 <= i < k ==> (#[trigger] values[i]).0@ < num_sections && values[i].1.buckets@.len()
                    == MERGE_STRING_BUCKETS,
        decreases entries@.len() - k,
    {
        let (section_id, fragments) = entries[k];
        assert(values[k as int] == (section_id, *fragments));
        if section_id.as_usize() >= num_sections || fragments.buckets.len() != MERGE_STRING_BUCKETS {
            return Err(Error::ExpectedMergeStringsSlot);
        }
        k = k + 1;
    }
    let mut bytes: usize = 0;
    let mut strings: usize = 0;
    let mut k: usize = 0;
    while k < entries.len()
        invariant
            k <= entries@.len(),
            values == entry_values(entries@),
            entries_fit(values, num_sections as int),
            bytes == total_bytes(values, k as int),
            strings == total_strings(values, k as int),
        decreases entries@.len() - k,
    {
        let (section_id, fragments) = entries[k];
        proof {
            lemma_total_monotonic(values, k + 1, values.len() as int);
        }
        let (more_bytes, more_strings) = match fragment_totals(fragments) {
            Some(totals) => totals,
            None => {
                return Err(Error::TooLarge);
            },
        };
        if bytes > usize::MAX - more_bytes || strings > usize::MAX - more_strings {
            return Err(Error::TooLarge);
        }
        bytes = bytes + more_bytes;
        strings = strings + more_strings;
        k = k + 1;
    }
    Ok(())
}

/// Merges the strings of all sections of mergeable strings of the loaded
/// objects. Each output section gets its strings in `MERGE_STRING_BUCKETS`
/// buckets: a string goes to the bucket of its hash, in the order in which
/// the files and their sections hold it, unless the bucket holds an equal
/// string already. The buckets of a section are laid out one after the other.
///
/// Fails if a slot does not say that its section holds mergeable strings or
/// names no output section, and if there are more strings than can be counted.
pub fn merge_strings<'data>(resolved: &[ResolvedGroup<'data>], output_sections: &OutputSections) -> (r:
    Result<OutputSectionMap<MergeStringsSection<'data>>, Error>)
    requires
        output_sections.wf(),
    ensures
        match r {
            Ok(merged) => {
                let entries = merge_entries(resolved@);
                &&& all_agree(resolved@)
                &&& can_merge(entries, output_sections.num_sections())
                &&& merged@.len() == output_sections.num_sections()
                &&& forall|section: int|
                    0 <= section < merged@.len() ==> (#[trigger] merged@[section]).laid_out() && holds_merged(
                        merged@[section],
                        entries,
                        section,
                        entries.len() as int,
                    )
            },
            Err(e) => if e == Error::TooLarge {
                &&& all_agree(resolved@)
                &&& entries_fit(merge_entries(resolved@), output_sections.num_sections())
                &&& !is_countable(merge_entries(resolved@))
            } else {
                &&& e == Error::ExpectedMergeStringsSlot
                &&& !all_agree(resolved@) || !entries_fit(
                    merge_entries(resolved@),
                    output_sections.num_sections(),
                )
            },
        },
{
    let worklist = match gather_merge_entries(resolved) {
        Ok(worklist) => worklist,
        Err(e) => {
            return Err(e);
        },
    };
    match check_entries(&worklist, output_sections.len()) {
        Ok(()) => {},
        Err(e) => {
            return Err(e);
        },
    }
    Ok(merge_entries_into_sections(&worklist, output_sections))
}

/// Merges `worklist` into a section of merged strings for each output section.
fn merge_entries_into_sections<'a, 'data>(
    worklist: &Vec<(OutputSectionId, &'a UnresolvedMergeStringsFileSection<'data>)>,
    output_sections: &OutputSections,
) -> (strings_by_section: OutputSectionMap<MergeStringsSection<'data>>)
    requires
        output_sections.wf(),
        can_merge(entry_values(worklist@), output_sections.num_sections()),
    ensures
        strings_by_section@.len() == output_sections.num_sections(),
        forall|section: int|
            0 <= section < strings_by_section@.len() ==> (#[trigger] strings_by_section@[section]).laid_out()
                && holds_merged(
                strings_by_section@[section],
                entry_values(worklist@),
                section,
                worklist@.len() as int,
            ),
{
    let ghost entries = entry_values(worklist@);
    let ghost n = output_sections.num_sections();
    let mut strings_by_section = output_sections.new_section_map::<MergeStringsSection<'data>>();
    proof {
        assert forall|section: int| 0 <= section < n implies holds_merged(
            #[trigger] strings_by_section@[section],
            entries,
            section,
            0,
        ) by {
            let merged = strings_by_section@[section];
            assert forall|b: int| 0 <= b < MERGE_STRING_BUCKETS implies (#[trigger] merged.buckets@[b]).counted()
                && merged.buckets@[b]@ =~= bucket_strings(entries, section, b, 0) by {}
        }
    }
    let mut k: usize = 0;
    while k < worklist.len()
        invariant
            k <= entries.len(),
            entry_values(worklist@) == entries,
            n == output_sections.num_sections(),
            can_merge(entries, n),
            strings_by_section@.len() == n,
            forall|section: int|
                0 <= section < n ==> holds_merged(#[trigger] strings_by_section@[section], entries, section, k as int),
        decreases entries.len() - k,
    {
        let (section_id, fragments) = worklist[k];
        let ghost before = strings_by_section@;
        assert(entries[k as int] == (section_id, *fragments));
        let merged_strings = strings_by_section.get_mut(section_id);
        proof {
            assert forall|b: int| 0 <= b < MERGE_STRING_BUCKETS implies {
                &&& (#[trigger] merged_strings.buckets@[b]).totally_added + fragments.bucket_bytes(b)
                    <= usize::MAX
                &&& merged_strings.buckets@[b].totally_added_strings + fragments.bucket(b).len()
                    <= usize::MAX
            } by {
                lemma_added_within_total(entries, section_id@, b, k + 1);
                lemma_total_monotonic(entries, k + 1, entries.len() as int);
            }
        }
        merged_strings.add_fragments(fragments);
        k = k + 1;
    }
    let mut section: usize = 0;
    while section < strings_by_section.values.len()
        invariant
            section <= n,
            n == output_sections.num_sections(),
            can_merge(entries, n),
            strings_by_section@.len() == n,
            forall|i: int|
                0 <= i < n ==> holds_merged(
                    #[trigger] strings_by_section@[i],
                    entries,
                    i,
                    entries.len() as int,
                ),
            forall|i: int| 0 <= i < section ==> (#[trigger] strings_by_section@[i]).laid_out(),
        decreases n - section,
    {
        let ghost before = strings_by_section@;
        proof {
            lemma_size_bound(before[section as int], entries, section as int, MERGE_STRING_BUCKETS as int);
            lemma_section_within_total(
                entries,
                section as int,
                MERGE_STRING_BUCKETS as int,
                entries.len() as int,
            );
        }
        strings_by_section.values[section].set_bucket_offsets();
        section = section + 1;
    }
    strings_by_section
}

/// The offset of a string in an output section depends only on what the
/// buckets of the section hold and in which order: two sections whose
/// buckets hold the same strings give every string the same offset,
/// however and in which order of buckets they were filled.
pub proof fn lemma_offsets_determined(a: MergeStringsSection, b: MergeStringsSection, string: Seq<u8>, hash: u64)
    requires
        a.wf(),
        b.wf(),
        forall|i: int| 0 <= i < MERGE_STRING_BUCKETS ==> (#[trigger] a.buckets@[i])@ == b.buckets@[i]@,
    ensures
        a.size() == b.size(),
        a.offset_of(string, hash) == b.offset_of(string, hash),
{
    lemma_same_start(a, b, MERGE_STRING_BUCKETS as int);
    lemma_same_start(a, b, crate::merge_strings::bucket_of(hash));
}

/// Buckets that hold the same strings start at the same offsets.
proof fn lemma_same_start(a: MergeStringsSection, b: MergeStringsSection, limit: int)
    requires
        a.wf(),
        b.wf(),
        0 <= limit <= MERGE_STRING_BUCKETS,
        forall|i: int| 0 <= i < MERGE_STRING_BUCKETS ==> (#[trigger] a.buckets@[i])@ == b.buckets@[i]@,
    ensures
        start_of(a.buckets@, limit) == start_of(b.buckets@, limit),
    decreases limit,
{
    if limit > 0 {
        lemma_same_start(a, b, limit - 1);
    }
}

} // verus!
